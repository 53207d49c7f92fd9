use vstd::prelude::*;
use vstd::string::*;
use vstd::utf8::*;

use crate::conversation::{system_prompt, system_text};
use crate::planner::views;

verus! {

broadcast use group_utf8_lib;

/// The byte that ends each text of a saved session. Valid UTF-8 never holds it.
pub const TERMINATOR: u8 = 0xff;

/// The saved form of a list of texts: each text's UTF-8 bytes, then the terminator.
pub open spec fn frame(parts: Seq<Seq<char>>) -> Seq<u8>
    decreases parts.len(),
{
    if parts.len() == 0 {
        Seq::empty()
    } else {
        encode_utf8(parts[0]) + seq![TERMINATOR] + frame(parts.drop_first())
    }
}

/// The position of the first terminator, or the length where there is none.
pub open spec fn first_terminator(b: Seq<u8>) -> nat
    decreases b.len(),
{
    if b.len() == 0 || b[0] == TERMINATOR {
        0
    } else {
        1 + first_terminator(b.drop_first())
    }
}

/// The texts a saved form holds, or `None` where a text is not valid UTF-8 or
/// the last one lacks its terminator.
pub open spec fn unframe(b: Seq<u8>) -> Option<Seq<Seq<char>>>
    decreases b.len(),
{
    if b.len() == 0 {
        Some(Seq::empty())
    } else {
        let k = first_terminator(b);
        if k >= b.len() || !valid_utf8(b.subrange(0, k as int)) {
            None
        } else {
            match unframe(b.subrange((k + 1) as int, b.len() as int)) {
                None => None,
                Some(rest) => Some(seq![decode_utf8(b.subrange(0, k as int))] + rest),
            }
        }
    }
}

pub open spec fn prepend(done: Seq<Seq<char>>, rest: Option<Seq<Seq<char>>>) -> Option<
    Seq<Seq<char>>,
> {
    match rest {
        None => None,
        Some(r) => Some(done + r),
    }
}

proof fn lemma_no_terminator(b: Seq<u8>)
    requires
        valid_utf8(b),
    ensures
        forall|i: int| 0 <= i < b.len() ==> b[i] != TERMINATOR,
{
    assert forall|i: int| 0 <= i < b.len() implies b[i] != TERMINATOR by {
        if is_char_boundary(b, i) {
            assert(is_leading_byte_width_1(b[i]) || is_leading_byte_width_2(b[i])
                || is_leading_byte_width_3(b[i]) || is_leading_byte_width_4(b[i]));
        } else {
            assert(is_continuation_byte(b[i]));
        }
    }
}

proof fn lemma_first_terminator(b: Seq<u8>, m: int)
    requires
        0 <= m <= b.len(),
        forall|i: int| 0 <= i < m ==> b[i] != TERMINATOR,
        m == b.len() || b[m] == TERMINATOR,
    ensures
        first_terminator(b) == m,
    decreases m,
{
    if m > 0 {
        lemma_first_terminator(b.drop_first(), m - 1);
    }
}

/// Reading back the saved form of any list of texts gives that list.
pub proof fn lemma_frame_round_trip(parts: Seq<Seq<char>>)
    ensures
        unframe(frame(parts)) == Some(parts),
    decreases parts.len(),
{
    if parts.len() > 0 {
        let e = encode_utf8(parts[0]);
        let tail = frame(parts.drop_first());
        let b = frame(parts);
        assert(b == e + seq![TERMINATOR] + tail);
        lemma_no_terminator(e);
        assert(forall|i: int| 0 <= i < e.len() ==> b[i] == e[i]);
        lemma_first_terminator(b, e.len() as int);
        assert(b.subrange(0, e.len() as int) =~= e);
        assert(b.subrange((e.len() + 1) as int, b.len() as int) =~= tail);
        lemma_frame_round_trip(parts.drop_first());
        assert(seq![parts[0]] + parts.drop_first() =~= parts);
    }
}

/// Relies on `String::from_utf8`, which accepts exactly the valid UTF-8
/// byte sequences and keeps their bytes.
#[verifier::external_body]
fn text_from_utf8(v: Vec<u8>) -> (r: Option<String>)
    ensures
        r is Some <==> valid_utf8(v@),
        r is Some ==> encode_utf8(r->0@) == v@,
{
    String::from_utf8(v).ok()
}

/// Writes texts in their saved form.
pub fn frame_texts(parts: &Vec<String>) -> (r: Vec<u8>)
    ensures
        r@ == frame(views(parts@)),
{
    let mut out: Vec<u8> = Vec::new();
    let mut i: usize = 0;
    assert(views(parts@).subrange(0, parts@.len() as int) =~= views(parts@));
    assert(out@ + frame(views(parts@)) =~= frame(views(parts@)));
    while i < parts.len()
        invariant
            i <= parts@.len(),
            out@ + frame(views(parts@).subrange(i as int, parts@.len() as int)) == frame(views(parts@)),
        decreases parts.len() - i,
    {
        let ghost rest = views(parts@).subrange(i as int, parts@.len() as int);
        assert(rest[0] == parts@[i as int]@);
        assert(rest.drop_first() =~= views(parts@).subrange(i as int + 1, parts@.len() as int));
        let bs = parts[i].as_str().as_bytes();
        let ghost start = out@;
        let mut k: usize = 0;
        while k < bs.len()
            invariant
                k <= bs@.len(),
                out@ == start + bs@.subrange(0, k as int),
            decreases bs.len() - k,
        {
            out.push(bs[k]);
            k = k + 1;
            assert(out@ =~= start + bs@.subrange(0, k as int));
        }
        out.push(TERMINATOR);
        assert(bs@.subrange(0, bs@.len() as int) =~= bs@);
        assert(out@ + frame(rest.drop_first()) =~= start + frame(rest));
        i = i + 1;
    }
    assert(views(parts@).subrange(parts@.len() as int, parts@.len() as int) =~= Seq::<Seq<char>>::empty());
    assert(out@ + Seq::<u8>::empty() =~= out@);
    out
}

/// Reads texts back from their saved form; `None` where it is damaged.
pub fn unframe_texts(b: &Vec<u8>) -> (r: Option<Vec<String>>)
    ensures
        r is Some <==> unframe(b@) is Some,
        r is Some ==> unframe(b@) == Some(views(r->0@)),
{
    let mut out: Vec<String> = Vec::new();
    let mut pos: usize = 0;
    assert(b@.subrange(0, b@.len() as int) =~= b@);
    assert(views(out@) + Seq::<Seq<char>>::empty() =~= Seq::<Seq<char>>::empty());
    while pos < b.len()
        invariant
            pos <= b@.len(),
            unframe(b@) == prepend(views(out@), unframe(b@.subrange(pos as int, b@.len() as int))),
        decreases b.len() - pos,
    {
        let ghost rest = b@.subrange(pos as int, b@.len() as int);
        let mut piece: Vec<u8> = Vec::new();
        let mut j: usize = pos;
        while j < b.len() && b[j] != TERMINATOR
            invariant
                pos <= j <= b@.len(),
                piece@ == b@.subrange(pos as int, j as int),
                forall|i: int| pos <= i < j ==> b@[i] != TERMINATOR,
            decreases b.len() - j,
        {
            piece.push(b[j]);
            j = j + 1;
            assert(piece@ =~= b@.subrange(pos as int, j as int));
        }
        proof {
            lemma_first_terminator(rest, j - pos);
            assert(rest.subrange(0, j - pos) =~= piece@);
        }
        if j == b.len() {
            return None;
        }
        let text = match text_from_utf8(piece) {
            None => return None,
            Some(t) => t,
        };
        proof {
            assert(rest.subrange(j - pos + 1, rest.len() as int) =~= b@.subrange(j + 1, b@.len() as int));
            assert(decode_utf8(encode_utf8(text@)) == text@);
        }
        let ghost before = views(out@);
        out.push(text);
        assert(views(out@) =~= before + seq![text@]);
        proof {
            let after = unframe(b@.subrange(j + 1, b@.len() as int));
            if after is Some {
                assert(before + (seq![text@] + after->0) =~= views(out@) + after->0);
            }
        }
        pos = j + 1;
    }
    assert(views(out@) + Seq::<Seq<char>>::empty() =~= views(out@));
    Some(out)
}

/// A conversation: the system prompt it is bound to and its messages, a
/// question and its answer in turn.
pub struct ChatSession {
    system: String,
    history: Vec<String>,
}

impl ChatSession {
    pub closed spec fn system_view(&self) -> Seq<char> {
        self.system@
    }

    pub closed spec fn history_view(&self) -> Seq<Seq<char>> {
        views(self.history@)
    }

    /// The texts a saved session holds: the system prompt, then the history.
    pub open spec fn texts(&self) -> Seq<Seq<char>> {
        seq![self.system_view()] + self.history_view()
    }

    /// A new session: no history, bound to the fixed system prompt.
    pub fn fresh() -> (r: ChatSession)
        ensures
            r.system_view() == system_text(),
            r.history_view().len() == 0,
    {
        let r = ChatSession { system: system_prompt(), history: Vec::new() };
        assert(r.history_view() =~= Seq::<Seq<char>>::empty());
        r
    }

    pub fn system(&self) -> (r: &str)
        ensures
            r@ == self.system_view(),
    {
        self.system.as_str()
    }

    pub fn history(&self) -> (r: &Vec<String>)
        ensures
            views(r@) == self.history_view(),
    {
        &self.history
    }

    /// Appends one turn: the question, then the model's answer.
    pub fn record_turn(&mut self, question: String, answer: String)
        ensures
            final(self).system_view() == old(self).system_view(),
            final(self).history_view() == old(self).history_view() + seq![question@, answer@],
    {
        let ghost before = self.history_view();
        self.history.push(question);
        self.history.push(answer);
        assert(self.history_view() =~= before + seq![question@, answer@]);
    }

    /// The session's saved form.
    pub fn to_bytes(&self) -> (r: Vec<u8>)
        ensures
            r@ == frame(self.texts()),
    {
        let mut all: Vec<String> = Vec::new();
        all.push(self.system.clone());
        let mut i: usize = 0;
        while i < self.history.len()
            invariant
                i <= self.history@.len(),
                views(all@) == seq![self.system@] + views(self.history@.subrange(0, i as int)),
            decreases self.history.len() - i,
        {
            let ghost before = views(all@);
            all.push(self.history[i].clone());
            assert(views(self.history@.subrange(0, i as int + 1)) =~= views(
                self.history@.subrange(0, i as int),
            ).push(self.history@[i as int]@));
            assert(views(all@) =~= before.push(self.history@[i as int]@));
            i = i + 1;
        }
        assert(self.history@.subrange(0, self.history@.len() as int) =~= self.history@);
        frame_texts(&all)
    }

    /// The session a saved form holds; `None` where it is damaged or empty.
    pub fn from_bytes(b: &Vec<u8>) -> (r: Option<ChatSession>)
        ensures
            r is Some <==> (unframe(b@) is Some && unframe(b@)->0.len() > 0),
            r is Some ==> unframe(b@) == Some(r->0.texts()),
    {
        let mut texts = match unframe_texts(b) {
            None => return None,
            Some(t) => t,
        };
        if texts.len() == 0 {
            return None;
        }
        let ghost all = views(texts@);
        let system = texts.remove(0);
        let r = ChatSession { system, history: texts };
        assert(r.texts() =~= all);
        Some(r)
    }

    /// The session to start with: the saved one where `saved` holds one, a
    /// fresh one where nothing was saved or it cannot be read.
    pub fn restore(saved: Option<Vec<u8>>) -> (r: ChatSession)
        ensures
            saved is Some && unframe(saved->0@) is Some && unframe(saved->0@)->0.len() > 0 ==>
                unframe(saved->0@) == Some(r.texts()),
            !(saved is Some && unframe(saved->0@) is Some && unframe(saved->0@)->0.len() > 0) ==> (
            r.system_view() == system_text() && r.history_view().len() == 0),
    {
        match saved {
            None => ChatSession::fresh(),
            Some(b) => match ChatSession::from_bytes(&b) {
                Some(s) => s,
                None => ChatSession::fresh(),
            },
        }
    }
}

/// Saving a session and loading what was saved gives back its system prompt
/// and its whole history.
pub proof fn lemma_session_round_trip(s: ChatSession)
    ensures
        unframe(frame(s.texts())) == Some(s.texts()),
        unframe(frame(s.texts()))->0.len() > 0,
        unframe(frame(s.texts()))->0[0] == s.system_view(),
        unframe(frame(s.texts()))->0.drop_first() == s.history_view(),
{
    lemma_frame_round_trip(s.texts());
    assert(s.texts().drop_first() =~= s.history_view());
}

} // verus!
