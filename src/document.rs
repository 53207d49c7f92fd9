use vstd::prelude::*;
use vstd::string::*;
use vstd::utf8::*;

use crate::assembler::RetrievedMatch;

verus! {

broadcast use group_utf8_lib;

/// A chunk's place in its document's body: bytes `start` up to, not
/// including, `end`.
#[derive(Clone, Copy, Debug, PartialEq, Eq)]
pub struct ByteSpan {
    pub start: usize,
    pub end: usize,
}

/// Why a source could not be ingested.
#[derive(Clone, Copy, Debug, PartialEq, Eq)]
pub enum IngestError {
    /// The source could not be fetched.
    Unreachable,
    /// The source's extracted text is empty.
    EmptyBody,
    /// A chunk does not lie on character boundaries inside the body.
    ChunkOutOfBounds,
}

/// The UTF-8 bytes of a text.
pub open spec fn bytes_of(s: Seq<char>) -> Seq<u8> {
    encode_utf8(s)
}

/// A span lies within the body, `start` before its end and `end` not past
/// it, and both fall on character boundaries.
pub open spec fn span_fits(body: Seq<char>, s: ByteSpan) -> bool {
    &&& s.start <= s.end
    &&& s.start < bytes_of(body).len()
    &&& s.end <= bytes_of(body).len()
    &&& is_char_boundary(bytes_of(body), s.start as int)
    &&& is_char_boundary(bytes_of(body), s.end as int)
}

pub open spec fn spans_fit(body: Seq<char>, spans: Seq<ByteSpan>) -> bool {
    forall|i: int| 0 <= i < spans.len() ==> span_fits(body, #[trigger] spans[i])
}

/// An ingested source: its address, its text and the chunks it was split
/// into. It does not change once built.
pub struct Document {
    url: String,
    body: String,
    chunks: Vec<ByteSpan>,
}

impl Document {
    pub closed spec fn url_view(&self) -> Seq<char> {
        self.url@
    }

    pub closed spec fn body_view(&self) -> Seq<char> {
        self.body@
    }

    pub closed spec fn chunks_view(&self) -> Seq<ByteSpan> {
        self.chunks@
    }

    pub open spec fn wf(&self) -> bool {
        &&& self.body_view().len() > 0
        &&& spans_fit(self.body_view(), self.chunks_view())
    }

    /// Checks what was fetched from `url` (`None` where the fetch failed) and
    /// the chunks proposed for it, and builds the document.
    pub fn new(url: String, fetched: Option<String>, chunks: Vec<ByteSpan>) -> (r: Result<
        Document,
        IngestError,
    >)
        ensures
            fetched is None ==> r == Err::<Document, IngestError>(IngestError::Unreachable),
            fetched is Some && fetched->0@.len() == 0 ==> r == Err::<Document, IngestError>(
                IngestError::EmptyBody,
            ),
            fetched is Some && fetched->0@.len() > 0 && !spans_fit(fetched->0@, chunks@) ==> r
                == Err::<Document, IngestError>(IngestError::ChunkOutOfBounds),
            fetched is Some && fetched->0@.len() > 0 && spans_fit(fetched->0@, chunks@) ==> r is Ok,
            r is Ok ==> ({
                let d = r->Ok_0;
                &&& d.wf()
                &&& d.url_view() == url@
                &&& d.body_view() == fetched->0@
                &&& d.chunks_view() == chunks@
            }),
    {
        let body = match fetched {
            None => return Err(IngestError::Unreachable),
            Some(b) => b,
        };
        if body.as_str().is_empty() {
            return Err(IngestError::EmptyBody);
        }
        let len = body.as_str().as_bytes().len();
        let mut i: usize = 0;
        while i < chunks.len()
            invariant
                i <= chunks@.len(),
                len == bytes_of(body@).len(),
                fetched is Some && fetched->0@ == body@ && body@.len() > 0,
                forall|j: int| 0 <= j < i ==> span_fits(body@, #[trigger] chunks@[j]),
            decreases chunks.len() - i,
        {
            let s = chunks[i];
            if !(s.start <= s.end && s.start < len && s.end <= len && body.as_str().is_char_boundary(
                s.start,
            ) && body.as_str().is_char_boundary(s.end)) {
                return Err(IngestError::ChunkOutOfBounds);
            }
            i = i + 1;
        }
        Ok(Document { url, body, chunks })
    }

    pub fn url(&self) -> (r: &str)
        ensures
            r@ == self.url_view(),
    {
        self.url.as_str()
    }

    pub fn body(&self) -> (r: &str)
        ensures
            r@ == self.body_view(),
    {
        self.body.as_str()
    }

    pub fn chunk_count(&self) -> (r: usize)
        ensures
            r == self.chunks_view().len(),
    {
        self.chunks.len()
    }

    pub fn chunk(&self, i: usize) -> (r: ByteSpan)
        requires
            i < self.chunks_view().len(),
        ensures
            r == self.chunks_view()[i as int],
    {
        self.chunks[i]
    }

    /// The text of chunk `i`: the body's bytes of its span.
    pub fn chunk_text(&self, i: usize) -> (r: String)
        requires
            self.wf(),
            i < self.chunks_view().len(),
        ensures
            bytes_of(r@) == bytes_of(self.body_view()).subrange(
                self.chunks_view()[i as int].start as int,
                self.chunks_view()[i as int].end as int,
            ),
    {
        let s = self.chunks[i];
        assert(span_fits(self.body@, s));
        let b = self.body.as_str();
        let ghost all = bytes_of(b@);
        let (_, tail) = b.split_at(s.start);
        let ghost t = tail.spec_bytes();
        assert(t =~= all.subrange(s.start as int, all.len() as int));
        let k = s.end - s.start;
        proof {
            assert(is_char_boundary(all, s.end as int));
            if k < t.len() {
                assert(t[k as int] == all[s.end as int]);
                assert(is_continuation_byte(t[k as int]) == is_continuation_byte(all[s.end as int]));
                assert(is_char_boundary(t, k as int));
            } else {
                assert(is_char_boundary(t, t.len() as int));
            }
        }
        let (piece, _) = tail.split_at(k);
        assert(piece.spec_bytes() =~= all.subrange(s.start as int, s.end as int));
        piece.to_owned()
    }
}

/// Chunks held by a sequence of documents, all told.
pub open spec fn total_chunks(docs: Seq<Document>) -> nat
    decreases docs.len(),
{
    if docs.len() == 0 {
        0
    } else {
        total_chunks(docs.drop_last()) + docs.last().chunks_view().len()
    }
}

/// The documents ingested so far. Ingestion only ever adds to it.
pub struct DocumentStore {
    documents: Vec<Document>,
}

impl DocumentStore {
    pub closed spec fn documents_view(&self) -> Seq<Document> {
        self.documents@
    }

    pub open spec fn wf(&self) -> bool {
        forall|i: int| 0 <= i < self.documents_view().len() ==> (#[trigger] self.documents_view()[i]).wf()
    }

    pub fn new() -> (r: DocumentStore)
        ensures
            r.wf(),
            r.documents_view().len() == 0,
    {
        DocumentStore { documents: Vec::new() }
    }

    pub fn len(&self) -> (r: usize)
        ensures
            r == self.documents_view().len(),
    {
        self.documents.len()
    }

    pub fn document(&self, i: usize) -> (r: &Document)
        requires
            i < self.documents_view().len(),
        ensures
            *r == self.documents_view()[i as int],
    {
        &self.documents[i]
    }

    /// Adds the source at `url`, given what was fetched from it (`None` where
    /// the fetch failed) and its chunks. On an error the store is unchanged.
    pub fn ingest(&mut self, url: String, fetched: Option<String>, chunks: Vec<ByteSpan>) -> (r:
        Result<(), IngestError>)
        requires
            old(self).wf(),
        ensures
            final(self).wf(),
            fetched is None ==> r == Err::<(), IngestError>(IngestError::Unreachable),
            fetched is Some && fetched->0@.len() == 0 ==> r == Err::<(), IngestError>(
                IngestError::EmptyBody,
            ),
            fetched is Some && fetched->0@.len() > 0 && !spans_fit(fetched->0@, chunks@) ==> r
                == Err::<(), IngestError>(IngestError::ChunkOutOfBounds),
            fetched is Some && fetched->0@.len() > 0 && spans_fit(fetched->0@, chunks@) ==> r is Ok,
            r is Err ==> final(self).documents_view() == old(self).documents_view(),
            r is Err ==> total_chunks(final(self).documents_view()) == total_chunks(
                old(self).documents_view(),
            ),
            r is Ok ==> ({
                let docs = final(self).documents_view();
                &&& docs.len() == old(self).documents_view().len() + 1
                &&& docs.drop_last() == old(self).documents_view()
                &&& docs.last().url_view() == url@
                &&& docs.last().body_view() == fetched->0@
                &&& docs.last().chunks_view() == chunks@
                &&& total_chunks(docs) == total_chunks(old(self).documents_view()) + chunks@.len()
            }),
    {
        match Document::new(url, fetched, chunks) {
            Ok(d) => {
                let ghost before = self.documents@;
                self.documents.push(d);
                assert(self.documents@.drop_last() =~= before);
                assert forall|i: int| 0 <= i < self.documents@.len() implies (
                #[trigger] self.documents@[i]).wf() by {
                    if i < before.len() {
                        assert(self.documents@[i] == before[i]);
                        assert(old(self).documents_view()[i] == before[i]);
                    }
                }
                Ok(())
            },
            Err(e) => Err(e),
        }
    }
}

/// Every chunk of every document in the store lies within its document's
/// body: it starts inside the body and does not end past it.
pub proof fn lemma_chunks_within_body(store: DocumentStore, i: int, j: int)
    requires
        store.wf(),
        0 <= i < store.documents_view().len(),
        0 <= j < store.documents_view()[i].chunks_view().len(),
    ensures
        ({
            let d = store.documents_view()[i];
            let c = d.chunks_view()[j];
            &&& 0 <= c.start < bytes_of(d.body_view()).len()
            &&& c.start <= c.end <= bytes_of(d.body_view()).len()
        }),
{
    let d = store.documents_view()[i];
    assert(d.wf());
    assert(span_fits(d.body_view(), d.chunks_view()[j]));
}

/// The sources a new index starts from.
pub open spec fn bootstrap_list() -> Seq<Seq<char>> {
    seq!["https://slatestarcodex.com/2014/07/30/meditations-on-moloch/"@]
}

/// The sources to ingest at start: the bootstrap list for a new index, none
/// for one that already exists, since ingestion only adds.
pub fn bootstrap_sources(index_exists: bool) -> (r: Vec<String>)
    ensures
        r@.len() == (if index_exists { 0nat } else { bootstrap_list().len() }),
        forall|i: int| 0 <= i < r@.len() ==> #[trigger] r@[i]@ == bootstrap_list()[i],
{
    let mut v: Vec<String> = Vec::new();
    if !index_exists {
        v.push(String::from_str("https://slatestarcodex.com/2014/07/30/meditations-on-moloch/"));
    }
    v
}

/// The first position of a highest score.
pub open spec fn best_index(s: Seq<RetrievedMatch>) -> int
    recommends
        s.len() > 0,
    decreases s.len(),
{
    if s.len() <= 1 {
        0
    } else {
        let j = best_index(s.drop_last());
        if s.last().score_milli > s[j].score_milli {
            s.len() - 1
        } else {
            j
        }
    }
}

/// The `k` best matches, best first; of equal scores the earlier comes first.
pub open spec fn top_k(s: Seq<RetrievedMatch>, k: nat) -> Seq<RetrievedMatch>
    decreases k,
{
    if k == 0 || s.len() == 0 {
        Seq::empty()
    } else {
        let i = best_index(s);
        seq![s[i]] + top_k(s.remove(i), (k - 1) as nat)
    }
}

proof fn lemma_best_index(s: Seq<RetrievedMatch>)
    requires
        s.len() > 0,
    ensures
        0 <= best_index(s) < s.len(),
        forall|j: int| 0 <= j < s.len() ==> #[trigger] s[j].score_milli <= s[best_index(s)].score_milli,
    decreases s.len(),
{
    if s.len() > 1 {
        let p = s.drop_last();
        lemma_best_index(p);
        assert(forall|j: int| 0 <= j < p.len() ==> p[j] == s[j]);
    }
}

/// A ranking holds `min(k, n)` matches taken from the candidates, each scored
/// at least as high as the next, none above the best candidate.
pub proof fn lemma_top_k(s: Seq<RetrievedMatch>, k: nat)
    ensures
        top_k(s, k).len() == if k < s.len() { k } else { s.len() },
        forall|i: int, j: int|
            0 <= i < j < top_k(s, k).len() ==> (#[trigger] top_k(s, k)[i]).score_milli >= (
            #[trigger] top_k(s, k)[j]).score_milli,
        forall|i: int| 0 <= i < top_k(s, k).len() ==> #[trigger] s.contains(top_k(s, k)[i]),
    decreases k,
{
    if k > 0 && s.len() > 0 {
        let b = best_index(s);
        lemma_best_index(s);
        let rest = s.remove(b);
        lemma_top_k(rest, (k - 1) as nat);
        let t = top_k(s, k);
        let tr = top_k(rest, (k - 1) as nat);
        assert(t == seq![s[b]] + tr);
        assert forall|i: int| 0 <= i < tr.len() implies #[trigger] s.contains(tr[i]) by {
            assert(rest.contains(tr[i]));
            let m = choose|m: int| 0 <= m < rest.len() && rest[m] == tr[i];
            if m < b {
                assert(s[m] == tr[i]);
            } else {
                assert(s[m + 1] == tr[i]);
            }
        }
        assert forall|i: int| 0 <= i < t.len() implies #[trigger] s.contains(t[i]) by {
            if i == 0 {
                assert(s[b] == t[0]);
            } else {
                assert(t[i] == tr[i - 1]);
            }
        }
        assert forall|i: int, j: int| 0 <= i < j < t.len() implies (#[trigger] t[i]).score_milli >= (
        #[trigger] t[j]).score_milli by {
            assert(t[j] == tr[j - 1]);
            assert(s.contains(tr[j - 1]));
            if i > 0 {
                assert(t[i] == tr[i - 1]);
            }
        }
    }
}

/// Orders the candidates best first and keeps the `k` best.
pub fn rank_matches(candidates: Vec<RetrievedMatch>, k: usize) -> (r: Vec<RetrievedMatch>)
    ensures
        r@ == top_k(candidates@, k as nat),
{
    let mut rest = candidates;
    let mut out: Vec<RetrievedMatch> = Vec::new();
    let mut left: usize = k;
    assert(out@ + top_k(rest@, left as nat) =~= top_k(candidates@, k as nat));
    while left > 0 && rest.len() > 0
        invariant
            out@ + top_k(rest@, left as nat) == top_k(candidates@, k as nat),
        decreases left,
    {
        let mut best: usize = 0;
        let mut i: usize = 1;
        while i < rest.len()
            invariant
                1 <= i <= rest@.len(),
                best == best_index(rest@.subrange(0, i as int)),
                best < i,
            decreases rest.len() - i,
        {
            assert(rest@.subrange(0, i as int + 1).drop_last() =~= rest@.subrange(0, i as int));
            if rest[i].score_milli > rest[best].score_milli {
                best = i;
            }
            i = i + 1;
        }
        assert(rest@.subrange(0, rest@.len() as int) =~= rest@);
        let ghost before = rest@;
        let m = rest.remove(best);
        assert(top_k(before, left as nat) == seq![m] + top_k(rest@, (left - 1) as nat));
        let ghost old_out = out@;
        out.push(m);
        assert(out@ + top_k(rest@, (left - 1) as nat) =~= old_out + (seq![m] + top_k(rest@, (left - 1) as nat)));
        left = left - 1;
    }
    assert(out@ + top_k(rest@, left as nat) =~= out@);
    out
}

} // verus!
