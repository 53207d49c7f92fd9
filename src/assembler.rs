use vstd::prelude::*;
use vstd::string::*;

verus! {

/// One chunk that the document index returned for a question, with its
/// relevance score in thousandths. A higher score means a more relevant chunk.
pub struct RetrievedMatch {
    pub score_milli: i64,
    pub text: String,
}

/// What `str::trim` returns: the text without leading and trailing whitespace.
pub uninterp spec fn trim_of(s: Seq<char>) -> Seq<char>;

/// Relies on `str::trim`, which strips leading and trailing whitespace and
/// returns a slice of its argument.
#[verifier::external_body]
fn trimmed(s: &str) -> (r: String)
    ensures
        r@ == trim_of(s@),
{
    s.trim().to_string()
}

pub open spec fn blank_line() -> Seq<char> {
    seq!['\n', '\n']
}

/// The text that opens every prompt, before the context block.
pub open spec fn context_header() -> Seq<char> {
    seq!['W', 'i', 't', 'h', ' ', 't', 'h', 'i', 's', ' ', 'c', 'o', 'n', 't', 'e', 'x', 't', ' ',
        'i', 'n', ' ', 'm', 'i', 'n', 'd', ':', ' ', '\n', ' ']
}

/// The fixed separator between the context block and the question.
pub open spec fn question_header() -> Seq<char> {
    seq!['\n', '\n', 'A', 'n', 's', 'w', 'e', 'r', ' ', 't', 'h', 'i', 's', ' ', 'q', 'u', 'e',
        's', 't', 'i', 'o', 'n', ':', ' ', '\n']
}

/// Whether a match crosses the relevance threshold: its score is strictly above it.
pub open spec fn is_relevant(score_milli: i64, threshold_milli: i64) -> bool {
    score_milli > threshold_milli
}

/// The trimmed texts of the relevant matches among the first `n`, in their order.
pub open spec fn kept_texts(m: Seq<(i64, Seq<char>)>, threshold_milli: i64) -> Seq<Seq<char>>
    decreases m.len(),
{
    if m.len() == 0 {
        Seq::empty()
    } else {
        let prev = kept_texts(m.drop_last(), threshold_milli);
        if is_relevant(m.last().0, threshold_milli) {
            prev.push(trim_of(m.last().1))
        } else {
            prev
        }
    }
}

/// The parts joined with a blank line between each two of them.
pub open spec fn join_blank(parts: Seq<Seq<char>>) -> Seq<char>
    decreases parts.len(),
{
    if parts.len() == 0 {
        Seq::empty()
    } else if parts.len() == 1 {
        parts[0]
    } else {
        join_blank(parts.drop_last()) + blank_line() + parts.last()
    }
}

pub open spec fn match_views(matches: Seq<RetrievedMatch>) -> Seq<(i64, Seq<char>)> {
    matches.map_values(|m: RetrievedMatch| (m.score_milli, m.text@))
}

/// The context block: the relevant chunks' texts, best first, a blank line apart.
pub open spec fn context_block(matches: Seq<RetrievedMatch>, threshold_milli: i64) -> Seq<char> {
    join_blank(kept_texts(match_views(matches), threshold_milli))
}

/// The prompt: header, context block, separator, and the question as given.
pub open spec fn prompt_of(context: Seq<char>, question: Seq<char>) -> Seq<char> {
    context_header() + context + question_header() + question
}

/// Builds the context block from matches ordered best first.
pub fn context_of(matches: &Vec<RetrievedMatch>, threshold_milli: i64) -> (r: String)
    ensures
        r@ == context_block(matches@, threshold_milli),
{
    let mut out = String::new();
    let mut count: usize = 0;
    let mut i: usize = 0;
    proof {
        reveal_strlit("\n\n");
    }
    while i < matches.len()
        invariant
            i <= matches@.len(),
            count <= i,
            count == kept_texts(match_views(matches@.subrange(0, i as int)), threshold_milli).len(),
            out@ == join_blank(kept_texts(match_views(matches@.subrange(0, i as int)), threshold_milli)),
            "\n\n"@ == blank_line(),
        decreases matches.len() - i,
    {
        let ghost before = match_views(matches@.subrange(0, i as int));
        let ghost after = match_views(matches@.subrange(0, i as int + 1));
        assert(after.drop_last() =~= before);
        assert(after.last() == (matches@[i as int].score_milli, matches@[i as int].text@));
        let m = &matches[i];
        if m.score_milli > threshold_milli {
            let t = trimmed(m.text.as_str());
            if count > 0 {
                out.append("\n\n");
            }
            out.append(t.as_str());
            proof {
                let kb = kept_texts(before, threshold_milli);
                assert(kept_texts(after, threshold_milli) == kb.push(t@));
                assert(kb.push(t@).drop_last() =~= kb);
                if count == 0 {
                    assert(out@ =~= join_blank(kb.push(t@)));
                }
            }
            count = count + 1;
        } else {
            assert(kept_texts(after, threshold_milli) == kept_texts(before, threshold_milli));
        }
        i = i + 1;
    }
    assert(matches@.subrange(0, matches@.len() as int) =~= matches@);
    out
}

/// Renders the augmented prompt for a question from the matches the index
/// returned for it, best first, keeping those scored above the threshold.
pub fn assemble(question: &str, matches: &Vec<RetrievedMatch>, threshold_milli: i64) -> (r: String)
    ensures
        r@ == prompt_of(context_block(matches@, threshold_milli), question@),
{
    let context = context_of(matches, threshold_milli);
    let mut out = String::from_str("With this context in mind: \n ");
    proof {
        reveal_strlit("With this context in mind: \n ");
        reveal_strlit("\n\nAnswer this question: \n");
    }
    out.append(context.as_str());
    out.append("\n\nAnswer this question: \n");
    out.append(question);
    assert(out@ =~= prompt_of(context@, question@));
    out
}

/// With no matches at all (an empty index) the context block is empty and the
/// prompt ends with exactly the question.
pub proof fn lemma_empty_index_prompt(question: Seq<char>, threshold_milli: i64)
    ensures
        context_block(Seq::<RetrievedMatch>::empty(), threshold_milli) == Seq::<char>::empty(),
        prompt_of(context_block(Seq::<RetrievedMatch>::empty(), threshold_milli), question)
            == context_header() + question_header() + question,
        ({
            let p = prompt_of(context_block(Seq::<RetrievedMatch>::empty(), threshold_milli), question);
            p.subrange(p.len() - question.len(), p.len() as int) == question
        }),
{
    let e = Seq::<RetrievedMatch>::empty();
    assert(match_views(e) =~= Seq::<(i64, Seq<char>)>::empty());
    let p = prompt_of(context_block(e, threshold_milli), question);
    assert(p =~= context_header() + question_header() + question);
    assert(p.subrange(p.len() - question.len(), p.len() as int) =~= question);
}

} // verus!
