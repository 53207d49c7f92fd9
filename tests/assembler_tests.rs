use kaloston::assembler::{assemble, context_of, RetrievedMatch};

fn m(score_milli: i64, text: &str) -> RetrievedMatch {
    RetrievedMatch { score_milli, text: text.to_string() }
}

#[test]
fn empty_index_gives_bare_question() {
    let q = "who benefits from competition?";
    let p = assemble(q, &Vec::new(), 98000);
    assert_eq!(
        p,
        "With this context in mind: \n \n\nAnswer this question: \nwho benefits from competition?"
    );
    assert!(p.ends_with(q));
}

#[test]
fn only_matches_above_threshold_are_kept() {
    let ms = vec![m(99500, "  first chunk \n"), m(98000, "at threshold"), m(99000, "third")];
    assert_eq!(context_of(&ms, 98000), "first chunk\n\nthird");
}

#[test]
fn chunk_text_is_trimmed() {
    let ms = vec![m(100000, "\t padded text  ")];
    assert_eq!(context_of(&ms, 0), "padded text");
}

#[test]
fn prompt_holds_context_then_question() {
    let ms = vec![m(120000, "alpha"), m(110000, "beta"), m(1000, "gamma")];
    let p = assemble("why?", &ms, 98000);
    assert_eq!(p, "With this context in mind: \n alpha\n\nbeta\n\nAnswer this question: \nwhy?");
}

#[test]
fn nothing_relevant_leaves_context_empty() {
    let ms = vec![m(10, "low"), m(20, "lower")];
    assert_eq!(context_of(&ms, 98000), "");
}
