use kaloston::assembler::RetrievedMatch;
use kaloston::document::{bootstrap_sources, rank_matches, ByteSpan, Document, DocumentStore, IngestError};

fn span(start: usize, end: usize) -> ByteSpan {
    ByteSpan { start, end }
}

fn total_chunks(store: &DocumentStore) -> usize {
    (0..store.len()).map(|i| store.document(i).chunk_count()).sum()
}

#[test]
fn document_keeps_its_chunks() {
    let d = Document::new(
        "https://example.org/moloch".to_string(),
        Some("Moloch. Competition. Coordination.".to_string()),
        vec![span(0, 7), span(8, 20), span(21, 34)],
    )
    .unwrap();
    assert_eq!(d.chunk_count(), 3);
    assert_eq!(d.chunk_text(0), "Moloch.");
    assert_eq!(d.chunk_text(1), "Competition.");
    assert_eq!(d.chunk_text(2), "Coordination.");
    assert_eq!(d.url(), "https://example.org/moloch");
    for i in 0..d.chunk_count() {
        let s = d.chunk(i);
        assert!(s.start < d.body().len() && s.end <= d.body().len());
    }
}

#[test]
fn unreachable_source_is_refused() {
    let r = Document::new("x".to_string(), None, vec![]);
    assert_eq!(r.err(), Some(IngestError::Unreachable));
}

#[test]
fn chunk_past_body_is_refused() {
    let r = Document::new("x".to_string(), Some("short".to_string()), vec![span(2, 6)]);
    assert_eq!(r.err(), Some(IngestError::ChunkOutOfBounds));
    let r = Document::new("x".to_string(), Some("short".to_string()), vec![span(5, 5)]);
    assert_eq!(r.err(), Some(IngestError::ChunkOutOfBounds));
    let r = Document::new("x".to_string(), Some("short".to_string()), vec![span(3, 2)]);
    assert_eq!(r.err(), Some(IngestError::ChunkOutOfBounds));
}

#[test]
fn chunk_inside_a_character_is_refused() {
    let r = Document::new("x".to_string(), Some("été".to_string()), vec![span(1, 3)]);
    assert_eq!(r.err(), Some(IngestError::ChunkOutOfBounds));
    let d = Document::new("x".to_string(), Some("été".to_string()), vec![span(2, 5)]).unwrap();
    assert_eq!(d.chunk_text(0), "té");
}

#[test]
fn empty_body_fails_and_store_is_unchanged() {
    let mut store = DocumentStore::new();
    store
        .ingest("a".to_string(), Some("some text".to_string()), vec![span(0, 4), span(5, 9)])
        .unwrap();
    let before = total_chunks(&store);
    let r = store.ingest("b".to_string(), Some(String::new()), vec![]);
    assert_eq!(r, Err(IngestError::EmptyBody));
    assert_eq!(store.len(), 1);
    assert_eq!(total_chunks(&store), before);
}

#[test]
fn ingest_adds_one_document() {
    let mut store = DocumentStore::new();
    assert_eq!(store.ingest("a".to_string(), Some("abc".to_string()), vec![span(0, 3)]), Ok(()));
    assert_eq!(store.ingest("b".to_string(), Some("de".to_string()), vec![span(0, 2)]), Ok(()));
    assert_eq!(store.len(), 2);
    assert_eq!(store.document(1).url(), "b");
    assert_eq!(total_chunks(&store), 2);
}

#[test]
fn ranking_returns_k_best_first() {
    let chunks = vec![
        RetrievedMatch { score_milli: 97000, text: "Moloch one".to_string() },
        RetrievedMatch { score_milli: 99500, text: "Moloch two".to_string() },
        RetrievedMatch { score_milli: 98700, text: "Moloch three".to_string() },
    ];
    let r = rank_matches(chunks, 2);
    assert_eq!(r.len(), 2);
    assert_eq!(r[0].text, "Moloch two");
    assert_eq!(r[1].text, "Moloch three");
    assert!(r[0].score_milli >= r[1].score_milli);
}

#[test]
fn ranking_keeps_earlier_of_equal_scores_first() {
    let chunks = vec![
        RetrievedMatch { score_milli: 5, text: "a".to_string() },
        RetrievedMatch { score_milli: 5, text: "b".to_string() },
    ];
    let r = rank_matches(chunks, 5);
    assert_eq!(r.len(), 2);
    assert_eq!(r[0].text, "a");
    assert_eq!(r[1].text, "b");
    assert!(rank_matches(Vec::new(), 3).is_empty());
}

#[test]
fn bootstrap_only_for_new_index() {
    assert_eq!(
        bootstrap_sources(false),
        vec!["https://slatestarcodex.com/2014/07/30/meditations-on-moloch/".to_string()]
    );
    assert!(bootstrap_sources(true).is_empty());
}
