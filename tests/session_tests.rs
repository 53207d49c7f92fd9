use kaloston::conversation::system_prompt;
use kaloston::session::{frame_texts, unframe_texts, ChatSession};

#[test]
fn saved_session_loads_back() {
    let mut s = ChatSession::fresh();
    s.record_turn("who benefits from competition?".to_string(), "Who do you think?".to_string());
    s.record_turn("naïve question — ok?".to_string(), String::new());
    let bytes = s.to_bytes();
    let back = ChatSession::from_bytes(&bytes).unwrap();
    assert_eq!(back.system(), s.system());
    assert_eq!(back.history(), s.history());
    assert_eq!(back.history().len(), 4);
}

#[test]
fn missing_save_gives_fresh_session() {
    let s = ChatSession::restore(None);
    assert_eq!(s.system(), system_prompt());
    assert!(s.history().is_empty());
}

#[test]
fn damaged_save_gives_fresh_session() {
    let s = ChatSession::restore(Some(vec![0xc3, 0x28, 0xff]));
    assert_eq!(s.system(), system_prompt());
    assert!(s.history().is_empty());
    assert!(ChatSession::from_bytes(&vec![b'a', b'b']).is_none());
    assert!(ChatSession::from_bytes(&Vec::new()).is_none());
}

#[test]
fn restore_reads_a_good_save() {
    let mut s = ChatSession::fresh();
    s.record_turn("q".to_string(), "a".to_string());
    let r = ChatSession::restore(Some(s.to_bytes()));
    assert_eq!(r.history(), &vec!["q".to_string(), "a".to_string()]);
}

#[test]
fn frame_layout_is_bytes_then_terminator() {
    let parts = vec!["ab".to_string(), String::new(), "é".to_string()];
    let b = frame_texts(&parts);
    assert_eq!(b, vec![b'a', b'b', 0xff, 0xff, 0xc3, 0xa9, 0xff]);
    assert_eq!(unframe_texts(&b), Some(parts));
    assert_eq!(unframe_texts(&vec![b'x']), None);
    assert_eq!(unframe_texts(&vec![0x80, 0xff]), None);
}
