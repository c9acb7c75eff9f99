use what_rs::extract::{byte_is_graphic, join_with_newlines, to_human_readable_vec};

#[test]
fn graphic_byte_boundaries() {
    assert!(byte_is_graphic(b'!'));
    assert!(byte_is_graphic(b'~'));
    assert!(byte_is_graphic(b'a'));
    assert!(!byte_is_graphic(b' '));
    assert!(!byte_is_graphic(b'\n'));
    assert!(!byte_is_graphic(0x00));
    assert!(!byte_is_graphic(0x7f));
}

#[test]
fn long_interior_run_is_kept() {
    let spans = to_human_readable_vec(b"\x01abcd\x02".to_vec());
    assert_eq!(spans, vec!["abcd".to_string(), "".to_string()]);
}

#[test]
fn short_interior_run_is_dropped() {
    let spans = to_human_readable_vec(b"\x01ab\x02".to_vec());
    assert_eq!(spans, vec!["".to_string()]);
}

#[test]
fn trailing_run_is_always_flushed() {
    let spans = to_human_readable_vec(b"\x01ab".to_vec());
    assert_eq!(spans, vec!["ab".to_string()]);
}

#[test]
fn runs_split_on_whitespace() {
    let spans = to_human_readable_vec(b"alpha beta\ngamma!".to_vec());
    assert_eq!(
        spans,
        vec!["alpha".to_string(), "beta".to_string(), "gamma!".to_string()]
    );
}

#[test]
fn empty_buffer_gives_one_empty_span() {
    let spans = to_human_readable_vec(Vec::new());
    assert_eq!(spans, vec!["".to_string()]);
}

#[test]
fn join_inserts_newlines() {
    let spans = vec!["abcd".to_string(), "efgh".to_string()];
    assert_eq!(join_with_newlines(&spans), "abcd\nefgh");
    let one = vec!["abcd".to_string()];
    assert_eq!(join_with_newlines(&one), "abcd");
    let none: Vec<String> = Vec::new();
    assert_eq!(join_with_newlines(&none), "");
}
