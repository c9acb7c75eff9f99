use what_rs::catalog::strip_anchors;

#[test]
fn strips_plain_anchors() {
    assert_eq!(strip_anchors("^abc$"), "abc");
}

#[test]
fn keeps_caret_inside_brackets() {
    assert_eq!(strip_anchors("[\\^a]$"), "[\\^a]");
}

#[test]
fn keeps_negation_caret() {
    assert_eq!(strip_anchors("^[^0-9]+$"), "[^0-9]+");
}

#[test]
fn keeps_escaped_anchors() {
    assert_eq!(strip_anchors("a\\^b\\$c"), "a\\^b\\$c");
}

#[test]
fn escaped_backslash_does_not_escape_anchor() {
    assert_eq!(strip_anchors("\\\\^ab\\\\$"), "\\\\ab\\\\");
}

#[test]
fn keeps_dollar_inside_brackets() {
    assert_eq!(strip_anchors("[$]^"), "[$]");
}

#[test]
fn strips_interior_anchors_too() {
    assert_eq!(strip_anchors("a^b$c"), "abc");
}
