use bakery::text::{cut_first, holds_piece, join_text, remove_all, same_text, split_text, trim_text};

#[test]
fn split_keeps_empty_pieces() {
    assert_eq!(split_text("a::b", ':'), vec!["a", "", "b"]);
    assert_eq!(split_text("", ':'), vec![""]);
    assert_eq!(split_text(":", ':'), vec!["", ""]);
}

#[test]
fn join_then_split_gives_back_the_text() {
    let s = "b:1:user::x:y";
    let parts = split_text(s, ':');
    assert_eq!(join_text(&parts, ":"), s);
}

#[test]
fn trim_removes_unicode_white_space() {
    assert_eq!(trim_text("  a b \r\n"), "a b");
    assert_eq!(trim_text("\u{3000}x\u{a0}"), "x");
    assert_eq!(trim_text(" \t "), "");
}

#[test]
fn cut_at_first_space() {
    assert_eq!(cut_first("room hello there", ' '), ("room".to_string(), "hello there".to_string()));
    assert_eq!(cut_first("room", ' '), ("room".to_string(), "".to_string()));
    assert_eq!(cut_first(" x", ' '), ("".to_string(), "x".to_string()));
}

#[test]
fn pieces_and_removal() {
    assert!(holds_piece("hi herenti!", "herenti"));
    assert!(!holds_piece("hi heren", "herenti"));
    assert!(holds_piece("abc", ""));
    assert_eq!(remove_all("$$say$", '$'), "say");
    assert!(same_text("abc", "abc"));
    assert!(!same_text("abc", "abd"));
}
