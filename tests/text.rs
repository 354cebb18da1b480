use asm8::text::{parse_hex_byte, same_text, split_words};

#[test]
fn words_split_on_any_unicode_space() {
    let words = split_words("  loadlo\t5 \u{3000}push\u{2003}");
    assert_eq!(words, vec!["loadlo", "5", "push"]);
}

#[test]
fn words_of_blank_line_are_none() {
    assert!(split_words("").is_empty());
    assert!(split_words(" \t ").is_empty());
}

#[test]
fn non_breaking_space_separates_words() {
    assert_eq!(split_words("a\u{a0}b\u{85}c"), vec!["a", "b", "c"]);
}

#[test]
fn hex_bytes_in_either_case() {
    assert_eq!(parse_hex_byte("ff"), Some(255));
    assert_eq!(parse_hex_byte("FF"), Some(255));
    assert_eq!(parse_hex_byte("0"), Some(0));
    assert_eq!(parse_hex_byte("0a"), Some(10));
    assert_eq!(parse_hex_byte("+a"), Some(10));
    assert_eq!(parse_hex_byte("000000ff"), Some(255));
}

#[test]
fn hex_bytes_rejected() {
    assert_eq!(parse_hex_byte(""), None);
    assert_eq!(parse_hex_byte("+"), None);
    assert_eq!(parse_hex_byte("100"), None);
    assert_eq!(parse_hex_byte("-1"), None);
    assert_eq!(parse_hex_byte("0x1"), None);
    assert_eq!(parse_hex_byte("g"), None);
    assert_eq!(parse_hex_byte("++1"), None);
}

#[test]
fn same_text_compares_characters() {
    assert!(same_text("halt", "halt"));
    assert!(!same_text("halt", "Halt"));
    assert!(!same_text("halt", "hal"));
    assert!(same_text("", ""));
}
