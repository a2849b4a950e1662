use support_bot::dm::generate_thread_name;
use support_bot::graphemes::MessageGraphemes;
use support_bot::text::{decimal_string, is_whitespace, parse_digits};
use unicode_segmentation::UnicodeSegmentation;

#[test]
fn short_thread_name() {
    let name = generate_thread_name("alice", MessageGraphemes::new("printer on fire"));
    assert_eq!(name, "alice | printer on fire");
}

#[test]
fn empty_inputs() {
    assert_eq!(generate_thread_name("", MessageGraphemes::new("")), " | ");
}

#[test]
fn truncated_to_the_byte_limit() {
    let msg = "x".repeat(200);
    let name = generate_thread_name("bob", MessageGraphemes::new(&msg));
    assert_eq!(name.len(), 100);
    assert_eq!(name, format!("bob | {}", "x".repeat(94)));
}

#[test]
fn truncation_keeps_clusters_whole() {
    // each cluster is "e" + combining acute accent: three bytes
    let msg = "e\u{301}".repeat(40);
    let name = generate_thread_name("bob", MessageGraphemes::new(&msg));
    // 6 bytes of prefix, then 31 whole clusters (93 bytes); a 32nd would reach 102
    assert_eq!(name.len(), 99);
    assert_eq!(name, format!("bob | {}", "e\u{301}".repeat(31)));
    let full = format!("bob | {}", msg);
    assert!(full.starts_with(&name));
    assert_eq!(name.graphemes(true).count(), 37);
}

#[test]
fn long_author_name_alone() {
    let author = "\u{1F600}".repeat(30);
    let name = generate_thread_name(&author, MessageGraphemes::new("hello"));
    assert_eq!(name, "\u{1F600}".repeat(25));
}

#[test]
fn graphemes_split_combined_characters() {
    let g = MessageGraphemes::new("a\u{310}e\u{301}o\u{308}\u{332}");
    assert_eq!(g.len(), 3);
    assert_eq!(g.remaining(), vec!["a\u{310}", "e\u{301}", "o\u{308}\u{332}"]);
    let mut g = MessageGraphemes::new("a\r\nb");
    assert_eq!(g.next(), Some("a".to_string()));
    assert_eq!(g.next(), Some("\r\n".to_string()));
    assert_eq!(g.as_string(), "b");
}

#[test]
fn decimal_and_digits() {
    assert_eq!(decimal_string(0), "0");
    assert_eq!(decimal_string(1234), "1234");
    assert_eq!(decimal_string(u64::MAX), "18446744073709551615");
    assert_eq!(parse_digits(&"0042".chars().collect()), Some(42));
    assert_eq!(parse_digits(&vec![]), Some(0));
    assert_eq!(parse_digits(&"99999999999999999999".chars().collect()), None);
}

#[test]
fn whitespace_matches_std() {
    for u in 0..0x3100u32 {
        if let Some(c) = char::from_u32(u) {
            assert_eq!(is_whitespace(c), c.is_whitespace(), "{:x}", u);
        }
    }
}
