use codex_core::ai::parse_tags;
use codex_core::document::parse_tag_list;
use codex_core::text::is_blank;
use codex_core::text::split_words;
use codex_core::text::tokenize;
use codex_core::text::trim_str;

#[test]
fn tokenize_splits_on_non_word_characters() {
    let toks = tokenize("hello, world! rust-lang don't");
    let views: Vec<&str> = toks.iter().map(|s| s.as_str()).collect();
    assert_eq!(views, vec!["hello", "world", "rust-lang", "don't"]);
}

#[test]
fn tokenize_empty_text_has_no_tokens() {
    assert!(tokenize("").is_empty());
    assert!(tokenize("!!! ???").is_empty());
}

#[test]
fn split_words_drops_single_byte_words() {
    let words = split_words("a bc d efg h");
    let views: Vec<&str> = words.iter().map(|s| s.as_str()).collect();
    assert_eq!(views, vec!["bc", "efg"]);
}

#[test]
fn split_words_requires_alphanumeric_classification() {
    // If punctuation were not recognised as a word boundary, "cd" would not
    // survive on its own.
    let words = split_words("a,b!!cd");
    let views: Vec<&str> = words.iter().map(|s| s.as_str()).collect();
    assert_eq!(views, vec!["cd"]);
}

#[test]
fn blank_detection_spans_whitespace_kinds() {
    assert!(is_blank(""));
    assert!(is_blank("   "));
    assert!(is_blank(" \t\n "));
    assert!(!is_blank(" x "));
}

#[test]
fn trim_removes_surrounding_whitespace_only() {
    assert_eq!(trim_str("  hello  "), "hello");
    assert_eq!(trim_str("hello"), "hello");
    assert_eq!(trim_str("  a b  "), "a b");
    assert_eq!(trim_str("   "), "");
}

#[test]
fn tag_list_splits_trims_and_drops_empties() {
    let tags = parse_tag_list("alpha, beta ,, gamma ,");
    let views: Vec<&str> = tags.iter().map(|s| s.as_str()).collect();
    assert_eq!(views, vec!["alpha", "beta", "gamma"]);
}

#[test]
fn parse_tags_lowercases_every_tag() {
    // Fails if the lowercase wrapper handed its argument back unchanged.
    let tags = parse_tags("Rust, SYSTEMS");
    let views: Vec<&str> = tags.iter().map(|s| s.as_str()).collect();
    assert_eq!(views, vec!["rust", "systems"]);
}

#[test]
fn parse_tags_caps_at_five_and_drops_overlong() {
    let overlong = "x".repeat(31);
    let input = format!("one, two, {}, three, four, five, six", overlong);
    let tags = parse_tags(&input);
    let views: Vec<&str> = tags.iter().map(|s| s.as_str()).collect();
    assert_eq!(views, vec!["one", "two", "three", "four", "five"]);
}

#[test]
fn parse_tags_keeps_a_thirty_byte_tag() {
    let exactly = "y".repeat(30);
    let input = format!("{}", exactly);
    let tags = parse_tags(&input);
    assert_eq!(tags.len(), 1);
    assert_eq!(tags[0].as_str(), exactly.as_str());
}
