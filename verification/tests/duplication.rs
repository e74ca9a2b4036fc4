use codehealth::duplication::fingerprint_normalized_body;
use codehealth::normalize::{normalize_body_source, normalize_source, token_estimate};
use codehealth::similarity::{near_shingle_size, near_statement_shingle_size};

#[test]
fn fingerprint_ignores_whitespace_changes() {
    let left = fingerprint_normalized_body("return   value");
    let right = fingerprint_normalized_body("return value");

    assert_eq!(left, right);
}

#[test]
fn normalizes_source_by_whitespace_only() {
    assert_eq!(normalize_source("a\n\n  b\tc"), "a b c");
}

#[test]
fn strips_comments_without_changing_literals() {
    let source = r##"
const url = "https://example.test/path"; // remove me
const hash = "#still-string";
/*
remove block
*/
return url + hash;
"##;

    let normalized = normalize_body_source(source);

    assert!(normalized.contains("https://example.test/path"));
    assert!(normalized.contains("#still-string"));
    assert!(!normalized.contains("remove me"));
    assert!(!normalized.contains("remove block"));
}

#[test]
fn token_estimate_counts_words_and_punctuation() {
    assert!(token_estimate("return value + 1;") >= 5);
}

#[test]
fn near_shingle_sizes_track_definition_size() {
    assert_eq!(near_shingle_size(20), 3);
    assert_eq!(near_shingle_size(120), 5);
    assert_eq!(near_shingle_size(400), 7);
    assert_eq!(near_statement_shingle_size(20), 1);
    assert_eq!(near_statement_shingle_size(120), 2);
    assert_eq!(near_statement_shingle_size(400), 3);
}

#[test]
fn normalizing_twice_changes_nothing_more() {
    let source = "  fn  a()\t{\n\n  return 1;  }\u{a0}\n";
    let once = normalize_source(source);
    assert_eq!(once, "fn a() { return 1; }");
    assert_eq!(normalize_source(&once), once);
    assert_eq!(
        once.split_whitespace().collect::<Vec<_>>(),
        source.split_whitespace().collect::<Vec<_>>()
    );
}
