use dts_graph::lexer::contains_substring;
use dts_graph::lexer::unquote;
use dts_graph::settings::default_file_for;
use dts_graph::watch::content_changed;

#[test]
fn unquote_splits_matched_text_and_remainder() {
    let (matched, rest) = unquote("\"hello world\" and the rest").unwrap();
    assert_eq!(matched, "hello world");
    assert_eq!(rest, " and the rest");
}

#[test]
fn unquote_of_empty_quotes_is_empty() {
    let (matched, rest) = unquote("\"\"").unwrap();
    assert_eq!(matched, "");
    assert_eq!(rest, "");
}

#[test]
fn unquote_requires_a_leading_quote() {
    assert!(unquote("no quote here").is_none());
}

#[test]
fn unquote_requires_a_closing_quote() {
    assert!(unquote("\"left open").is_none());
}

#[test]
fn contains_substring_finds_the_build_target() {
    let output = "wasm32-unknown-emscripten\nwasm32-unknown-unknown\nx86_64-unknown-linux-gnu";
    assert!(contains_substring(output, "wasm32-unknown-unknown"));
    assert!(!contains_substring("x86_64-unknown-linux-gnu", "wasm32-unknown-unknown"));
}

#[test]
fn contains_substring_edge_cases() {
    assert!(contains_substring("anything", ""));
    assert!(contains_substring("abc", "abc"));
    assert!(!contains_substring("ab", "abc"));
}

#[test]
fn default_file_for_takes_the_first_matching_pair() {
    let config = vec![
        ("default_parse_file".to_string(), "tests/example.d.ts".to_string()),
        ("default_pest_grammar_file".to_string(), "grammar.pest".to_string()),
        ("default_parse_file".to_string(), "shadowed.d.ts".to_string()),
    ];
    assert_eq!(
        default_file_for(&config, &"default_parse_file".to_string()),
        Some("tests/example.d.ts".to_string())
    );
    assert_eq!(default_file_for(&config, &"missing_key".to_string()), None);
}

#[test]
fn content_changed_computes_the_crc32_checksum() {
    // the CRC-32 check value of the digits one through nine
    let (changed, sum) = content_changed(0, b"123456789");
    assert!(changed);
    assert_eq!(sum, 0xCBF4_3926);
}

#[test]
fn content_changed_is_stable_on_unchanged_content() {
    let data = b"grammar = { rule }";
    let (_, first) = content_changed(0, data);
    let (changed_again, second) = content_changed(first, data);
    assert!(!changed_again);
    assert_eq!(first, second);
    let (changed_after_edit, third) = content_changed(second, b"grammar = { other }");
    assert!(changed_after_edit);
    assert_ne!(second, third);
}
