use lsproxy::api_types::{Position, Range};
use lsproxy::documents::read_text_document;
use lsproxy::text::{compare_str, extract_range, sort_strings};

fn range(sl: u32, sc: u32, el: u32, ec: u32) -> Range {
    Range { start: Position { line: sl, character: sc }, end: Position { line: el, character: ec } }
}

fn read(content: &str, r: Option<Range>) -> String {
    read_text_document(content.to_string(), &r)
}

#[test]
fn read_text_document_whole_and_range() {
    let content = "Hello, world!\nThis is a test.";
    assert_eq!(read(content, None), "Hello, world!\nThis is a test.");
    assert_eq!(read(content, Some(range(0, 7, 0, 12))), "world");
}

#[test]
fn read_text_document_out_of_bounds_lines() {
    assert_eq!(read("Line 1\nLine 2", Some(range(5, 0, 6, 10))), "");
}

#[test]
fn read_text_document_characters_past_line_end() {
    assert_eq!(read("Short line", Some(range(0, 100, 0, 200))), "");
}

#[test]
fn read_text_document_empty_file() {
    assert_eq!(read("", None), "");
    assert_eq!(read("", Some(range(0, 0, 0, 10))), "");
}

#[test]
fn extract_range_across_lines() {
    let content = "first line\nsecond line\nthird line";
    let r = range(0, 6, 2, 5);
    assert_eq!(extract_range(content, &r), "line\nsecond line\nthird");
}

#[test]
fn extract_range_clamps_end_line_to_last_line() {
    let content = "a\nbb\nccc";
    let r = range(1, 0, 40, 2);
    assert_eq!(extract_range(content, &r), "bb\ncc");
}

#[test]
fn extract_range_start_after_end_is_empty() {
    let content = "a\nbb\nccc";
    assert_eq!(extract_range(content, &range(2, 0, 1, 1)), "");
}

#[test]
fn extract_range_drops_carriage_returns() {
    let content = "one\r\ntwo\r\n";
    assert_eq!(extract_range(content, &range(0, 0, 1, 3)), "one\ntwo");
}

#[test]
fn extract_range_cuts_at_character_offsets() {
    // "é" is one character of two bytes; offsets count characters.
    let content = "éab";
    assert_eq!(extract_range(content, &range(0, 0, 0, 1)), "é");
    assert_eq!(extract_range(content, &range(0, 0, 0, 2)), "éa");
    assert_eq!(extract_range(content, &range(0, 1, 0, 3)), "ab");
    assert_eq!(read("aé", Some(range(0, 0, 0, 1))), "a");
    assert_eq!(read("é", Some(range(0, 0, 0, 1))), "é");
    assert_eq!(read("ééa
xé", Some(range(0, 2, 1, 2))), "a
xé");
}

#[test]
fn extract_range_start_after_end_on_one_line_is_empty() {
    assert_eq!(extract_range("abcdef", &range(0, 4, 0, 2)), "");
}

#[test]
fn compare_and_sort_strings() {
    assert_eq!(compare_str("a", "b"), -1);
    assert_eq!(compare_str("b", "a"), 1);
    assert_eq!(compare_str("ab", "ab"), 0);
    assert_eq!(compare_str("a", "ab"), -1);
    let sorted = sort_strings(vec!["pear".to_string(), "apple".to_string(), "fig".to_string(), "apple".to_string()]);
    assert_eq!(sorted, vec!["apple", "apple", "fig", "pear"]);
}
