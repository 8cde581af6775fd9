use bf_tools::wernicke::text::{lines_of, path_to_uri, uri_to_path, Lines};

#[test]
fn converts_uris_and_paths_back_and_forth() {
    let path = uri_to_path("file:///C:/Projects/bf-tools/main.cra").expect("a path");
    assert!(path.contains("Projects"));
    assert!(path.starts_with("C:"));

    let unix = uri_to_path("file:///home/aspen/main.cra").expect("a path");
    assert!(unix.contains("home"));

    assert_eq!(uri_to_path("http://example.com/x.cra"), None);
}

#[test]
fn decodes_escaped_characters_in_uris() {
    let path = uri_to_path("file:///tmp/my%20project/a%2Bb.cra").expect("a path");
    let text = path.replace('\\', "/");
    assert!(text.ends_with("my project/a+b.cra"), "{text}");
}

#[test]
fn a_path_round_trips_through_a_uri() {
    let original = "/tmp/my project/main.cra";
    let uri = path_to_uri(original);
    assert!(uri.contains("%20"), "{uri}");
    let back = uri_to_path(&uri).expect("a path");
    assert_eq!(back.replace('\\', "/"), "/tmp/my project/main.cra");
}

#[test]
fn indexes_lines() {
    let lines = Lines::new("one\ntwo\r\nthree");
    assert_eq!(lines.count(), 3);
    assert_eq!(lines.line(0), "one");
    assert_eq!(lines.line(1), "two");
    assert_eq!(lines.line(2), "three");
    assert_eq!(lines.line(9), "");
}

#[test]
fn converts_positions_across_the_one_based_boundary() {
    let lines = Lines::new("fn main() {\n    let x = 1;\n}");
    // The compiler's 2:9 is the `x`; the protocol counts from zero.
    assert_eq!(lines.to_position(2, 9), (1, 8));
    assert_eq!(lines.to_byte_column(1, 8), 8);
}

#[test]
fn counts_characters_in_utf16_units() {
    // `😀` is one character but two UTF-16 units and four bytes.
    let lines = Lines::new("// 😀 x");
    let byte_column = "// 😀 ".len();
    let (_, character) = lines.to_position(1, byte_column + 1);
    assert_eq!(character, "// ".encode_utf16().count() + 2 + 1);
    assert_eq!(lines.to_byte_column(0, character), byte_column);
}

#[test]
fn finds_the_word_under_a_position() {
    let lines = Lines::new("let total = square(7);");
    assert_eq!(lines.word_at(0, 13), Some(("square".to_string(), 12)));
    // Resting just past the end of a word still finds it.
    assert_eq!(lines.word_at(0, 3), Some(("let".to_string(), 0)));
    // Punctuation is not a word.
    assert_eq!(lines.word_at(0, 21), None);
}

#[test]
fn the_text_is_kept_whole() {
    let lines = Lines::new("a\nb");
    assert_eq!(lines.text(), "a\nb");
    assert_eq!(lines.count(), 2);
}

#[test]
fn indexes_detached_text_by_line() {
    let lines = lines_of("first\nsecond");
    assert_eq!(lines.count(), 2);
    assert_eq!(lines.line(1), "second");
}

#[test]
fn a_column_survives_the_trip_to_utf16_and_back() {
    let lines = Lines::new("a\u{1f600}b\u{e9}c");
    // One-based byte columns of `a`, the emoji, `b`, `\u{e9}`, `c` and the end.
    for column in [1usize, 2, 6, 7, 9, 10] {
        let (line, character) = lines.to_position(1, column);
        assert_eq!(lines.to_byte_column(line, character), column - 1, "column {column}");
    }
}
