use editor_core::text::{join_rows, split_lines};
use editor_core::{Document, Row};

fn lines_of(text: &str) -> Vec<String> {
    let mut lines = Vec::new();
    for row in split_lines(text) {
        lines.push(row.string);
    }
    lines
}

fn rows(lines: &[&str]) -> Vec<Row> {
    let mut rows = Vec::new();
    for line in lines {
        rows.push(Row::from(*line));
    }
    rows
}

fn rows_of(document: &Document) -> Vec<String> {
    let mut rows = Vec::new();
    for row in document.iter() {
        rows.push(row.string.clone());
    }
    rows
}

#[test]
fn empty_text_has_no_lines() {
    assert_eq!(lines_of(""), Vec::<String>::new());
}

#[test]
fn every_line_feed_ends_a_line() {
    assert_eq!(lines_of("a\n\nbc\n"), vec!["a", "", "bc"]);
    assert_eq!(lines_of("\n"), vec![""]);
    assert_eq!(lines_of("\n\n"), vec!["", ""]);
}

#[test]
fn last_line_needs_no_line_feed() {
    assert_eq!(lines_of("a\nbc"), vec!["a", "bc"]);
    assert_eq!(lines_of("abc"), vec!["abc"]);
}

#[test]
fn carriage_return_before_a_line_feed_is_dropped() {
    assert_eq!(lines_of("a\r\nb\r\n"), vec!["a", "b"]);
    assert_eq!(lines_of("\r\n"), vec![""]);
    assert_eq!(lines_of("a\r\r\nb"), vec!["a\r", "b"]);
}

#[test]
fn other_carriage_returns_stay() {
    assert_eq!(lines_of("a\rb\n"), vec!["a\rb"]);
    assert_eq!(lines_of("a\n\r"), vec!["a", "\r"]);
    assert_eq!(lines_of("a\r"), vec!["a\r"]);
}

#[test]
fn lines_agree_with_the_standard_library() {
    let samples = [
        "",
        "\n",
        "a",
        "a\n",
        "a\nb",
        "a\r\nb\r\n",
        "\r\n\r\n",
        "one\ntwo\n\nfour\r\n\r\nsix",
        "h\u{e9}\n\u{4e16}\u{754c}\n",
        "a\rb\r\nc\r",
    ];
    for sample in samples {
        let expected: Vec<String> = sample.lines().map(String::from).collect();
        assert_eq!(lines_of(sample), expected);
    }
}

#[test]
fn every_row_is_written_with_a_line_feed() {
    assert_eq!(join_rows(&rows(&["a", "", "bc"])), b"a\n\nbc\n");
    assert_eq!(join_rows(&rows(&[""])), b"\n");
    assert_eq!(join_rows(&rows(&[])), b"");
    assert_eq!(join_rows(&rows(&["h\u{e9}"])), &[0x68, 0xC3, 0xA9, 0x0A]);
}

#[test]
fn from_text_makes_one_row_for_each_line() {
    let doc = Document::from_text("a\n\nbc\n", "notes.txt");
    assert_eq!(rows_of(&doc), vec!["a", "", "bc"]);
    assert_eq!(doc.filename, "notes.txt");
    assert_eq!(doc.num_rows(), 3);
}

#[test]
fn from_empty_text_has_no_rows() {
    let doc = Document::from_text("", "empty.txt");
    assert!(doc.is_empty());
    assert_eq!(doc.num_rows(), 0);
    assert_eq!(doc.filename, "empty.txt");
}

#[test]
fn document_without_rows_takes_typing() {
    let mut doc = Document::from_text("", "empty.txt");
    doc.insert('a', 0, 0);
    assert_eq!(rows_of(&doc), vec!["a"]);
}

#[test]
fn to_bytes_writes_every_row_with_a_line_feed() {
    let doc = Document::new(rows(&["a", "", "bc"]), String::from("notes.txt"));
    assert_eq!(doc.to_bytes(), b"a\n\nbc\n");
    assert_eq!(Document::default().to_bytes(), b"\n");
    assert_eq!(Document::from_text("", "empty.txt").to_bytes(), b"");
}

#[test]
fn nothing_is_saved_without_a_name() {
    let doc = Document::new(rows(&["a"]), String::new());
    assert_eq!(doc.bytes_to_save(), None);
    assert_eq!(Document::default().bytes_to_save(), None);
}

#[test]
fn the_file_is_saved_under_a_name() {
    let doc = Document::new(rows(&["a", "b"]), String::from("n"));
    assert_eq!(doc.bytes_to_save(), Some(b"a\nb\n".to_vec()));
}

#[test]
fn saved_rows_are_read_back() {
    let doc = Document::new(rows(&["a", "", "bc"]), String::from("notes.txt"));
    let bytes = doc.bytes_to_save().unwrap();
    let text = String::from_utf8(bytes).unwrap();
    let again = Document::from_text(&text, "notes.txt");
    assert_eq!(rows_of(&again), vec!["a", "", "bc"]);
    assert_eq!(again.num_rows(), 3);
}

#[test]
fn saved_rows_with_wide_characters_are_read_back() {
    let lines = ["h\u{e9}llo", "", "\u{4e16}\u{754c} ok", "tab\there", "cr\rinside"];
    let doc = Document::new(rows(&lines), String::from("notes.txt"));
    let text = String::from_utf8(doc.to_bytes()).unwrap();
    let again = Document::from_text(&text, "notes.txt");
    assert_eq!(rows_of(&again), lines);
}

#[test]
fn a_row_that_ends_in_a_carriage_return_loses_it() {
    let doc = Document::new(rows(&["a\r", "b"]), String::from("notes.txt"));
    let text = String::from_utf8(doc.to_bytes()).unwrap();
    let again = Document::from_text(&text, "notes.txt");
    assert_eq!(rows_of(&again), vec!["a", "b"]);
}
