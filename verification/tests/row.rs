use editor_core::Row;

#[test]
fn row_from_text_holds_the_text() {
    let row = Row::from("hello");
    assert_eq!(row.string, "hello");
    assert_eq!(row.len(), 5);
}

#[test]
fn row_default_is_empty() {
    let row = Row::default();
    assert_eq!(row.string, "");
    assert_eq!(row.len(), 0);
}

#[test]
fn row_len_counts_characters_not_bytes() {
    let row = Row::from("h\u{e9}llo \u{4e16}\u{754c}");
    assert_eq!(row.len(), 8);
    assert_eq!(row.as_bytes().len(), 13);
}

#[test]
fn row_insert_at_start() {
    let mut row = Row::from("ab");
    row.insert(0, 'c');
    assert_eq!(row.string, "cab");
}

#[test]
fn row_insert_in_the_middle() {
    let mut row = Row::from("ab");
    row.insert(1, 'c');
    assert_eq!(row.string, "acb");
}

#[test]
fn row_insert_at_end() {
    let mut row = Row::from("ab");
    row.insert(2, 'c');
    assert_eq!(row.string, "abc");
}

#[test]
fn row_insert_past_end_goes_to_the_end() {
    let mut row = Row::from("ab");
    row.insert(17, 'c');
    assert_eq!(row.string, "abc");
    row.insert(usize::MAX, 'd');
    assert_eq!(row.string, "abcd");
}

#[test]
fn row_insert_into_empty_row() {
    let mut row = Row::default();
    row.insert(0, 'x');
    assert_eq!(row.string, "x");
}

#[test]
fn row_insert_counts_characters() {
    let mut row = Row::from("\u{e9}\u{e8}");
    row.insert(1, 'x');
    assert_eq!(row.string, "\u{e9}x\u{e8}");
}

#[test]
fn row_delete_removes_one_character() {
    let mut row = Row::from("abc");
    row.delete(1);
    assert_eq!(row.string, "ac");
    row.delete(0);
    assert_eq!(row.string, "c");
    row.delete(0);
    assert_eq!(row.string, "");
}

#[test]
fn row_delete_last_character() {
    let mut row = Row::from("abc");
    row.delete(2);
    assert_eq!(row.string, "ab");
}

#[test]
fn row_delete_past_end_changes_nothing() {
    let mut row = Row::from("abc");
    row.delete(3);
    assert_eq!(row.string, "abc");
    row.delete(usize::MAX);
    assert_eq!(row.string, "abc");
    let mut empty = Row::default();
    empty.delete(0);
    assert_eq!(empty.string, "");
}

#[test]
fn row_split_in_the_middle() {
    let mut row = Row::from("hello");
    let tail = row.split(2);
    assert_eq!(row.string, "he");
    assert_eq!(tail.string, "llo");
}

#[test]
fn row_split_at_start_moves_everything() {
    let mut row = Row::from("hello");
    let tail = row.split(0);
    assert_eq!(row.string, "");
    assert_eq!(tail.string, "hello");
}

#[test]
fn row_split_at_or_past_end_gives_empty_tail() {
    let mut row = Row::from("hello");
    let tail = row.split(5);
    assert_eq!(row.string, "hello");
    assert_eq!(tail.string, "");
    let tail = row.split(99);
    assert_eq!(row.string, "hello");
    assert_eq!(tail.string, "");
}

#[test]
fn row_split_then_append_restores_the_row() {
    let mut row = Row::from("h\u{e9}llo world");
    let tail = row.split(4);
    assert_eq!(row.string, "h\u{e9}ll");
    assert_eq!(tail.string, "o world");
    row.append(&tail);
    assert_eq!(row.string, "h\u{e9}llo world");
}

#[test]
fn row_append_adds_at_the_end() {
    let mut row = Row::from("ab");
    row.append(&Row::from("cd"));
    assert_eq!(row.string, "abcd");
    row.append(&Row::default());
    assert_eq!(row.string, "abcd");
}

#[test]
fn row_num_words_of_empty_row_is_zero() {
    assert_eq!(Row::default().num_words(), 0);
    assert_eq!(Row::from("   ").num_words(), 0);
    assert_eq!(Row::from("\t \r").num_words(), 0);
}

#[test]
fn row_num_words_counts_runs_of_other_characters() {
    assert_eq!(Row::from("one").num_words(), 1);
    assert_eq!(Row::from("hello world").num_words(), 2);
    assert_eq!(Row::from("  a  b  ").num_words(), 2);
    assert_eq!(Row::from("a\tb\u{0C}c d").num_words(), 4);
    assert_eq!(Row::from("fn main() { }").num_words(), 4);
    assert_eq!(Row::from("\u{e9}t\u{e9} hiver").num_words(), 2);
}

#[test]
fn row_num_words_agrees_with_splitting_on_ascii_whitespace() {
    let samples = ["", " ", "a", " a", "a ", "a b", "a  b", "\ta\tb\t", "x y z w", "no-break\u{a0}space"];
    for sample in samples {
        assert_eq!(Row::from(sample).num_words(), sample.split_ascii_whitespace().count());
    }
}

#[test]
fn row_as_bytes_is_utf8() {
    assert_eq!(Row::from("a\u{e9}").as_bytes(), &[0x61, 0xC3, 0xA9]);
    assert_eq!(Row::from("abc").as_bytes(), b"abc");
    assert_eq!(Row::default().as_bytes(), b"");
}

#[test]
fn row_clone_holds_the_same_text() {
    let row = Row::from("abc");
    let copy = row.clone();
    assert_eq!(copy.string, "abc");
}
