//! The text of a file and the rows of a document.
//!
//! A file holds one row per line. Reading cuts the text at each line feed
//! and drops a carriage return that stands directly in front of one. Writing
//! puts a line feed after every row.

use vstd::prelude::*;
use vstd::string::StrSliceExecFns;
use vstd::string::StringExecFns;
use vstd::utf8::{decode_utf8, encode_utf8, valid_utf8};
use crate::row::{contents, push_char, Row};

verus! {

/// The byte that ends a line in a file.
pub const LINE_FEED: u8 = 0x0A;

/// The index of the first line feed in `text`, or the length of `text` if
/// it holds none.
pub open spec fn first_line_feed(text: Seq<char>) -> nat
    decreases text.len(),
{
    if text.len() == 0 || text[0] == '\n' {
        0
    } else {
        1 + first_line_feed(text.drop_first())
    }
}

/// `line` without the carriage return at its end, if it has one.
pub open spec fn without_carriage_return(line: Seq<char>) -> Seq<char> {
    if line.len() > 0 && line.last() == '\r' {
        line.drop_last()
    } else {
        line
    }
}

/// The lines of `text`.
///
/// Every line feed ends a line. The line feed is not part of its line, nor
/// is a carriage return directly in front of it. What follows the last line
/// feed is a line of its own unless it is empty, and is taken as it stands.
/// The empty text has no lines.
pub open spec fn lines(text: Seq<char>) -> Seq<Seq<char>>
    decreases text.len(),
{
    if text.len() == 0 {
        Seq::empty()
    } else {
        let end = first_line_feed(text) as int;
        if end >= text.len() {
            seq![text]
        } else {
            seq![without_carriage_return(text.take(end))] + lines(text.skip(end + 1))
        }
    }
}

/// The text that is written for `rows`: each row followed by a line feed,
/// in order.
pub open spec fn text_of(rows: Seq<Seq<char>>) -> Seq<char> {
    rows.map_values(|row: Seq<char>| row.push('\n')).flatten()
}

/// The bytes that are written for `rows`: the UTF-8 bytes of each row
/// followed by the byte of a line feed, in order.
pub open spec fn file_bytes(rows: Seq<Seq<char>>) -> Seq<u8> {
    rows.map_values(|row: Seq<char>| encode_utf8(row).push(LINE_FEED)).flatten()
}

/// A row that reading gives back as it was written: it holds no line feed
/// and does not end in a carriage return.
pub open spec fn is_plain_row(row: Seq<char>) -> bool {
    &&& forall|j: int| 0 <= j < row.len() ==> row[j] != '\n'
    &&& row.len() > 0 ==> row.last() != '\r'
}

/// The first line feed of a text stands where no line feed comes before.
proof fn lemma_first_line_feed(text: Seq<char>, k: int)
    requires
        0 <= k <= text.len(),
        forall|j: int| 0 <= j < k ==> text[j] != '\n',
        k < text.len() ==> text[k] == '\n',
    ensures
        first_line_feed(text) == k,
    decreases k,
{
    if k > 0 {
        lemma_first_line_feed(text.drop_first(), k - 1);
    }
}

/// The text written for rows that are all plain is read back as the same
/// rows.
pub proof fn text_reads_back(rows: Seq<Seq<char>>)
    requires
        forall|i: int| 0 <= i < rows.len() ==> is_plain_row(#[trigger] rows[i]),
    ensures
        lines(text_of(rows)) == rows,
    decreases rows.len(),
{
    if rows.len() == 0 {
        assert(text_of(rows).len() == 0);
        assert(lines(text_of(rows)) == rows);
    } else {
        let ended = |row: Seq<char>| row.push('\n');
        let first = rows[0];
        let others = rows.drop_first();
        let text = text_of(rows);
        assert(rows.map_values(ended).drop_first() == others.map_values(ended));
        assert(text == first.push('\n') + text_of(others));
        assert(is_plain_row(first));
        assert forall|i: int| 0 <= i < others.len() implies is_plain_row(
            #[trigger] others[i],
        ) by {
            assert(others[i] == rows[i + 1]);
        }
        lemma_first_line_feed(text, first.len() as int);
        assert(text.take(first.len() as int) == first);
        assert(text.skip(first.len() as int + 1) == text_of(others));
        text_reads_back(others);
        assert(seq![first] + others == rows);
    }
}

/// The UTF-8 bytes of two texts put together are the bytes of the first
/// followed by the bytes of the second.
proof fn lemma_encode_concat(a: Seq<char>, b: Seq<char>)
    ensures
        encode_utf8(a + b) == encode_utf8(a) + encode_utf8(b),
    decreases a.len(),
{
    if a.len() == 0 {
        assert(a + b == b);
    } else {
        assert((a + b).drop_first() == a.drop_first() + b);
        lemma_encode_concat(a.drop_first(), b);
    }
}

/// The bytes written for rows are the UTF-8 bytes of the text written for
/// them.
pub proof fn file_bytes_encode_text(rows: Seq<Seq<char>>)
    ensures
        file_bytes(rows) == encode_utf8(text_of(rows)),
    decreases rows.len(),
{
    let ended = |row: Seq<char>| row.push('\n');
    let written = |row: Seq<char>| encode_utf8(row).push(LINE_FEED);
    if rows.len() == 0 {
        assert(text_of(rows).len() == 0);
        assert(file_bytes(rows).len() == 0);
    } else {
        let first = rows[0];
        let others = rows.drop_first();
        assert(rows.map_values(ended).drop_first() == others.map_values(ended));
        assert(rows.map_values(written).drop_first() == others.map_values(written));
        assert(text_of(rows) == first.push('\n') + text_of(others));
        assert(file_bytes(rows) == encode_utf8(first).push(LINE_FEED) + file_bytes(others));
        file_bytes_encode_text(others);
        assert(encode_utf8(seq!['\n']) == seq![LINE_FEED]) by {
            vstd::utf8::is_ascii_chars_encode_utf8(seq!['\n']);
        }
        assert(first.push('\n') == first + seq!['\n']);
        lemma_encode_concat(first, seq!['\n']);
        lemma_encode_concat(first.push('\n'), text_of(others));
    }
}

/// The bytes written for rows that are all plain are valid UTF-8, and the
/// text that they hold is read back as the same rows.
pub proof fn file_reads_back(rows: Seq<Seq<char>>)
    requires
        forall|i: int| 0 <= i < rows.len() ==> is_plain_row(#[trigger] rows[i]),
    ensures
        valid_utf8(file_bytes(rows)),
        lines(decode_utf8(file_bytes(rows))) == rows,
{
    file_bytes_encode_text(rows);
    vstd::utf8::encode_utf8_valid_utf8(text_of(rows));
    vstd::utf8::encode_utf8_decode_utf8(text_of(rows));
    text_reads_back(rows);
}

/// Cuts `text` into rows, one for each of its lines.
pub fn split_lines(text: &str) -> (rows: Vec<Row>)
    ensures
        contents(rows@) == lines(text@),
{
    let mut rows: Vec<Row> = Vec::new();
    let mut current = String::new();
    let mut after_carriage_return = false;
    let ghost mut start: int = 0;
    proof {
        assert(text@.skip(0) == text@);
        assert(contents(rows@) + lines(text@) == lines(text@));
    }
    for c in it: text.chars()
        invariant
            it.seq() == text@,
            0 <= start <= it.index(),
            current@ == text@.subrange(start, it.index()),
            forall|j: int| start <= j < it.index() ==> text@[j] != '\n',
            after_carriage_return == (current@.len() > 0 && current@.last() == '\r'),
            lines(text@) == contents(rows@) + lines(text@.skip(start)),
    {
        let ghost i = it.index();
        if c == '\n' {
            let line = if after_carriage_return {
                let whole = current.as_str();
                let n = whole.unicode_len();
                String::from_str(whole.substring_char(0, n - 1))
            } else {
                current
            };
            proof {
                let rest = text@.skip(start);
                lemma_first_line_feed(rest, i - start);
                assert(rest.take(i - start) == text@.subrange(start, i));
                assert(rest.skip(i - start + 1) == text@.skip(i + 1));
                assert(line@ == without_carriage_return(text@.subrange(start, i)));
                assert(contents(rows@.push(Row { string: line })) == contents(rows@).push(line@));
                start = i + 1;
            }
            rows.push(Row { string: line });
            current = String::new();
            after_carriage_return = false;
        } else {
            push_char(&mut current, c);
            after_carriage_return = c == '\r';
        }
    }
    proof {
        let rest = text@.skip(start);
        lemma_first_line_feed(rest, rest.len() as int);
        assert(rest == current@);
    }
    if !current.as_str().is_empty() {
        proof {
            assert(contents(rows@.push(Row { string: current })) == contents(rows@).push(
                current@,
            ));
        }
        rows.push(Row { string: current });
    }
    rows
}

/// The bytes of the file that holds `rows`.
pub fn join_rows(rows: &Vec<Row>) -> (bytes: Vec<u8>)
    ensures
        bytes@ == file_bytes(contents(rows@)),
{
    let mut bytes: Vec<u8> = Vec::new();
    let mut i: usize = 0;
    while i < rows.len()
        invariant
            i <= rows.len(),
            bytes@ == file_bytes(contents(rows@).take(i as int)),
        decreases rows.len() - i,
    {
        let ghost before = bytes@;
        bytes.extend_from_slice(rows[i].as_bytes());
        bytes.push(LINE_FEED);
        proof {
            let all = contents(rows@);
            let written = |row: Seq<char>| encode_utf8(row).push(LINE_FEED);
            assert(bytes@ == before + written(all[i as int]));
            assert(all.take(i + 1).map_values(written) == all.take(i as int).map_values(
                written,
            ).push(written(all[i as int])));
            all.take(i as int).map_values(written).lemma_flatten_push(written(all[i as int]));
        }
        i += 1;
    }
    proof {
        assert(contents(rows@).take(rows@.len() as int) == contents(rows@));
    }
    bytes
}

} // verus!
