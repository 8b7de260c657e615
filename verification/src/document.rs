//! The document: an ordered sequence of rows and the name of its file.

use vstd::prelude::*;
use vstd::math::max;
use vstd::std_specs::iter::IteratorSpec;
use vstd::string::StringExecFns;
use std::slice::Iter;
use crate::edit::{char_deleted, char_inserted, newline_inserted, row_deleted};
use crate::position::Position;
use crate::row::{contents, word_count, Row};
use crate::text::{file_bytes, join_rows, lines, split_lines};

verus! {

/// The text of one file, held as rows.
#[derive(Debug)]
pub struct Document {
    rows: Vec<Row>,
    pub filename: String,
}

impl View for Document {
    type V = Seq<Seq<char>>;

    closed spec fn view(&self) -> Seq<Seq<char>> {
        contents(self.rows@)
    }
}

/// The number of words in all of `rows`.
pub open spec fn word_total(rows: Seq<Seq<char>>) -> nat
    decreases rows.len(),
{
    if rows.len() == 0 {
        0
    } else {
        word_total(rows.drop_last()) + word_count(rows.last())
    }
}

/// The first rows of a document hold no more words than the whole.
proof fn lemma_word_total_of_first_rows(rows: Seq<Seq<char>>, k: int)
    requires
        0 <= k <= rows.len(),
    ensures
        word_total(rows.take(k)) <= word_total(rows),
    decreases rows.len(),
{
    if k < rows.len() {
        assert(rows.drop_last().take(k) == rows.take(k));
        lemma_word_total_of_first_rows(rows.drop_last(), k);
    } else {
        assert(rows.take(k) == rows);
    }
}

impl Default for Document {
    /// A document of one empty row, with no file name.
    fn default() -> (document: Document)
        ensures
            document@ == seq![Seq::<char>::empty()],
            document.name() == Seq::<char>::empty(),
    {
        Document::new_empty(String::new())
    }
}

impl Document {
    /// The name of the document's file; empty when it has none.
    pub closed spec fn name(&self) -> Seq<char> {
        self.filename@
    }

    /// The document that holds `rows`, for the file `filename`.
    pub fn new(rows: Vec<Row>, filename: String) -> (document: Document)
        ensures
            document@ == contents(rows@),
            document.name() == filename@,
    {
        Document { rows, filename }
    }

    /// A document of one empty row, for the file `filename`.
    pub fn new_empty(filename: String) -> (document: Document)
        ensures
            document@ == seq![Seq::<char>::empty()],
            document.name() == filename@,
    {
        let mut rows: Vec<Row> = Vec::new();
        rows.push(Row::default());
        assert(contents(rows@) == seq![Seq::<char>::empty()]);
        Document { rows, filename }
    }

    /// The document for the file `filename` whose text is `text`: one row
    /// for each line. An empty text gives a document without rows.
    pub fn from_text(text: &str, filename: &str) -> (document: Document)
        ensures
            document@ == lines(text@),
            document.name() == filename@,
    {
        Document { rows: split_lines(text), filename: String::from_str(filename) }
    }

    /// The bytes of the document's file: every row followed by a line feed.
    pub fn to_bytes(&self) -> (bytes: Vec<u8>)
        ensures
            bytes@ == file_bytes(self@),
    {
        join_rows(&self.rows)
    }

    /// What saving the document writes to its file: nothing for a document
    /// without a file name, else the bytes of the file.
    pub fn bytes_to_save(&self) -> (bytes: Option<Vec<u8>>)
        ensures
            self.name().len() == 0 ==> bytes is None,
            self.name().len() > 0 ==> bytes is Some && bytes->0@ == file_bytes(self@),
    {
        if self.filename.as_str().is_empty() {
            None
        } else {
            Some(self.to_bytes())
        }
    }

    /// The row at `index`, counted from zero, if there is one.
    pub fn get_row(&self, index: usize) -> (row: Option<&Row>)
        ensures
            index < self@.len() ==> row is Some && row->0@ == self@[index as int],
            index >= self@.len() ==> row is None,
    {
        if index < self.rows.len() {
            Some(&self.rows[index])
        } else {
            None
        }
    }

    /// Whether the document has no rows at all.
    pub fn is_empty(&self) -> (empty: bool)
        ensures
            empty == (self@.len() == 0),
    {
        self.rows.len() == 0
    }

    /// The number of rows.
    pub fn num_rows(&self) -> (n: usize)
        ensures
            n == self@.len(),
    {
        self.rows.len()
    }

    /// The number of words in the document.
    pub fn num_words(&self) -> (n: usize)
        requires
            word_total(self@) <= usize::MAX,
        ensures
            n == word_total(self@),
    {
        let mut total: usize = 0;
        let mut i: usize = 0;
        while i < self.rows.len()
            invariant
                i <= self.rows.len(),
                total == word_total(self@.take(i as int)),
                word_total(self@) <= usize::MAX,
            decreases self.rows.len() - i,
        {
            let words = self.rows[i].num_words();
            proof {
                assert(self@.take(i + 1).drop_last() == self@.take(i as int));
                lemma_word_total_of_first_rows(self@, i + 1);
            }
            total = total + words;
            i += 1;
        }
        proof {
            assert(self@.take(self@.len() as int) == self@);
        }
        total
    }

    /// The row of a line number, counted from one. Line 0 is taken as line 1.
    pub fn row_for_line_number(&self, line_number: usize) -> (row: Option<&Row>)
        ensures
            max(line_number - 1, 0) < self@.len() ==> row is Some && row->0@ == self@[max(
                line_number - 1,
                0,
            )],
            max(line_number - 1, 0) >= self@.len() ==> row is None,
    {
        self.get_row(line_number.saturating_sub(1))
    }

    /// The line number of the last row, counted from one.
    pub fn last_line_number(&self) -> (n: usize)
        ensures
            n == self@.len(),
    {
        self.num_rows()
    }

    /// An iterator over the rows, from the first to the last.
    pub fn iter(&self) -> (iter: Iter<'_, Row>)
        ensures
            iter.remaining().len() == self@.len(),
            forall|i: int| 0 <= i < self@.len() ==> iter.remaining()[i]@ == self@[i],
            IteratorSpec::decrease(&iter) is Some,
            IteratorSpec::initial_value_relation(&iter, &iter),
    {
        self.rows.iter()
    }

    /// Types the character `c` at column `x` of row `y`.
    pub fn insert(&mut self, c: char, x: usize, y: usize)
        ensures
            final(self)@ == char_inserted(old(self)@, c, x as int, y as int),
            final(self).name() == old(self).name(),
            old(self)@.len() >= 1 ==> final(self)@.len() >= 1,
    {
        if y >= self.rows.len() {
            let mut row = Row::default();
            row.insert(0, c);
            assert(row@ == seq![c]);
            self.rows.push(row);
        } else {
            self.rows[y].insert(x, c);
        }
    }

    /// Deletes backwards from column `x` of row `y`.
    pub fn delete(&mut self, x: usize, y: usize)
        ensures
            final(self)@ == char_deleted(old(self)@, x as int, y as int),
            final(self).name() == old(self).name(),
            old(self)@.len() >= 1 ==> final(self)@.len() >= 1,
    {
        if y >= self.rows.len() {
            return;
        }
        if x == 0 && y > 0 {
            let current_row = self.rows.remove(y);
            self.rows[y - 1].append(&current_row);
        } else {
            self.rows[y].delete(x.saturating_sub(1));
        }
    }

    /// Deletes the row that `at` stands in.
    pub fn delete_row(&mut self, at: &Position)
        ensures
            final(self)@ == row_deleted(old(self)@, at.y as int),
            final(self).name() == old(self).name(),
            old(self)@.len() >= 1 ==> final(self)@.len() >= 1,
    {
        if at.y > self.rows.len() {
            return;
        }
        if self.rows.len() == 1 {
            self.rows[0].string = String::new();
        } else if at.y < self.rows.len() {
            self.rows.remove(at.y);
        }
    }

    /// Breaks the line at column `x` of row `y`.
    pub fn insert_newline(&mut self, x: usize, y: usize)
        ensures
            final(self)@ == newline_inserted(old(self)@, x as int, y as int),
            final(self).name() == old(self).name(),
            old(self)@.len() >= 1 ==> final(self)@.len() >= 1,
    {
        if y >= self.rows.len() {
            return;
        }
        let len = self.rows[y].len();
        if x < len.saturating_sub(1) {
            let tail = self.rows[y].split(x);
            self.rows.insert(y + 1, tail);
        } else {
            self.rows.insert(y + 1, Row::default());
        }
    }
}

} // verus!
