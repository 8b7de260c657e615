//! One line of text, addressed by character index.

use vstd::prelude::*;
use vstd::math::min;
use vstd::std_specs::convert::FromSpecImpl;
use vstd::string::StrSliceExecFns;
use vstd::string::StringExecFns;
use vstd::utf8::encode_utf8;

verus! {

/// A single line of a document, without its line terminator.
///
/// Indices count characters (Unicode scalar values), starting at zero.
#[derive(Debug)]
pub struct Row {
    pub string: String,
}

impl View for Row {
    type V = Seq<char>;

    open spec fn view(&self) -> Seq<char> {
        self.string@
    }
}

/// What a sequence of rows holds: the characters of each row, in order.
pub open spec fn contents(rows: Seq<Row>) -> Seq<Seq<char>> {
    Seq::new(rows.len(), |i: int| rows[i]@)
}

/// The characters that separate words: space, tab, line feed, form feed and
/// carriage return.
pub open spec fn is_blank(c: char) -> bool {
    c == ' ' || c == '\t' || c == '\n' || c == '\u{0C}' || c == '\r'
}

/// Whether a word begins at index `i` of `s`: the character there is not
/// blank, and it is the first of `s` or follows a blank one.
pub open spec fn starts_word(s: Seq<char>, i: int) -> bool {
    !is_blank(s[i]) && (i == 0 || is_blank(s[i - 1]))
}

/// The number of words in `s`, a word being a longest run of characters that
/// are not blank: the number of indices at which a word begins.
pub open spec fn word_count(s: Seq<char>) -> nat
    decreases s.len(),
{
    if s.len() == 0 {
        0
    } else {
        word_count(s.drop_last()) + if starts_word(s, s.len() - 1) {
            1nat
        } else {
            0nat
        }
    }
}

/// A sequence holds at most as many words as characters.
pub proof fn lemma_word_count_bound(s: Seq<char>)
    ensures
        word_count(s) <= s.len(),
    decreases s.len(),
{
    if s.len() > 0 {
        lemma_word_count_bound(s.drop_last());
    }
}

/// `String::push`: the character is added at the end of the string and
/// nothing else changes.
#[verifier::external_body]
pub(crate) fn push_char(s: &mut String, c: char)
    ensures
        final(s)@ == old(s)@.push(c),
{
    s.push(c)
}

impl Default for Row {
    /// The empty row.
    fn default() -> (row: Row)
        ensures
            row@ == Seq::<char>::empty(),
    {
        Row { string: String::new() }
    }
}

impl Clone for Row {
    /// A row with the same characters.
    fn clone(&self) -> (row: Row)
        ensures
            row@ == self@,
    {
        Row { string: self.string.clone() }
    }
}

impl From<&str> for Row {
    /// The row that holds exactly the characters of `line`.
    fn from(line: &str) -> (row: Row)
        ensures
            row@ == line@,
    {
        Row { string: String::from_str(line) }
    }
}

/// Two strings with the same characters need not be one value to the
/// verifier, so what `from` returns is stated on `from` itself, over the
/// characters, and not through `from_spec`.
impl FromSpecImpl<&str> for Row {
    open spec fn obeys_from_spec() -> bool {
        false
    }

    open spec fn from_spec(line: &str) -> Row {
        choose|row: Row| row@ == line@
    }
}

impl Row {
    /// The number of characters in the row.
    pub fn len(&self) -> (n: usize)
        ensures
            n == self@.len(),
    {
        self.string.as_str().unicode_len()
    }

    /// Puts `c` in front of the character at `index`; an index past the end
    /// of the row puts it at the end.
    pub fn insert(&mut self, index: usize, c: char)
        ensures
            final(self)@ == old(self)@.insert(min(index as int, old(self)@.len() as int), c),
    {
        let text = self.string.as_str();
        let n = text.unicode_len();
        let at = if index < n { index } else { n };
        let mut result = String::from_str(text.substring_char(0, at));
        push_char(&mut result, c);
        result.append(text.substring_char(at, n));
        self.string = result;
    }

    /// Removes the character at `index`; an index past the last character
    /// removes nothing.
    pub fn delete(&mut self, index: usize)
        ensures
            index < old(self)@.len() ==> final(self)@ == old(self)@.remove(index as int),
            index >= old(self)@.len() ==> final(self)@ == old(self)@,
    {
        let text = self.string.as_str();
        let n = text.unicode_len();
        if index < n {
            let mut result = String::from_str(text.substring_char(0, index));
            result.append(text.substring_char(index + 1, n));
            self.string = result;
        }
    }

    /// Cuts the row in two in front of the character at `at`: the row keeps
    /// what stood before, and what stood from `at` on is returned. An index
    /// past the end of the row cuts at the end.
    pub fn split(&mut self, at: usize) -> (tail: Row)
        ensures
            final(self)@ == old(self)@.take(min(at as int, old(self)@.len() as int)),
            tail@ == old(self)@.skip(min(at as int, old(self)@.len() as int)),
    {
        let text = self.string.as_str();
        let n = text.unicode_len();
        let cut = if at < n { at } else { n };
        let head = String::from_str(text.substring_char(0, cut));
        let tail = Row { string: String::from_str(text.substring_char(cut, n)) };
        self.string = head;
        tail
    }

    /// The number of words in the row.
    pub fn num_words(&self) -> (n: usize)
        ensures
            n == word_count(self@),
    {
        let text = self.string.as_str();
        let len = text.unicode_len();
        let mut count: usize = 0;
        let mut after_blank = true;
        for c in it: text.chars()
            invariant
                it.seq() == text@,
                text@.len() == len,
                count == word_count(text@.take(it.index())),
                after_blank == (it.index() == 0 || is_blank(text@[it.index() - 1])),
        {
            let blank = c == ' ' || c == '\t' || c == '\n' || c == '\u{0C}' || c == '\r';
            proof {
                let i = it.index();
                let before = text@.take(i);
                let upto = text@.take(i + 1);
                assert(upto.drop_last() == before);
                assert(starts_word(upto, i) == (!blank && after_blank));
                lemma_word_count_bound(before);
            }
            if !blank && after_blank {
                count = count + 1;
            }
            after_blank = blank;
        }
        proof {
            assert(text@.take(text@.len() as int) == text@);
        }
        count
    }

    /// The row as it is written to a file: its characters in UTF-8.
    pub fn as_bytes(&self) -> (bytes: &[u8])
        ensures
            bytes@ == encode_utf8(self@),
    {
        self.string.as_str().as_bytes()
    }

    /// Adds the characters of `other` at the end of the row.
    pub fn append(&mut self, other: &Row)
        ensures
            final(self)@ == old(self)@ + other@,
    {
        self.string.append(other.string.as_str());
    }
}

} // verus!
