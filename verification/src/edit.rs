//! The edit operations of a document, stated on its contents: a sequence of
//! rows, each a sequence of characters.

use vstd::prelude::*;
use vstd::math::min;
use vstd::seq_lib::lemma_flatten_concat;

verus! {

/// The contents after the character `c` is typed at column `x` of row `y`.
///
/// Where there is no row `y`, a new row that holds only `c` is added at the
/// end, whatever `x` is. Otherwise `c` goes into row `y` in front of column
/// `x`, or at the end of the row when `x` lies past it.
pub open spec fn char_inserted(rows: Seq<Seq<char>>, c: char, x: int, y: int) -> Seq<Seq<char>> {
    if 0 <= y < rows.len() {
        rows.update(y, rows[y].insert(min(x, rows[y].len() as int), c))
    } else {
        rows.push(seq![c])
    }
}

/// The contents after a backspace at column `x` of row `y`.
///
/// Nothing changes where there is no row `y`. At the start of a row other
/// than the first, the row is joined to the end of the row above. Anywhere
/// else the character before column `x` goes, if there is one; at column 0
/// of the first row that is the first character of the row.
pub open spec fn char_deleted(rows: Seq<Seq<char>>, x: int, y: int) -> Seq<Seq<char>> {
    if !(0 <= y < rows.len()) {
        rows
    } else if x == 0 && y > 0 {
        rows.update(y - 1, rows[y - 1] + rows[y]).remove(y)
    } else {
        let at = if x > 0 {
            x - 1
        } else {
            0
        };
        if at < rows[y].len() {
            rows.update(y, rows[y].remove(at))
        } else {
            rows
        }
    }
}

/// The contents after row `y` is deleted.
///
/// Nothing changes where `y` lies past the number of rows. The only row of
/// a document is emptied and stays. Otherwise row `y` goes, if there is one,
/// and the rows after it move up.
pub open spec fn row_deleted(rows: Seq<Seq<char>>, y: int) -> Seq<Seq<char>> {
    if y > rows.len() {
        rows
    } else if rows.len() == 1 {
        seq![Seq::empty()]
    } else if 0 <= y < rows.len() {
        rows.remove(y)
    } else {
        rows
    }
}

/// The contents after a line break is requested at column `x` of row `y`.
///
/// Nothing changes where there is no row `y`. A column before the last
/// character of the row cuts the row in two there. Any other column leaves
/// the row whole and puts an empty row after it.
pub open spec fn newline_inserted(rows: Seq<Seq<char>>, x: int, y: int) -> Seq<Seq<char>> {
    if !(0 <= y < rows.len()) {
        rows
    } else if 0 <= x < rows[y].len() - 1 {
        rows.update(y, rows[y].take(x)).insert(y + 1, rows[y].skip(x))
    } else {
        rows.insert(y + 1, Seq::empty())
    }
}

/// A document that has a row keeps at least one row under every edit.
pub proof fn edits_keep_a_row(rows: Seq<Seq<char>>, c: char, x: int, y: int)
    requires
        rows.len() >= 1,
    ensures
        char_inserted(rows, c, x, y).len() >= 1,
        char_deleted(rows, x, y).len() >= 1,
        newline_inserted(rows, x, y).len() >= 1,
        row_deleted(rows, y).len() >= 1,
{
}

/// A backspace at the very start of a document whose first row is empty
/// changes nothing: there is no character to remove and no row above to
/// join.
pub proof fn backspace_at_start_of_blank_document(rows: Seq<Seq<char>>)
    requires
        rows.len() >= 1,
        rows[0].len() == 0,
    ensures
        char_deleted(rows, 0, 0) == rows,
{
}

/// The characters of three runs of rows put together are the characters of
/// the first run, then those of the second, then those of the third.
proof fn lemma_flatten_around(before: Seq<Seq<char>>, middle: Seq<Seq<char>>, after: Seq<Seq<char>>)
    ensures
        (before + middle + after).flatten() == before.flatten() + middle.flatten()
            + after.flatten(),
{
    lemma_flatten_concat(before, middle);
    lemma_flatten_concat(before + middle, after);
}

/// A backspace at the start of row `y`, for `y` above 0, joins the row to
/// the one above: the document has one row less, row `y - 1` holds what it
/// held followed by what row `y` held, every other row is as it was, and
/// the characters of the document, read row after row, are the same.
pub proof fn join_keeps_all_characters(rows: Seq<Seq<char>>, y: int)
    requires
        0 < y < rows.len(),
    ensures
        char_deleted(rows, 0, y).len() == rows.len() - 1,
        char_deleted(rows, 0, y)[y - 1] == rows[y - 1] + rows[y],
        forall|i: int| 0 <= i < y - 1 ==> char_deleted(rows, 0, y)[i] == rows[i],
        forall|i: int| y <= i < rows.len() - 1 ==> char_deleted(rows, 0, y)[i] == rows[i + 1],
        char_deleted(rows, 0, y).flatten() == rows.flatten(),
        char_deleted(rows, 0, y).flatten().len() == rows.flatten().len(),
{
    let joined = char_deleted(rows, 0, y);
    let before = rows.take(y - 1);
    let after = rows.skip(y + 1);
    let pair = seq![rows[y - 1], rows[y]];
    let one = seq![rows[y - 1] + rows[y]];
    assert(rows == before + pair + after);
    assert(joined == before + one + after);
    assert(pair.flatten() == one.flatten()) by {
        reveal_with_fuel(Seq::flatten, 3);
        assert(pair.drop_first() == seq![rows[y]]);
        assert(pair.flatten() == rows[y - 1] + rows[y]);
        assert(one.flatten() == rows[y - 1] + rows[y]);
    }
    lemma_flatten_around(before, pair, after);
    lemma_flatten_around(before, one, after);
}

/// A line break at a column `x` before the last character of row `y` cuts
/// the row in two: the document has one row more, rows `y` and `y + 1`
/// put together hold what row `y` held, every other row is as it was, and
/// the characters of the document, read row after row, are the same.
pub proof fn break_keeps_all_characters(rows: Seq<Seq<char>>, x: int, y: int)
    requires
        0 <= y < rows.len(),
        0 <= x < rows[y].len() - 1,
    ensures
        newline_inserted(rows, x, y).len() == rows.len() + 1,
        newline_inserted(rows, x, y)[y] + newline_inserted(rows, x, y)[y + 1] == rows[y],
        newline_inserted(rows, x, y)[y] == rows[y].take(x),
        newline_inserted(rows, x, y)[y + 1] == rows[y].skip(x),
        forall|i: int| 0 <= i < y ==> newline_inserted(rows, x, y)[i] == rows[i],
        forall|i: int| y + 1 < i <= rows.len() ==> newline_inserted(rows, x, y)[i] == rows[i - 1],
        newline_inserted(rows, x, y).flatten() == rows.flatten(),
        newline_inserted(rows, x, y).flatten().len() == rows.flatten().len(),
{
    let broken = newline_inserted(rows, x, y);
    let before = rows.take(y);
    let after = rows.skip(y + 1);
    let one = seq![rows[y]];
    let pair = seq![rows[y].take(x), rows[y].skip(x)];
    assert(rows[y].take(x) + rows[y].skip(x) == rows[y]);
    assert(rows == before + one + after);
    assert(broken == before + pair + after);
    assert(pair.flatten() == one.flatten()) by {
        reveal_with_fuel(Seq::flatten, 3);
        assert(pair.drop_first() == seq![rows[y].skip(x)]);
        assert(pair.flatten() == rows[y].take(x) + rows[y].skip(x));
        assert(one.flatten() == rows[y]);
    }
    lemma_flatten_around(before, one, after);
    lemma_flatten_around(before, pair, after);
}

} // verus!
