//! Logical positions inside a document.

use vstd::prelude::*;

verus! {

/// A place in a document, counted from zero.
///
/// `x` is the column, `y` the row, and `x_offset` the number of terminal
/// columns that stand to the left of the text.
#[derive(Clone, Copy, Debug, PartialEq, Eq, Structural)]
pub struct Position {
    pub x: usize,
    pub y: usize,
    pub x_offset: u8,
}

impl Position {
    /// The first column of the first row, with nothing to the left of the text.
    pub fn top_left() -> (p: Position)
        ensures
            p == (Position { x: 0, y: 0, x_offset: 0 }),
    {
        Position { x: 0, y: 0, x_offset: 0 }
    }
}

} // verus!
