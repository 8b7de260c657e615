//! The visible area of the terminal and the mapping between document
//! positions and terminal cells.
//!
//! Document positions count from zero. Terminal cells count from one and lie
//! inside the visible area.

use vstd::prelude::*;
use vstd::math::min;
use crate::position::Position;

verus! {

/// The number of terminal rows kept free for the status and message bars.
pub const RESERVED_ROWS: u16 = 2;

/// The part of the terminal that shows text.
#[derive(Debug, Clone, Copy, PartialEq, Eq, Structural)]
pub struct Size {
    pub height: u16,
    pub width: u16,
}

/// A mouse button, as the terminal reports it.
#[derive(Debug, Clone, Copy, PartialEq, Eq, Structural)]
pub enum MouseButton {
    Left,
    Right,
    Middle,
    WheelUp,
    WheelDown,
}

/// A mouse event, as the terminal reports it: the column comes first, then
/// the row, both counted from one.
#[derive(Debug, Clone, Copy, PartialEq, Eq, Structural)]
pub enum MouseEvent {
    Press(MouseButton, u16, u16),
    Release(u16, u16),
    Hold(u16, u16),
}

/// The terminal, as far as placing the cursor needs it.
#[derive(Debug)]
pub struct Terminal {
    size: Size,
}

impl View for Terminal {
    type V = Size;

    closed spec fn view(&self) -> Size {
        self.size
    }
}

/// The columns that an offset takes up on screen: none for no offset, else
/// the offset and one column more, as far as eight bits hold it.
pub open spec fn offset_adjustment(x_offset: u8) -> int {
    if x_offset == 0 {
        0
    } else {
        min(x_offset + 1, u8::MAX as int)
    }
}

/// The terminal cell, column first, on which the cursor stands for a
/// document position: one more than the position in each direction, moved
/// right by the columns of the offset, and held inside the visible area.
pub open spec fn physical_cell(position: Position, size: Size) -> (u16, u16) {
    (
        min(position.x + 1 + offset_adjustment(position.x_offset), size.width as int) as u16,
        min(position.y + 1, size.height as int) as u16,
    )
}

/// The document position that a mouse event points at. Only a press carries
/// a place: what `physical_cell` added is taken off again, stopping at zero.
/// Any other event gives the top left position.
pub open spec fn mouse_position(event: MouseEvent, x_offset: u8) -> Position {
    match event {
        MouseEvent::Press(_, column, row) => Position {
            x: (if column - 1 - offset_adjustment(x_offset) > 0 {
                column - 1 - offset_adjustment(x_offset)
            } else {
                0
            }) as usize,
            y: (if row > 0 {
                row - 1
            } else {
                0
            }) as usize,
            x_offset,
        },
        _ => Position { x: 0, y: 0, x_offset: 0 },
    }
}

/// The character that stands for the digit `d`, for `d` from 0 to 9.
pub open spec fn digit(d: int) -> char {
    ('0' as int + d) as char
}

/// The number `n` written in base ten, without leading zeros.
pub open spec fn decimal(n: nat) -> Seq<char>
    decreases n,
{
    if n < 10 {
        seq![digit(n as int)]
    } else {
        decimal(n / 10).push(digit((n % 10) as int))
    }
}

/// The control sequence that moves the cursor to a terminal cell: escape
/// and `[`, the row and the column in base ten with `;` between them, and
/// `H`.
pub open spec fn goto_sequence(column: u16, row: u16) -> Seq<char> {
    seq!['\x1b', '['] + decimal(row as nat) + seq![';'] + decimal(column as nat) + seq!['H']
}

/// `String::from` for `termion::cursor::Goto`: termion joins the escape
/// character and `[`, the second field (the row) in base ten, `;`, the first
/// field (the column) in base ten, and `H`. This conversion accepts every
/// pair of numbers.
#[verifier::external_body]
fn goto(column: u16, row: u16) -> (sequence: String)
    ensures
        sequence@ == goto_sequence(column, row),
{
    String::from(termion::cursor::Goto(column, row))
}

/// A press on the cell where the cursor was placed for a position leads
/// back to that position, as long as the cell lies inside the visible area
/// without having been moved there.
pub proof fn press_on_cursor_cell_gives_position(
    position: Position,
    size: Size,
    button: MouseButton,
)
    requires
        position.x + 1 + offset_adjustment(position.x_offset) <= size.width,
        position.y + 1 <= size.height,
    ensures
        mouse_position(
            MouseEvent::Press(
                button,
                physical_cell(position, size).0,
                physical_cell(position, size).1,
            ),
            position.x_offset,
        ) == position,
{
}

impl Terminal {
    /// The terminal whose window has `columns` columns and `rows` rows. The
    /// visible area is as wide as the window and lower by the reserved rows.
    pub fn new(columns: u16, rows: u16) -> (terminal: Terminal)
        ensures
            terminal@.width == columns,
            terminal@.height == if rows >= RESERVED_ROWS {
                rows - RESERVED_ROWS
            } else {
                0
            },
    {
        Terminal { size: Size { height: rows.saturating_sub(RESERVED_ROWS), width: columns } }
    }

    /// The visible area.
    pub fn size(&self) -> (size: &Size)
        ensures
            *size == self@,
    {
        &self.size
    }

    /// The terminal cell, column first, on which the cursor stands for
    /// `position`.
    pub fn cursor_cell(&self, position: &Position) -> (cell: (u16, u16))
        ensures
            cell == physical_cell(*position, self@),
            cell.0 <= self@.width,
            cell.1 <= self@.height,
    {
        let adjustment: u8 = if position.x_offset > 0 {
            position.x_offset.saturating_add(1)
        } else {
            0
        };
        let width = self.size.width as usize;
        let height = self.size.height as usize;
        let shifted = position.x.saturating_add(1).saturating_add(adjustment as usize);
        let x = if shifted < width {
            shifted
        } else {
            width
        };
        let below = position.y.saturating_add(1);
        let y = if below < height {
            below
        } else {
            height
        };
        (x as u16, y as u16)
    }

    /// The control sequence that puts the cursor on the terminal cell of
    /// `position`. Writing it to the terminal moves the cursor.
    pub fn set_cursor_position(&self, position: &Position) -> (sequence: String)
        ensures
            sequence@ == goto_sequence(
                physical_cell(*position, self@).0,
                physical_cell(*position, self@).1,
            ),
    {
        let (x, y) = self.cursor_cell(position);
        goto(x, y)
    }

    /// The document position that `mouse_event` points at, for a text that
    /// stands `x_offset` columns from the left edge.
    pub fn get_cursor_index_from_mouse_event(mouse_event: MouseEvent, x_offset: u8) -> (position:
        Position)
        ensures
            position == mouse_position(mouse_event, x_offset),
    {
        match mouse_event {
            MouseEvent::Press(_, x, y) => {
                let adjustment: u8 = if x_offset > 0 {
                    x_offset.saturating_add(1)
                } else {
                    0
                };
                Position {
                    x: x.saturating_sub(1).saturating_sub(adjustment as u16) as usize,
                    y: y.saturating_sub(1) as usize,
                    x_offset,
                }
            },
            _ => Position::top_left(),
        }
    }
}

} // verus!
