//! The editing core of a terminal text editor: a line-oriented document
//! buffer and the mapping between document positions and terminal cells.

pub mod document;
pub mod edit;
pub mod position;
pub mod row;
pub mod terminal;
pub mod text;

pub use document::Document;
pub use position::Position;
pub use row::Row;
pub use terminal::{MouseButton, MouseEvent, Size, Terminal};
