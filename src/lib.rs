//! In-memory text model of a modal line editor: lines of grapheme clusters
//! with tab-expanded renderings, a cursor with a sticky column, and a buffer
//! that moves and edits through them.

use vstd::prelude::*;

pub mod buffer;
pub mod cursor;
pub mod row;

verus! {

/// Width of a tab stop, in screen columns.
pub const TAB_STOP: usize = 8;

/// What an editing operation reports when it cannot be carried out.
#[derive(Debug, Clone, Copy, PartialEq, Eq, Structural)]
pub enum EditError {
    /// An index lies beyond the line or the document.
    OutOfBounds,
    /// A removal was asked of a line with no graphemes.
    EmptyLine,
    /// Document content that is not valid UTF-8.
    Malformed,
}

} // verus!
