//! The cursor of a buffer and its sticky column.

use vstd::prelude::*;

verus! {

/// The column a cursor remembers while it sits on lines too short for it.
#[derive(Debug, Clone, Copy, PartialEq, Eq, Structural)]
pub enum Sticky {
    /// Nothing remembered.
    Free,
    /// The column to come back to once a line is long enough again.
    Pinned(usize),
}

/// A cursor: a cluster index on its line and a row of the viewport.
#[derive(Debug, Clone, Copy, PartialEq, Eq, Structural)]
pub struct Cursor {
    /// Index of the grapheme cluster under the cursor.
    pub column: usize,
    /// Row within the viewport.
    pub row: usize,
    /// The remembered column, if any.
    pub sticky: Sticky,
}

impl Cursor {
    /// A remembered column is never left of the live one.
    pub open spec fn wf(&self) -> bool {
        self.sticky matches Sticky::Pinned(p) ==> p >= self.column
    }

    /// Whether a remembered column fits within `last`.
    pub open spec fn restorable(&self, last: nat) -> bool {
        self.sticky matches Sticky::Pinned(p) && p <= last
    }

    /// The cursor at the top left, remembering nothing.
    pub open spec fn origin_spec() -> Cursor {
        Cursor { column: 0, row: 0, sticky: Sticky::Free }
    }

    /// The cursor at the top left, remembering nothing.
    pub fn origin() -> (r: Cursor)
        ensures
            r == Cursor::origin_spec(),
    {
        Cursor { column: 0, row: 0, sticky: Sticky::Free }
    }

    /// The cursor fitted to a line whose last valid column is `last`.
    pub open spec fn fitted(self, last: nat) -> Cursor {
        if self.restorable(last) {
            Cursor { column: self.sticky->Pinned_0, sticky: Sticky::Free, ..self }
        } else if self.column < last {
            if self.sticky is Pinned {
                Cursor { column: last as usize, ..self }
            } else {
                self
            }
        } else if self.column > last {
            Cursor {
                column: last as usize,
                sticky: if self.sticky is Free {
                    Sticky::Pinned(self.column)
                } else {
                    self.sticky
                },
                ..self
            }
        } else {
            self
        }
    }

    /// Fits the column to a line whose last valid column is `last`, after a
    /// vertical move: a remembered column that fits again is restored; a
    /// column past `last` is remembered and pulled back to `last`; while a
    /// column is remembered, a shorter live column follows the line's end.
    pub fn preserve_x(&mut self, last: usize)
        requires
            old(self).wf(),
        ensures
            final(self).wf(),
            final(self).column <= last,
            *final(self) == old(self).fitted(last as nat),
    {
        match self.sticky {
            Sticky::Pinned(p) if p <= last => {
                self.column = p;
                self.sticky = Sticky::Free;
            },
            _ => {
                if self.column < last {
                    if matches!(self.sticky, Sticky::Pinned(_)) {
                        self.column = last;
                    }
                } else if self.column > last {
                    if matches!(self.sticky, Sticky::Free) {
                        self.sticky = Sticky::Pinned(self.column);
                    }
                    self.column = last;
                }
            },
        }
    }
}

} // verus!
