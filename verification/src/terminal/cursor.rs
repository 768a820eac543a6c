//! The cursor of a framebuffer.

use vstd::prelude::*;

verus! {

#[derive(Debug, Clone, Copy, PartialEq, Eq, Structural)]
pub struct Cursor {
    pub column: u16,
    pub row: u16,
    pub visible: bool,
}

/// The cursor at the top left corner, visible.
pub open spec fn default_cursor() -> Cursor {
    Cursor { column: 0, row: 0, visible: true }
}

impl Default for Cursor {
    fn default() -> (r: Self)
        ensures
            r == default_cursor(),
    {
        Cursor { column: 0, row: 0, visible: true }
    }
}

} // verus!
