//! One character cell of a framebuffer.

use vstd::prelude::*;

use crate::terminal::rendition::{default_rendition, Rendition};

verus! {

#[derive(Debug, Clone, PartialEq, Eq)]
pub struct Cell {
    pub text: String,
    pub rendition: Rendition,
}

/// The value of a cell.
pub struct CellModel {
    pub text: Seq<char>,
    pub rendition: Rendition,
}

impl View for Cell {
    type V = CellModel;

    open spec fn view(&self) -> CellModel {
        CellModel { text: self.text@, rendition: self.rendition }
    }
}

/// An empty (space) cell drawn with `rendition`.
pub open spec fn blank_cell(rendition: Rendition) -> CellModel {
    CellModel { text: " "@, rendition }
}

impl Default for Cell {
    fn default() -> (r: Self)
        ensures
            r@ == blank_cell(default_rendition()),
    {
        Cell { text: " ".to_owned(), rendition: Rendition::default() }
    }
}

impl Cell {
    pub fn blank(rendition: Rendition) -> (r: Self)
        ensures
            r@ == blank_cell(rendition),
    {
        Cell { text: " ".to_owned(), rendition }
    }

    /// A copy of the cell.
    pub fn duplicate(&self) -> (r: Self)
        ensures
            r@ == self@,
    {
        Cell { text: self.text.clone(), rendition: self.rendition }
    }

    /// Whether two cells hold the same text drawn the same way.
    pub fn same_as(&self, other: &Cell) -> (b: bool)
        ensures
            b == (self@ == other@),
    {
        self.text == other.text && self.rendition == other.rendition
    }
}

} // verus!
