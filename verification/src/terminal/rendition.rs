//! How a cell is drawn: intensity, colours, underline, inverse.

use vstd::prelude::*;

verus! {

#[derive(Debug, Clone, Copy, PartialEq, Eq, Structural)]
pub enum Intensity {
    Normal,
    Bold,
}

#[derive(Debug, Clone, Copy, PartialEq, Eq, Structural)]
pub enum Color {
    Default,
    Indexed(u8),
}

#[derive(Debug, Clone, Copy, PartialEq, Eq, Structural)]
pub struct Rendition {
    pub intensity: Intensity,
    pub foreground: Color,
    pub background: Color,
    pub underline: bool,
    pub inverse: bool,
}

/// Plain drawing: normal intensity, default colours, no underline, not inverse.
pub open spec fn default_rendition() -> Rendition {
    Rendition {
        intensity: Intensity::Normal,
        foreground: Color::Default,
        background: Color::Default,
        underline: false,
        inverse: false,
    }
}

impl Default for Rendition {
    fn default() -> (r: Self)
        ensures
            r == default_rendition(),
    {
        Rendition {
            intensity: Intensity::Normal,
            foreground: Color::Default,
            background: Color::Default,
            underline: false,
            inverse: false,
        }
    }
}

} // verus!
