pub mod cell;
pub mod cursor;
pub mod diff;

pub mod framebuffer;
pub mod renderer;

pub mod rendition;
pub mod user_input;


use vstd::prelude::*;

verus! {

/// What the terminal layer says of its own state.
pub fn terminal_status() -> (s: &'static str)
    ensures
        s@ == "basic VT terminal implemented"@,
{
    "basic VT terminal implemented"
}

} // verus!
