//! What the client needs of the console and the process environment, as plain values.

pub mod console;
pub mod process;
pub mod terminal_size;
