//! The size of the terminal window.

use vstd::prelude::*;

use crate::text::{chars_of, parse_unsigned, parse_unsigned_chars, trim, trim_chars};

verus! {

/// Columns and rows of the terminal window.
#[derive(Debug, Clone, Copy, PartialEq, Eq, Structural)]
pub struct TerminalSize {
    pub columns: u16,
    pub rows: u16,
}

/// A dimension as an environment variable (`COLUMNS`, `LINES`) gives it: trimmed, a `u16`.
pub open spec fn spec_env_dimension(value: Seq<char>) -> Option<u16> {
    match parse_unsigned(trim(value), 0xffff) {
        Some(n) => Some(n as u16),
        None => None,
    }
}

fn env_dimension(value: &str) -> (r: Option<u16>)
    ensures
        r == spec_env_dimension(value@),
{
    let chars = chars_of(value);
    let t = trim_chars(chars.as_slice());
    match parse_unsigned_chars(t.as_slice(), 0xffff) {
        Some(n) => Some(n as u16),
        None => None,
    }
}

/// The size that the `COLUMNS` and `LINES` variables give, when both are set and read as
/// `u16`.
pub fn size_from_env(columns: Option<&str>, lines: Option<&str>) -> (r: Option<TerminalSize>)
    ensures
        r == match (columns, lines) {
            (Some(c), Some(l)) => match (spec_env_dimension(c@), spec_env_dimension(l@)) {
                (Some(a), Some(b)) => Some(TerminalSize { columns: a, rows: b }),
                _ => None,
            },
            _ => None,
        },
{
    let c = match columns {
        Some(c) => c,
        None => {
            return None;
        },
    };
    let l = match lines {
        Some(l) => l,
        None => {
            return None;
        },
    };
    match (env_dimension(c), env_dimension(l)) {
        (Some(a), Some(b)) => Some(TerminalSize { columns: a, rows: b }),
        _ => None,
    }
}

/// How many cells lie from `low` to `high`, both included; none when `high` is below `low`.
pub open spec fn window_extent(low: i16, high: i16) -> int {
    if high - low + 1 < 0 {
        0
    } else {
        high - low + 1
    }
}

/// The size of a console window given by its edges, when both extents fit in a `u16`.
pub fn size_from_window(left: i16, top: i16, right: i16, bottom: i16) -> (r: Option<TerminalSize>)
    ensures
        r == if window_extent(left, right) <= 0xffff && window_extent(top, bottom) <= 0xffff {
            Some(TerminalSize {
                columns: window_extent(left, right) as u16,
                rows: window_extent(top, bottom) as u16,
            })
        } else {
            None
        },
{
    let columns: i32 = right as i32 - left as i32 + 1;
    let rows: i32 = bottom as i32 - top as i32 + 1;
    let columns: i32 = if columns < 0 { 0 } else { columns };
    let rows: i32 = if rows < 0 { 0 } else { rows };
    if columns > 0xffff || rows > 0xffff {
        return None;
    }
    Some(TerminalSize { columns: columns as u16, rows: rows as u16 })
}

} // verus!
