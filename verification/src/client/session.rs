//! The decisions of an interactive session that do not need the network or the console:
//! what an input event sends, the terminal size and locale to announce, and the ssh timeout.

use vstd::prelude::*;

use crate::client::cli::GlobalOptions;
use crate::client::keys::{is_local_quit, key_event_bytes, spec_key_bytes, KeyCode, KeyPress};
use crate::config::model::DEFAULT_CONNECT_TIMEOUT_SECS;
use crate::platform::terminal_size::TerminalSize;
use crate::text::{chars_of, trim, trim_chars};

verus! {

/// What the local terminal reported.
#[derive(Debug, Clone)]
pub enum InputEvent {
    Paste(String),
    Key(KeyPress),
    Resize { columns: u16, rows: u16 },
    Other,
}

/// What the session does about an input event.
#[derive(Debug, Clone, PartialEq, Eq)]
pub enum InputAction {
    Quit,
    Send(Vec<u8>),
    Resize { columns: u16, rows: u16 },
    Ignore,
}

/// The bracketed-paste form of pasted text: `ESC [200~`, the UTF-8 text, `ESC [201~`.
pub open spec fn paste_bytes(text: Seq<char>) -> Seq<u8> {
    seq![0x1bu8, 0x5bu8, 0x32u8, 0x30u8, 0x30u8, 0x7eu8] + vstd::utf8::encode_utf8(text) + seq![
        0x1bu8,
        0x5bu8,
        0x32u8,
        0x30u8,
        0x31u8,
        0x7eu8,
    ]
}

fn push_bytes(v: &mut Vec<u8>, b: &[u8])
    ensures
        final(v)@ == old(v)@ + b@,
{
    let ghost start = v@;
    let mut i: usize = 0;
    while i < b.len()
        invariant
            i <= b@.len(),
            v@ == start + b@.take(i as int),
        decreases b@.len() - i,
    {
        v.push(b[i]);
        i = i + 1;
        assert(v@ =~= start + b@.take(i as int));
    }
    assert(b@.take(i as int) =~= b@);
}

/// What an input event makes the session do: Control-Q quits; a key sends its bytes, if it
/// has any; a non-empty paste is sent bracketed; a resize is announced with at least one
/// column and row.
pub fn input_action(event: InputEvent) -> (a: InputAction)
    ensures
        match event {
            InputEvent::Paste(t) => if t@.len() == 0 {
                a == InputAction::Ignore
            } else {
                a matches InputAction::Send(b) && b@ == paste_bytes(t@)
            },
            InputEvent::Key(k) => if k.code == KeyCode::Char('q') && k.control {
                a == InputAction::Quit
            } else {
                match spec_key_bytes(k) {
                    Some(b) => a matches InputAction::Send(v) && v@ == b,
                    None => a == InputAction::Ignore,
                }
            },
            InputEvent::Resize { columns, rows } => a == InputAction::Resize {
                columns: if columns == 0 {
                    1
                } else {
                    columns
                },
                rows: if rows == 0 {
                    1
                } else {
                    rows
                },
            },
            InputEvent::Other => a == InputAction::Ignore,
        },
{
    match event {
        InputEvent::Paste(text) => {
            if text.as_str().is_empty() {
                return InputAction::Ignore;
            }
            let mut bytes: Vec<u8> = vec![0x1b, 0x5b, 0x32, 0x30, 0x30, 0x7e];
            push_bytes(&mut bytes, text.as_str().as_bytes());
            let tail: Vec<u8> = vec![0x1b, 0x5b, 0x32, 0x30, 0x31, 0x7e];
            push_bytes(&mut bytes, tail.as_slice());
            assert(bytes@ =~= paste_bytes(text@));
            InputAction::Send(bytes)
        },
        InputEvent::Key(key) => {
            if is_local_quit(&key) {
                return InputAction::Quit;
            }
            match key_event_bytes(key) {
                Some(bytes) => InputAction::Send(bytes),
                None => InputAction::Ignore,
            }
        },
        InputEvent::Resize { columns, rows } => InputAction::Resize {
            columns: if columns == 0 {
                1
            } else {
                columns
            },
            rows: if rows == 0 {
                1
            } else {
                rows
            },
        },
        InputEvent::Other => InputAction::Ignore,
    }
}

/// The size announced to the server: the window's, with at least one column and row, or
/// 80 by 24 when it is not known.
pub fn session_size(size: Option<TerminalSize>) -> (s: TerminalSize)
    ensures
        s == match size {
            Some(t) => TerminalSize {
                columns: if t.columns == 0 {
                    1
                } else {
                    t.columns
                },
                rows: if t.rows == 0 {
                    1
                } else {
                    t.rows
                },
            },
            None => TerminalSize { columns: 80, rows: 24 },
        },
{
    match size {
        Some(t) => TerminalSize {
            columns: if t.columns == 0 {
                1
            } else {
                t.columns
            },
            rows: if t.rows == 0 {
                1
            } else {
                t.rows
            },
        },
        None => TerminalSize { columns: 80, rows: 24 },
    }
}

/// The locale given to `mosh-server`: the first of `LC_ALL` and `LANG` that is set, unless it
/// is blank; `en_US.UTF-8` otherwise.
pub open spec fn spec_locale(lc_all: Option<Seq<char>>, lang: Option<Seq<char>>) -> Seq<char> {
    let first = if lc_all is Some {
        lc_all
    } else {
        lang
    };
    match first {
        Some(v) => if trim(v).len() > 0 {
            v
        } else {
            "en_US.UTF-8"@
        },
        None => "en_US.UTF-8"@,
    }
}

/// The locale for the remote server, from the values of `LC_ALL` and `LANG`.
pub fn choose_locale(lc_all: Option<&str>, lang: Option<&str>) -> (s: String)
    ensures
        s@ == spec_locale(
            match lc_all {
                Some(v) => Some(v@),
                None => None,
            },
            match lang {
                Some(v) => Some(v@),
                None => None,
            },
        ),
{
    let first = match lc_all {
        Some(v) => Some(v),
        None => lang,
    };
    match first {
        Some(v) => {
            let c = chars_of(v);
            let t = trim_chars(c.as_slice());
            if t.len() > 0 {
                v.to_owned()
            } else {
                "en_US.UTF-8".to_owned()
            }
        },
        None => "en_US.UTF-8".to_owned(),
    }
}

/// How long ssh may take, in seconds: `--connect-timeout`, else the default.
pub fn connect_timeout_secs(global: &GlobalOptions) -> (s: u64)
    ensures
        s == match global.overrides.connect_timeout_secs {
            Some(t) => t,
            None => DEFAULT_CONNECT_TIMEOUT_SECS,
        },
{
    match global.overrides.connect_timeout_secs {
        Some(t) => t,
        None => DEFAULT_CONNECT_TIMEOUT_SECS,
    }
}

} // verus!
