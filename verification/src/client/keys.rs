//! What a key press, a paste or a resize of the local terminal sends to the remote host.

use vstd::prelude::*;

use crate::text::push_char;

verus! {

/// The keys that the client tells apart.
#[derive(Debug, Clone, Copy, PartialEq, Eq, Structural)]
pub enum KeyCode {
    Backspace,
    Enter,
    Tab,
    Esc,
    Left,
    Right,
    Up,
    Down,
    Home,
    End,
    Delete,
    Insert,
    PageUp,
    PageDown,
    Char(char),
    Other,
}

/// A pressed key with the Control and Alt modifiers.
#[derive(Debug, Clone, Copy, PartialEq, Eq, Structural)]
pub struct KeyPress {
    pub code: KeyCode,
    pub control: bool,
    pub alt: bool,
}

/// The byte that Control together with `c` sends: letters give 1 to 26, `@`, `` ` `` and
/// space give 0, `[ \ ] ^ _` give 27 to 31 (and `~` 30), `?` gives DEL; other characters
/// give none.
pub open spec fn spec_control_byte(c: char) -> Option<u8> {
    if c == '@' || c == '`' || c == ' ' {
        Some(0u8)
    } else if ('A' <= c && c <= 'Z') || ('a' <= c && c <= 'z') {
        Some(((c as u32) % 32) as u8)
    } else if c == '[' {
        Some(0x1bu8)
    } else if c == '\\' {
        Some(0x1cu8)
    } else if c == ']' {
        Some(0x1du8)
    } else if c == '^' || c == '~' {
        Some(0x1eu8)
    } else if c == '_' {
        Some(0x1fu8)
    } else if c == '?' {
        Some(0x7fu8)
    } else {
        None
    }
}

/// The byte that Control together with a character sends.
pub fn control_byte(character: char) -> (r: Option<u8>)
    ensures
        r == spec_control_byte(character),
{
    if !(character <= '\u{7f}') {
        return None;
    }
    let byte = character as u8;
    if byte == 64 || byte == 96 || byte == 32 {
        Some(0)
    } else if (65 <= byte && byte <= 90) || (97 <= byte && byte <= 122) {
        assert(byte & 0x1f == byte % 32) by (bit_vector);
        Some(byte & 0x1f)
    } else if byte == 91 {
        Some(0x1b)
    } else if byte == 92 {
        Some(0x1c)
    } else if byte == 93 {
        Some(0x1d)
    } else if byte == 94 || byte == 126 {
        Some(0x1e)
    } else if byte == 95 {
        Some(0x1f)
    } else if byte == 63 {
        Some(0x7f)
    } else {
        None
    }
}

/// The bytes of a key without modifiers other than those of `Char`: DEL for Backspace, CR,
/// TAB, ESC, and the VT sequences of the cursor and editing keys.
pub open spec fn plain_key_bytes(code: KeyCode) -> Option<Seq<u8>> {
    match code {
        KeyCode::Backspace => Some(seq![0x7fu8]),
        KeyCode::Enter => Some(seq![0x0du8]),
        KeyCode::Tab => Some(seq![0x09u8]),
        KeyCode::Esc => Some(seq![0x1bu8]),
        KeyCode::Left => Some(seq![0x1bu8, 0x5bu8, 0x44u8]),
        KeyCode::Right => Some(seq![0x1bu8, 0x5bu8, 0x43u8]),
        KeyCode::Up => Some(seq![0x1bu8, 0x5bu8, 0x41u8]),
        KeyCode::Down => Some(seq![0x1bu8, 0x5bu8, 0x42u8]),
        KeyCode::Home => Some(seq![0x1bu8, 0x5bu8, 0x48u8]),
        KeyCode::End => Some(seq![0x1bu8, 0x5bu8, 0x46u8]),
        KeyCode::Delete => Some(seq![0x1bu8, 0x5bu8, 0x33u8, 0x7eu8]),
        KeyCode::Insert => Some(seq![0x1bu8, 0x5bu8, 0x32u8, 0x7eu8]),
        KeyCode::PageUp => Some(seq![0x1bu8, 0x5bu8, 0x35u8, 0x7eu8]),
        KeyCode::PageDown => Some(seq![0x1bu8, 0x5bu8, 0x36u8, 0x7eu8]),
        KeyCode::Char(_) => None,
        KeyCode::Other => None,
    }
}

/// The bytes that a key press sends: a character as UTF-8 (with Control, its control byte,
/// or nothing when it has none); other keys as `plain_key_bytes`, after ESC when Alt is held.
pub open spec fn spec_key_bytes(key: KeyPress) -> Option<Seq<u8>> {
    match key.code {
        KeyCode::Char(c) => if key.control {
            match spec_control_byte(c) {
                Some(b) => Some(seq![b]),
                None => None,
            }
        } else {
            Some(vstd::utf8::encode_utf8(seq![c]))
        },
        KeyCode::Esc => plain_key_bytes(key.code),
        _ => match plain_key_bytes(key.code) {
            Some(b) => if key.alt {
                Some(seq![0x1bu8] + b)
            } else {
                Some(b)
            },
            None => None,
        },
    }
}

/// The bytes that Alt adds in front of a key's own: ESC, or nothing.
pub open spec fn alt_prefix(alt: bool) -> Seq<u8> {
    if alt {
        seq![0x1bu8]
    } else {
        seq![]
    }
}

/// The arrow keys send the ANSI cursor sequences ESC [ A, ESC [ B, ESC [ C and ESC [ D for
/// up, down, right and left (after one more ESC when Alt is held, whatever Control is); the
/// four are different from each other.
pub proof fn lemma_arrow_keys(control: bool, alt: bool)
    ensures
        spec_key_bytes(KeyPress { code: KeyCode::Up, control, alt }) == Some(alt_prefix(alt) + seq![0x1bu8, 0x5bu8, 'A' as u8]),
        spec_key_bytes(KeyPress { code: KeyCode::Down, control, alt }) == Some(alt_prefix(alt) + seq![0x1bu8, 0x5bu8, 'B' as u8]),
        spec_key_bytes(KeyPress { code: KeyCode::Right, control, alt }) == Some(alt_prefix(alt) + seq![0x1bu8, 0x5bu8, 'C' as u8]),
        spec_key_bytes(KeyPress { code: KeyCode::Left, control, alt }) == Some(alt_prefix(alt) + seq![0x1bu8, 0x5bu8, 'D' as u8]),
        forall|a: KeyCode, b: KeyCode|
            (a == KeyCode::Up || a == KeyCode::Down || a == KeyCode::Right || a == KeyCode::Left) && (b == KeyCode::Up
                || b == KeyCode::Down || b == KeyCode::Right || b == KeyCode::Left) && a != b ==> #[trigger] spec_key_bytes(
                KeyPress { code: a, control, alt },
            ) != #[trigger] spec_key_bytes(KeyPress { code: b, control, alt }),
{
    assert(('A' as u8) == 0x41u8 && ('B' as u8) == 0x42u8 && ('C' as u8) == 0x43u8 && ('D' as u8) == 0x44u8);
    assert(alt_prefix(alt) + seq![0x1bu8, 0x5bu8, 0x41u8] =~= if alt { seq![0x1bu8] + seq![0x1bu8, 0x5bu8, 0x41u8] } else { seq![0x1bu8, 0x5bu8, 0x41u8] });
    assert(alt_prefix(alt) + seq![0x1bu8, 0x5bu8, 0x42u8] =~= if alt { seq![0x1bu8] + seq![0x1bu8, 0x5bu8, 0x42u8] } else { seq![0x1bu8, 0x5bu8, 0x42u8] });
    assert(alt_prefix(alt) + seq![0x1bu8, 0x5bu8, 0x43u8] =~= if alt { seq![0x1bu8] + seq![0x1bu8, 0x5bu8, 0x43u8] } else { seq![0x1bu8, 0x5bu8, 0x43u8] });
    assert(alt_prefix(alt) + seq![0x1bu8, 0x5bu8, 0x44u8] =~= if alt { seq![0x1bu8] + seq![0x1bu8, 0x5bu8, 0x44u8] } else { seq![0x1bu8, 0x5bu8, 0x44u8] });
    assert forall|a: KeyCode, b: KeyCode|
        (a == KeyCode::Up || a == KeyCode::Down || a == KeyCode::Right || a == KeyCode::Left) && (b == KeyCode::Up
            || b == KeyCode::Down || b == KeyCode::Right || b == KeyCode::Left) && a != b implies #[trigger] spec_key_bytes(
            KeyPress { code: a, control, alt },
        ) != #[trigger] spec_key_bytes(KeyPress { code: b, control, alt }) by {
        let x = spec_key_bytes(KeyPress { code: a, control, alt })->Some_0;
        let y = spec_key_bytes(KeyPress { code: b, control, alt })->Some_0;
        let k: int = alt_prefix(alt).len() as int + 2;
        assert(x[k] != y[k]);
    }
}

fn utf8_bytes(c: char) -> (v: Vec<u8>)
    ensures
        v@ == vstd::utf8::encode_utf8(seq![c]),
{
    let mut s = String::new();
    push_char(&mut s, c);
    let b = s.as_str().as_bytes();
    let mut v: Vec<u8> = Vec::new();
    let mut i: usize = 0;
    while i < b.len()
        invariant
            i <= b@.len(),
            v@ == b@.take(i as int),
        decreases b@.len() - i,
    {
        v.push(b[i]);
        i = i + 1;
        assert(v@ =~= b@.take(i as int));
    }
    assert(b@.take(i as int) =~= b@);
    assert(s@ =~= seq![c]);
    v
}

fn plain_bytes(code: KeyCode) -> (r: Option<Vec<u8>>)
    ensures
        match plain_key_bytes(code) {
            Some(b) => r is Some && r->Some_0@ == b,
            None => r is None,
        },
{
    let v: Vec<u8> = match code {
        KeyCode::Backspace => vec![0x7f],
        KeyCode::Enter => vec![0x0d],
        KeyCode::Tab => vec![0x09],
        KeyCode::Esc => vec![0x1b],
        KeyCode::Left => vec![0x1b, 0x5b, 0x44],
        KeyCode::Right => vec![0x1b, 0x5b, 0x43],
        KeyCode::Up => vec![0x1b, 0x5b, 0x41],
        KeyCode::Down => vec![0x1b, 0x5b, 0x42],
        KeyCode::Home => vec![0x1b, 0x5b, 0x48],
        KeyCode::End => vec![0x1b, 0x5b, 0x46],
        KeyCode::Delete => vec![0x1b, 0x5b, 0x33, 0x7e],
        KeyCode::Insert => vec![0x1b, 0x5b, 0x32, 0x7e],
        KeyCode::PageUp => vec![0x1b, 0x5b, 0x35, 0x7e],
        KeyCode::PageDown => vec![0x1b, 0x5b, 0x36, 0x7e],
        KeyCode::Char(_) => {
            return None;
        },
        KeyCode::Other => {
            return None;
        },
    };
    assert(v@ =~= plain_key_bytes(code)->Some_0);
    Some(v)
}

/// The bytes that a key press sends to the remote host.
pub fn key_event_bytes(key: KeyPress) -> (r: Option<Vec<u8>>)
    ensures
        match spec_key_bytes(key) {
            Some(b) => r is Some && r->Some_0@ == b,
            None => r is None,
        },
{
    match key.code {
        KeyCode::Char(c) => {
            if key.control {
                match control_byte(c) {
                    Some(b) => {
                        let v = vec![b];
                        assert(v@ =~= seq![b]);
                        Some(v)
                    },
                    None => None,
                }
            } else {
                Some(utf8_bytes(c))
            }
        },
        KeyCode::Esc => plain_bytes(key.code),
        _ => match plain_bytes(key.code) {
            Some(b) => {
                if key.alt {
                    let mut v: Vec<u8> = vec![0x1b];
                    let mut i: usize = 0;
                    while i < b.len()
                        invariant
                            i <= b@.len(),
                            v@ == seq![0x1bu8] + b@.take(i as int),
                        decreases b@.len() - i,
                    {
                        v.push(b[i]);
                        i = i + 1;
                        assert(v@ =~= seq![0x1bu8] + b@.take(i as int));
                    }
                    assert(b@.take(i as int) =~= b@);
                    Some(v)
                } else {
                    Some(b)
                }
            },
            None => None,
        },
    }
}

/// Control-Q ends the session locally instead of being sent.
pub fn is_local_quit(key: &KeyPress) -> (b: bool)
    ensures
        b == (key.code == KeyCode::Char('q') && key.control),
{
    match key.code {
        KeyCode::Char(c) => c == 'q' && key.control,
        _ => false,
    }
}

} // verus!
