//! What `mosh-server new` prints: the `MOSH CONNECT <port> <key>` line and, optionally, a
//! version banner.

use vstd::prelude::*;

use crate::bootstrap::error::{is_invalid_output, BootstrapError};
use crate::bootstrap::secret::SessionKey;
use crate::config::model::opt_text;
use crate::text::{
    chars_of, copy_chars, decode_lossy, lines, lines_of, parse_unsigned, parse_unsigned_chars, starts_with_chars,
    string_of, trim, trim_chars, utf8_lossy_text, words, words_of,
};

verus! {

// ---------------------------------------------------------------------------
// The session key
// ---------------------------------------------------------------------------

/// The value of a base64 digit (standard alphabet).
pub open spec fn spec_base64_value(byte: u8) -> Option<u8> {
    if 65 <= byte <= 90 {
        Some((byte - 65) as u8)
    } else if 97 <= byte <= 122 {
        Some((byte - 97 + 26) as u8)
    } else if 48 <= byte <= 57 {
        Some((byte - 48 + 52) as u8)
    } else if byte == 43 {
        Some(62u8)
    } else if byte == 47 {
        Some(63u8)
    } else {
        None
    }
}

/// The value of a base64 digit.
pub fn base64_value(byte: u8) -> (r: Option<u8>)
    ensures
        r == spec_base64_value(byte),
{
    if 65 <= byte && byte <= 90 {
        Some(byte - 65)
    } else if 97 <= byte && byte <= 122 {
        Some(byte - 97 + 26)
    } else if 48 <= byte && byte <= 57 {
        Some(byte - 48 + 52)
    } else if byte == 43 {
        Some(62)
    } else if byte == 47 {
        Some(63)
    } else {
        None
    }
}

/// A session key as `mosh-server` prints it: 22 base64 digits without padding, which hold
/// the 16 key bytes and four more bits that are zero.
pub open spec fn valid_key_bytes(b: Seq<u8>) -> bool {
    &&& b.len() == 22
    &&& forall|i: int| 0 <= i < 22 ==> #[trigger] spec_base64_value(b[i]) is Some
    &&& spec_base64_value(b[21])->Some_0 % 16 == 0
}

/// The low `bits` bits of `v`.
pub open spec fn low_bits(v: u32, bits: u8) -> u32 {
    if bits == 0 {
        0
    } else {
        v & (((1u32 << bits) - 1) as u32)
    }
}

proof fn lemma_low_bits(v: u32)
    requires
        v < 64,
    ensures
        low_bits(v, 6) == v,
        low_bits(v, 4) == v & 15,
        low_bits(v, 2) == v & 3,
        (v & 15 == 0) == (v % 16 == 0),
{
    assert(((1u32 << 6u8) - 1) as u32 == 63u32) by (bit_vector);
    assert(((1u32 << 4u8) - 1) as u32 == 15u32) by (bit_vector);
    assert(((1u32 << 2u8) - 1) as u32 == 3u32) by (bit_vector);
    assert(v < 64 ==> v & 63 == v) by (bit_vector);
    assert((v & 15 == 0) == (v % 16 == 0)) by (bit_vector);
}

proof fn lemma_shift_in(acc: u32, v: u32)
    ensures
        ((acc << 6u32) | v) & 15 == v & 15,
        ((acc << 6u32) | v) & 3 == v & 3,
        (0u32 << 6u32) | v == v,
{
    assert(((acc << 6u32) | v) & 15 == v & 15) by (bit_vector);
    assert(((acc << 6u32) | v) & 3 == v & 3) by (bit_vector);
    assert((0u32 << 6u32) | v == v) by (bit_vector);
}

/// Whether `value` is a well-formed session key: its bytes are read as base64 digits, six
/// bits each, and must make exactly 16 bytes with four zero bits left over.
pub fn is_valid_session_key(value: &str) -> (r: bool)
    ensures
        r == valid_key_bytes(vstd::utf8::encode_utf8(value@)),
{
    let bytes = value.as_bytes();
    if bytes.len() != 22 {
        return false;
    }
    let mut accumulator: u32 = 0;
    let mut bits: u8 = 0;
    let mut decoded_length: usize = 0;
    let mut i: usize = 0;
    while i < bytes.len()
        invariant
            bytes@ == vstd::utf8::encode_utf8(value@),
            bytes@.len() == 22,
            i <= 22,
            forall|j: int| 0 <= j < i ==> #[trigger] spec_base64_value(bytes@[j]) is Some,
            bits == 0 || bits == 2 || bits == 4 || bits == 6,
            8 * decoded_length + bits == 6 * i,
            i == 0 ==> accumulator == 0,
            i > 0 ==> accumulator == low_bits(spec_base64_value(bytes@[i - 1])->Some_0 as u32, bits),
        decreases 22 - i,
    {
        let v = match base64_value(bytes[i]) {
            Some(v) => v,
            None => {
                return false;
            },
        };
        let ghost prev_bits = bits;
        let ghost prev = accumulator;
        proof {
            lemma_shift_in(prev, v as u32);
            lemma_low_bits(v as u32);
            if i > 0 {
                lemma_low_bits(spec_base64_value(bytes@[i - 1])->Some_0 as u32);
            }
        }
        accumulator = (accumulator << 6) | (v as u32);
        bits = bits + 6;
        while bits >= 8
            invariant
                prev_bits == 0 || prev_bits == 2 || prev_bits == 4 || prev_bits == 6,
                bits == prev_bits + 6 || (bits == prev_bits - 2 && prev_bits >= 2),
                8 * decoded_length + bits == 6 * (i + 1),
                bits == prev_bits + 6 ==> accumulator == (prev << 6u32) | (v as u32),
                bits == prev_bits - 2 && prev_bits >= 2 ==> accumulator == low_bits(v as u32, bits),
                prev_bits == 0 ==> prev == 0,
                v < 64,
                ((prev << 6u32) | (v as u32)) & 15 == (v as u32) & 15,
                ((prev << 6u32) | (v as u32)) & 3 == (v as u32) & 3,
                low_bits(v as u32, 4) == (v as u32) & 15,
                low_bits(v as u32, 2) == (v as u32) & 3,
            decreases bits,
        {
            bits = bits - 8;
            proof {
                if bits == 4 {
                    assert(1u32 << 4u8 == 16u32) by (bit_vector);
                } else if bits == 2 {
                    assert(1u32 << 2u8 == 4u32) by (bit_vector);
                }
            }
            let mask: u32 = if bits == 0 {
                0
            } else {
                (1u32 << bits) - 1
            };
            let ghost before = accumulator;
            accumulator = accumulator & mask;
            proof {
                assert(before & 0u32 == 0u32) by (bit_vector);
            }
            decoded_length = decoded_length + 1;
        }
        i = i + 1;
    }
    proof {
        lemma_low_bits(spec_base64_value(bytes@[21])->Some_0 as u32);
    }
    decoded_length == 16 && bits == 4 && accumulator == 0
}

// ---------------------------------------------------------------------------
// The version banner
// ---------------------------------------------------------------------------

/// The version in a `mosh-server (mosh) version <v>` line, trimmed, when there is one.
pub open spec fn spec_server_version(line: Seq<char>) -> Option<Seq<char>> {
    let marker = "mosh-server (mosh) version "@;
    if marker.is_prefix_of(line) && trim(line.skip(marker.len() as int)).len() > 0 {
        Some(trim(line.skip(marker.len() as int)))
    } else {
        None
    }
}

fn server_version_chars(line: &[char]) -> (r: Option<Vec<char>>)
    ensures
        match spec_server_version(line@) {
            Some(v) => r is Some && r->Some_0@ == v,
            None => r is None,
        },
{
    let marker = chars_of("mosh-server (mosh) version ");
    if !starts_with_chars(line, marker.as_slice()) {
        return None;
    }
    let rest = copy_chars(line, marker.len(), line.len());
    assert(rest@ =~= line@.skip(marker@.len() as int));
    let v = trim_chars(rest.as_slice());
    if v.len() > 0 {
        Some(v)
    } else {
        None
    }
}

/// The version that a banner line announces.
pub fn parse_server_version(line: &str) -> (r: Option<String>)
    ensures
        opt_text(r) == spec_server_version(line@),
{
    let chars = chars_of(line);
    match server_version_chars(chars.as_slice()) {
        Some(v) => Some(string_of(v.as_slice())),
        None => None,
    }
}

// ---------------------------------------------------------------------------
// The whole output
// ---------------------------------------------------------------------------

/// What `mosh-server new` reports: the UDP port, the session key and its version, if it
/// printed one.
pub struct BootstrapResult {
    pub udp_port: u16,
    pub session_key: SessionKey,
    pub remote_pid: Option<u32>,
    pub server_version: Option<String>,
}

/// What the lines read so far gave: the connect line's port and key, and the last version.
pub struct BootScanModel {
    pub connect: Option<(u16, Seq<char>)>,
    pub version: Option<Seq<char>>,
}

/// One line of server output applied to what was read before. A version banner sets the
/// version; a `MOSH CONNECT ` line must hold a port and a valid key and nothing more, and
/// may come only once.
pub open spec fn spec_boot_line(st: BootScanModel, raw: Seq<char>) -> Result<BootScanModel, Seq<char>> {
    let t = trim(raw);
    let st1 = match spec_server_version(t) {
        Some(v) => BootScanModel { version: Some(v), ..st },
        None => st,
    };
    let marker = "MOSH CONNECT "@;
    if marker.is_prefix_of(t) {
        let ws = words(t.skip(marker.len() as int));
        if ws.len() == 0 {
            Err("missing UDP port"@)
        } else {
            match parse_unsigned(ws[0], 0xffff) {
                None => Err("invalid UDP port"@),
                Some(port) => if ws.len() < 2 {
                    Err("missing session key"@)
                } else if ws.len() > 2 {
                    Err("MOSH CONNECT line has extra fields"@)
                } else if !valid_key_bytes(vstd::utf8::encode_utf8(ws[1])) {
                    Err("session key has invalid format"@)
                } else if st1.connect is Some {
                    Err("multiple MOSH CONNECT lines were found"@)
                } else {
                    Ok(BootScanModel { connect: Some((port as u16, ws[1])), ..st1 })
                },
            }
        }
    } else {
        Ok(st1)
    }
}

/// The scan after the first `k` lines; the first error stops it.
pub open spec fn spec_boot_lines(ls: Seq<Seq<char>>, k: nat) -> Result<BootScanModel, Seq<char>>
    decreases k,
{
    if k == 0 {
        Ok(BootScanModel { connect: None, version: None })
    } else {
        match spec_boot_lines(ls, (k - 1) as nat) {
            Err(m) => Err(m),
            Ok(st) => spec_boot_line(st, ls[k - 1]),
        }
    }
}

/// The port, key and version that the output reports, or the message of what is wrong with
/// it. The version is the last one printed, before or after the connect line.
pub open spec fn spec_server_output(text: Seq<char>) -> Result<(u16, Seq<char>, Option<Seq<char>>), Seq<char>> {
    let ls = lines(text);
    match spec_boot_lines(ls, ls.len()) {
        Err(m) => Err(m),
        Ok(st) => match st.connect {
            None => Err("MOSH CONNECT line was not found"@),
            Some((port, key)) => Ok((port, key, st.version)),
        },
    }
}

/// `r` is what the spec says of the output.
pub open spec fn boot_result_is(
    r: Result<BootstrapResult, BootstrapError>,
    s: Result<(u16, Seq<char>, Option<Seq<char>>), Seq<char>>,
) -> bool {
    match s {
        Ok((port, key, version)) => r is Ok && r->Ok_0.udp_port == port && r->Ok_0.session_key@ == key
            && r->Ok_0.remote_pid is None && opt_text(r->Ok_0.server_version) == version,
        Err(m) => r is Err && is_invalid_output(r->Err_0, m),
    }
}

struct BootState {
    connect: Option<(u16, Vec<char>)>,
    version: Option<Vec<char>>,
}

spec fn boot_view(st: BootState) -> BootScanModel {
    BootScanModel {
        connect: match st.connect {
            Some((p, k)) => Some((p, k@)),
            None => None,
        },
        version: match st.version {
            Some(v) => Some(v@),
            None => None,
        },
    }
}

fn invalid_output(message: &str) -> (e: BootstrapError)
    ensures
        is_invalid_output(e, message@),
{
    BootstrapError::InvalidServerOutput(message.to_owned())
}

fn boot_line(st: BootState, raw: &[char]) -> (r: Result<BootState, BootstrapError>)
    ensures
        match spec_boot_line(boot_view(st), raw@) {
            Ok(m) => r is Ok && boot_view(r->Ok_0) == m,
            Err(m) => r is Err && is_invalid_output(r->Err_0, m),
        },
{
    let t = trim_chars(raw);
    let version = match server_version_chars(t.as_slice()) {
        Some(v) => Some(v),
        None => st.version,
    };
    let marker = chars_of("MOSH CONNECT ");
    if !starts_with_chars(t.as_slice(), marker.as_slice()) {
        return Ok(BootState { connect: st.connect, version });
    }
    let rest = copy_chars(t.as_slice(), marker.len(), t.len());
    assert(rest@ =~= t@.skip(marker@.len() as int));
    let ws = words_of(rest.as_slice());
    let ghost wv = ws@.map_values(|w: Vec<char>| w@);
    if ws.len() == 0 {
        return Err(invalid_output("missing UDP port"));
    }
    assert(wv[0] == ws@[0]@);
    let port = match parse_unsigned_chars(ws[0].as_slice(), 0xffff) {
        Some(p) => p as u16,
        None => {
            return Err(invalid_output("invalid UDP port"));
        },
    };
    if ws.len() < 2 {
        return Err(invalid_output("missing session key"));
    }
    if ws.len() > 2 {
        return Err(invalid_output("MOSH CONNECT line has extra fields"));
    }
    assert(wv[1] == ws@[1]@);
    let key = string_of(ws[1].as_slice());
    if !is_valid_session_key(key.as_str()) {
        return Err(invalid_output("session key has invalid format"));
    }
    if st.connect.is_some() {
        return Err(invalid_output("multiple MOSH CONNECT lines were found"));
    }
    let key_chars = copy_chars(ws[1].as_slice(), 0, ws[1].len());
    assert(key_chars@ =~= wv[1]);
    Ok(BootState { connect: Some((port, key_chars)), version })
}

proof fn lemma_boot_error_persists(ls: Seq<Seq<char>>, k: nat, m: nat)
    requires
        k <= m <= ls.len(),
        spec_boot_lines(ls, k) is Err,
    ensures
        spec_boot_lines(ls, m) == spec_boot_lines(ls, k),
    decreases m - k,
{
    if m > k {
        lemma_boot_error_persists(ls, k, (m - 1) as nat);
    }
}

/// Reads the output of `mosh-server new`.
pub fn parse_mosh_server_output(output: &str) -> (r: Result<BootstrapResult, BootstrapError>)
    ensures
        boot_result_is(r, spec_server_output(output@)),
{
    let chars = chars_of(output);
    let ls = lines_of(chars.as_slice());
    let ghost lsv = ls@.map_values(|l: Vec<char>| l@);
    let mut st = BootState { connect: None, version: None };
    let mut k: usize = 0;
    while k < ls.len()
        invariant
            k <= ls@.len(),
            lsv == ls@.map_values(|l: Vec<char>| l@),
            lsv == lines(output@),
            spec_boot_lines(lsv, k as nat) == Ok::<BootScanModel, Seq<char>>(boot_view(st)),
        decreases ls@.len() - k,
    {
        assert(lsv[k as int] == ls@[k as int]@);
        st = match boot_line(st, ls[k].as_slice()) {
            Ok(s) => s,
            Err(e) => {
                proof {
                    lemma_boot_error_persists(lsv, (k + 1) as nat, lsv.len());
                }
                return Err(e);
            },
        };
        k = k + 1;
    }
    match st.connect {
        None => Err(invalid_output("MOSH CONNECT line was not found")),
        Some((port, key)) => {
            let server_version = match st.version {
                Some(v) => Some(string_of(v.as_slice())),
                None => None,
            };
            let text = string_of(key.as_slice());
            Ok(BootstrapResult {
                udp_port: port,
                session_key: SessionKey::from_server_text(text.as_str()),
                remote_pid: None,
                server_version,
            })
        },
    }
}

/// Reads the raw output of `mosh-server new`, which may hold bytes that are not UTF-8 (a
/// banner, say): they are decoded lossily first.
pub fn parse_mosh_server_output_bytes(output: &[u8]) -> (r: Result<BootstrapResult, BootstrapError>)
    ensures
        boot_result_is(r, spec_server_output(utf8_lossy_text(output@))),
{
    let text = decode_lossy(output);
    parse_mosh_server_output(text.as_str())
}

} // verus!
