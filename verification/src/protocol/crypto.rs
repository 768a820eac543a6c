//! AES-128-OCB3 sealing of datagrams under the session key, as Mosh does it.

use aes::Aes128;
use base64::engine::general_purpose::STANDARD_NO_PAD;
use base64::Engine;
use ocb3::aead::{generic_array::GenericArray, AeadInPlace, KeyInit};
use ocb3::{consts::U12, Ocb3};
use vstd::prelude::*;
use vstd::string::StringSliceAdditionalSpecFns;

use crate::protocol::wire::{be_u64_bytes, be_u64_value, push_be_u64, read_be_u64};

verus! {

pub const KEY_LENGTH: usize = 16;

pub const PRINTABLE_KEY_LENGTH: usize = 22;

pub const NONCE_LENGTH: usize = 12;

pub const WIRE_NONCE_LENGTH: usize = 8;

pub const TAG_LENGTH: usize = 16;

pub const MAX_DATAGRAM_LENGTH: usize = 2048;

pub const MAX_PLAINTEXT_LENGTH: usize = MAX_DATAGRAM_LENGTH - WIRE_NONCE_LENGTH - TAG_LENGTH;

/// How many 16-byte blocks one session key may encrypt.
pub const MAX_ENCRYPTED_BLOCKS: u64 = 0x8000_0000_0000;

/// A bound on input lengths: the OCB3 implementation handles every input shorter than this on
/// every target.
pub const OCB_MAX_INPUT: usize = 0x10_0000;

/// Errors of sealing and opening datagrams.
#[derive(Debug, PartialEq, Eq)]
pub enum CryptoError {
    InvalidKey(String),
    InvalidPacket(String),
    Encrypt,
    Decrypt,
    KeyUsageLimit,
}

/// The 16-byte AES key of a session.
#[derive(Clone)]
pub struct SessionKey {
    bytes: [u8; KEY_LENGTH],
}

impl View for SessionKey {
    type V = Seq<u8>;

    closed spec fn view(&self) -> Seq<u8> {
        self.bytes@
    }
}

/// A character of the printable (base64) key form: an ASCII letter or digit, `/` or `+`.
pub open spec fn is_key_char(b: u8) -> bool {
    (0x30 <= b <= 0x39) || (0x61 <= b <= 0x7a) || (0x41 <= b <= 0x5a) || b == 0x2f || b == 0x2b
}

/// Whether `b` has the shape of a printable key: 22 base64 characters.
pub open spec fn printable_key_shape(b: Seq<u8>) -> bool {
    b.len() == PRINTABLE_KEY_LENGTH && forall|i: int| 0 <= i < b.len() ==> #[trigger] is_key_char(b[i])
}

/// What `base64`'s `STANDARD_NO_PAD` engine decodes from `input`, or `None` when it refuses it.
pub uninterp spec fn base64_no_pad_decoded(input: Seq<u8>) -> Option<Seq<u8>>;

/// Decodes `input` with `base64::engine::general_purpose::STANDARD_NO_PAD` (`Engine::decode`).
/// Claims: the result is what `base64_no_pad_decoded` names for `input`.
#[verifier::external_body]
fn decode_base64_no_pad(input: &[u8]) -> (r: Option<Vec<u8>>)
    ensures
        r is Some <==> base64_no_pad_decoded(input@) is Some,
        r matches Some(v) ==> v@ == base64_no_pad_decoded(input@)->Some_0,
{
    STANDARD_NO_PAD.decode(input).ok()
}

fn has_printable_key_shape(bytes: &[u8]) -> (b: bool)
    ensures
        b == printable_key_shape(bytes@),
{
    if bytes.len() != PRINTABLE_KEY_LENGTH {
        return false;
    }
    let mut i: usize = 0;
    while i < bytes.len()
        invariant
            i <= bytes@.len(),
            forall|j: int| 0 <= j < i ==> #[trigger] is_key_char(bytes@[j]),
        decreases bytes@.len() - i,
    {
        let b = bytes[i];
        if !((0x30 <= b && b <= 0x39) || (0x61 <= b && b <= 0x7a) || (0x41 <= b && b <= 0x5a) || b == 0x2f
            || b == 0x2b) {
            assert(!is_key_char(bytes@[i as int]));
            return false;
        }
        i = i + 1;
    }
    true
}

impl SessionKey {
    pub fn from_bytes(bytes: [u8; KEY_LENGTH]) -> (r: Self)
        ensures
            r@ == bytes@,
    {
        SessionKey { bytes }
    }

    /// The key whose bytes a printable key decoded to.
    pub fn from_decoded(decoded: &[u8]) -> (r: Result<Self, CryptoError>)
        ensures
            decoded@.len() == KEY_LENGTH ==> r is Ok && r->Ok_0@ == decoded@,
            decoded@.len() != KEY_LENGTH ==> (r matches Err(CryptoError::InvalidKey(m))
                && m@ == "base64 value did not decode to 16 bytes"@),
    {
        if decoded.len() != KEY_LENGTH {
            return Err(CryptoError::InvalidKey("base64 value did not decode to 16 bytes".to_owned()));
        }
        let mut bytes = [0u8; KEY_LENGTH];
        let mut i: usize = 0;
        while i < KEY_LENGTH
            invariant
                decoded@.len() == KEY_LENGTH,
                i <= KEY_LENGTH,
                bytes@.len() == KEY_LENGTH,
                forall|j: int| 0 <= j < i ==> bytes@[j] == decoded@[j],
            decreases KEY_LENGTH - i,
        {
            bytes[i] = decoded[i];
            i = i + 1;
        }
        assert(bytes@ =~= decoded@);
        Ok(SessionKey { bytes })
    }

    pub fn from_printable(value: &str) -> (r: Result<Self, CryptoError>)
        ensures
            !printable_key_shape(value.spec_bytes()) ==> (r matches Err(CryptoError::InvalidKey(m))
                && m@ == "expected 22 base64 characters"@),
            printable_key_shape(value.spec_bytes()) ==> match base64_no_pad_decoded(value.spec_bytes()) {
                None => r matches Err(CryptoError::InvalidKey(m)) && m@ == "invalid base64 encoding"@,
                Some(d) => if d.len() == KEY_LENGTH {
                    r is Ok && r->Ok_0@ == d
                } else {
                    r matches Err(CryptoError::InvalidKey(m)) && m@ == "base64 value did not decode to 16 bytes"@
                },
            },
    {
        let bytes = value.as_bytes();
        let shape_ok = has_printable_key_shape(bytes);
        if !shape_ok {
            return Err(CryptoError::InvalidKey("expected 22 base64 characters".to_owned()));
        }
        let decoded = match decode_base64_no_pad(bytes) {
            Some(d) => d,
            None => return Err(CryptoError::InvalidKey("invalid base64 encoding".to_owned())),
        };
        Self::from_decoded(decoded.as_slice())
    }

    /// A copy of the key.
    pub fn duplicate(&self) -> (r: Self)
        ensures
            r@ == self@,
    {
        SessionKey { bytes: self.bytes }
    }

    /// How the key shows itself in diagnostics: its length, never its bytes.
    pub fn debug_text(&self) -> (s: String)
        ensures
            s@ == "SessionKey { len: 16, redacted: true }"@,
    {
        "SessionKey { len: 16, redacted: true }".to_owned()
    }
}

/// The 12-byte OCB nonce of a datagram: four zero bytes, then its 64-bit nonce value.
pub open spec fn nonce_of(value: u64) -> Seq<u8> {
    seq![0u8, 0u8, 0u8, 0u8] + be_u64_bytes(value)
}

/// The ciphertext and the tag that AES-128-OCB3 (12-byte nonce, 16-byte tag, no associated
/// data) gives for `plaintext` under `key` and `nonce`.
pub uninterp spec fn ocb3_sealed(key: Seq<u8>, nonce: Seq<u8>, plaintext: Seq<u8>) -> (Seq<u8>, Seq<u8>);

/// The plaintext that AES-128-OCB3 recovers from `ciphertext` with `tag`, or `None` when the
/// tag does not authenticate it.
pub uninterp spec fn ocb3_opened(key: Seq<u8>, nonce: Seq<u8>, ciphertext: Seq<u8>, tag: Seq<u8>) -> Option<Seq<u8>>;

/// Encrypts with `ocb3::Ocb3<aes::Aes128, U12>` (`KeyInit::new`, then
/// `AeadInPlace::encrypt_in_place_detached` with no associated data), on a plaintext shorter
/// than 2^20 bytes: the source panics on longer ones on 32-bit targets. Claims: it succeeds;
/// the ciphertext and tag are those
/// `ocb3_sealed` names; the ciphertext is as long as the plaintext and the tag is 16 bytes;
/// opening them with the same key and nonce gives the plaintext back.
#[verifier::external_body]
fn ocb3_seal(key: &[u8], nonce: &[u8], plaintext: &[u8]) -> (r: Option<(Vec<u8>, Vec<u8>)>)
    requires
        key@.len() == KEY_LENGTH,
        nonce@.len() == NONCE_LENGTH,
        plaintext@.len() < OCB_MAX_INPUT,
    ensures
        r is Some,
        r matches Some((c, t)) ==> (c@, t@) == ocb3_sealed(key@, nonce@, plaintext@),
        r matches Some((c, t)) ==> c@.len() == plaintext@.len() && t@.len() == TAG_LENGTH,
        r matches Some((c, t)) ==> ocb3_opened(key@, nonce@, c@, t@) == Some(plaintext@),
{
    let cipher = Ocb3::<Aes128, U12>::new(GenericArray::from_slice(key));
    let mut ciphertext = plaintext.to_vec();
    let tag = cipher.encrypt_in_place_detached(GenericArray::from_slice(nonce), &[], &mut ciphertext).ok()?;
    Some((ciphertext, tag.to_vec()))
}

/// Decrypts with `ocb3::Ocb3<aes::Aes128, U12>` (`AeadInPlace::decrypt_in_place_detached` with
/// no associated data), on a ciphertext shorter than 2^20 bytes: the source panics on longer
/// ones on 32-bit targets. Claims: the result is what `ocb3_opened` names.
#[verifier::external_body]
fn ocb3_open(key: &[u8], nonce: &[u8], ciphertext: &[u8], tag: &[u8]) -> (r: Option<Vec<u8>>)
    requires
        key@.len() == KEY_LENGTH,
        nonce@.len() == NONCE_LENGTH,
        tag@.len() == TAG_LENGTH,
        ciphertext@.len() < OCB_MAX_INPUT,
    ensures
        r is Some <==> ocb3_opened(key@, nonce@, ciphertext@, tag@) is Some,
        r matches Some(p) ==> p@ == ocb3_opened(key@, nonce@, ciphertext@, tag@)->Some_0,
{
    let cipher = Ocb3::<Aes128, U12>::new(GenericArray::from_slice(key));
    let mut plaintext = ciphertext.to_vec();
    cipher.decrypt_in_place_detached(GenericArray::from_slice(nonce), &[], &mut plaintext, GenericArray::from_slice(tag)).ok()?;
    Some(plaintext)
}

/// The packet that sealing `plaintext` under `key` with nonce value `nonce_value` gives: the
/// nonce value, the ciphertext, the tag.
pub open spec fn spec_seal_packet(key: Seq<u8>, nonce_value: u64, plaintext: Seq<u8>) -> Seq<u8> {
    let (c, t) = ocb3_sealed(key, nonce_of(nonce_value), plaintext);
    be_u64_bytes(nonce_value) + c + t
}

/// The nonce value and plaintext of a packet under `key`, or `None` when it is too short, when
/// its ciphertext is longer than the cipher accepts on every target, or when it does not
/// authenticate.
pub open spec fn spec_open_packet(key: Seq<u8>, packet: Seq<u8>) -> Option<(u64, Seq<u8>)> {
    if packet.len() < WIRE_NONCE_LENGTH + TAG_LENGTH {
        None
    } else if packet.len() - WIRE_NONCE_LENGTH - TAG_LENGTH >= OCB_MAX_INPUT {
        None
    } else {
        let nonce_value = be_u64_value(packet);
        let end = packet.len() - TAG_LENGTH;
        match ocb3_opened(key, nonce_of(nonce_value), packet.subrange(8, end), packet.subrange(end, packet.len() as int)) {
            Some(p) => Some((nonce_value, p)),
            None => None,
        }
    }
}

/// The number of 16-byte blocks that `length` bytes take.
pub open spec fn block_count(length: nat) -> nat {
    (length + 15) / 16
}

/// Seals and opens datagrams under one key, counting the blocks it has encrypted.
pub struct CryptoSession {
    key: SessionKey,
    blocks_encrypted: u64,
}

impl CryptoSession {
    pub closed spec fn key(&self) -> Seq<u8> {
        self.key@
    }

    pub closed spec fn blocks_encrypted(&self) -> u64 {
        self.blocks_encrypted
    }

    pub fn new(key: SessionKey) -> (r: Self)
        ensures
            r.key() == key@,
            r.blocks_encrypted() == 0,
    {
        CryptoSession { key, blocks_encrypted: 0 }
    }

    fn nonce_bytes(value: u64) -> (v: Vec<u8>)
        ensures
            v@ == nonce_of(value),
    {
        let mut v: Vec<u8> = Vec::new();
        v.push(0);
        v.push(0);
        v.push(0);
        v.push(0);
        push_be_u64(&mut v, value);
        assert(v@ =~= nonce_of(value));
        v
    }

    pub fn encrypt(&mut self, nonce_value: u64, plaintext: &[u8]) -> (r: Result<Vec<u8>, CryptoError>)
        ensures
            final(self).key() == old(self).key(),
            plaintext@.len() > MAX_PLAINTEXT_LENGTH ==> (r matches Err(CryptoError::InvalidPacket(m))
                && m@ == "plaintext exceeds the Mosh datagram limit"@),
            plaintext@.len() > MAX_PLAINTEXT_LENGTH ==> final(self).blocks_encrypted() == old(self).blocks_encrypted(),
            plaintext@.len() <= MAX_PLAINTEXT_LENGTH && old(self).blocks_encrypted() + block_count(plaintext@.len())
                > MAX_ENCRYPTED_BLOCKS ==> (r matches Err(CryptoError::KeyUsageLimit))
                && final(self).blocks_encrypted() == old(self).blocks_encrypted(),
            plaintext@.len() <= MAX_PLAINTEXT_LENGTH && old(self).blocks_encrypted() + block_count(plaintext@.len())
                <= MAX_ENCRYPTED_BLOCKS ==> r is Ok
                && r->Ok_0@ == spec_seal_packet(old(self).key(), nonce_value, plaintext@)
                && final(self).blocks_encrypted() == old(self).blocks_encrypted() + block_count(plaintext@.len()),
            r matches Ok(packet) ==> spec_open_packet(old(self).key(), packet@) == Some((nonce_value, plaintext@)),
    {
        if plaintext.len() > MAX_PLAINTEXT_LENGTH {
            return Err(CryptoError::InvalidPacket("plaintext exceeds the Mosh datagram limit".to_owned()));
        }
        let blocks: u64 = ((plaintext.len() + 15) / 16) as u64;
        if self.blocks_encrypted > MAX_ENCRYPTED_BLOCKS - blocks {
            return Err(CryptoError::KeyUsageLimit);
        }
        self.blocks_encrypted = self.blocks_encrypted + blocks;
        let nonce = Self::nonce_bytes(nonce_value);
        let (ciphertext, tag) = match ocb3_seal(self.key.bytes.as_slice(), nonce.as_slice(), plaintext) {
            Some(sealed) => sealed,
            None => return Err(CryptoError::Encrypt),
        };
        let mut packet: Vec<u8> = Vec::new();
        push_be_u64(&mut packet, nonce_value);
        crate::protocol::proto::extend_bytes(&mut packet, ciphertext.as_slice());
        crate::protocol::proto::extend_bytes(&mut packet, tag.as_slice());
        proof {
            let p = packet@;
            let end = p.len() - TAG_LENGTH;
            crate::protocol::wire::lemma_be_u64_round_trip(nonce_value);
            assert(p.take(8) =~= be_u64_bytes(nonce_value));
            assert(be_u64_value(p) == be_u64_value(p.take(8)));
            assert(p.subrange(8, end) =~= ciphertext@);
            assert(p.subrange(end, p.len() as int) =~= tag@);
        }
        Ok(packet)
    }

    pub fn decrypt(&self, packet: &[u8]) -> (r: Result<(u64, Vec<u8>), CryptoError>)
        ensures
            packet@.len() < WIRE_NONCE_LENGTH + TAG_LENGTH ==> (r matches Err(CryptoError::InvalidPacket(m))
                && m@ == "packet is shorter than nonce and authentication tag"@),
            packet@.len() >= WIRE_NONCE_LENGTH + TAG_LENGTH && spec_open_packet(self.key(), packet@) is None
                ==> (r matches Err(CryptoError::Decrypt)),
            spec_open_packet(self.key(), packet@) matches Some((n, p)) ==> r matches Ok((rn, rp)) && rn == n && rp@ == p,
    {
        if packet.len() < WIRE_NONCE_LENGTH + TAG_LENGTH {
            return Err(CryptoError::InvalidPacket("packet is shorter than nonce and authentication tag".to_owned()));
        }
        if packet.len() - WIRE_NONCE_LENGTH - TAG_LENGTH >= OCB_MAX_INPUT {
            return Err(CryptoError::Decrypt);
        }
        let nonce_value = read_be_u64(packet);
        let end = packet.len() - TAG_LENGTH;
        let ciphertext = crate::protocol::proto::copy_range(packet, WIRE_NONCE_LENGTH, end);
        let tag = crate::protocol::proto::copy_range(packet, end, packet.len());
        let nonce = Self::nonce_bytes(nonce_value);
        match ocb3_open(self.key.bytes.as_slice(), nonce.as_slice(), ciphertext.as_slice(), tag.as_slice()) {
            Some(plaintext) => Ok((nonce_value, plaintext)),
            None => Err(CryptoError::Decrypt),
        }
    }
}

} // verus!
