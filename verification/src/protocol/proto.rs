//! Protobuf (proto2) encoding and decoding of the SSP messages.

use vstd::prelude::*;

verus! {

/// Errors of protobuf decoding.
#[derive(Debug, Clone, PartialEq, Eq)]
pub enum ProtoError {
    Truncated,
    InvalidVarint,
    InvalidWireType(u8),
    InvalidLength,
    InvalidField(&'static str),
}

/// The text that describes a protobuf error.
pub open spec fn proto_error_text(e: ProtoError) -> Seq<char> {
    match e {
        ProtoError::Truncated => "truncated protobuf message"@,
        ProtoError::InvalidVarint => "invalid protobuf varint"@,
        ProtoError::InvalidWireType(value) => "invalid protobuf wire type: "@ + crate::text::decimal(value as nat),
        ProtoError::InvalidLength => "invalid protobuf length"@,
        ProtoError::InvalidField(name) => "invalid protobuf field: "@ + name@,
    }
}

impl ProtoError {
    /// The text that describes the error.
    pub fn describe(&self) -> (s: String)
        ensures
            s@ == proto_error_text(*self),
    {
        match self {
            ProtoError::Truncated => "truncated protobuf message".to_owned(),
            ProtoError::InvalidVarint => "invalid protobuf varint".to_owned(),
            ProtoError::InvalidWireType(value) => {
                let mut s = "invalid protobuf wire type: ".to_owned();
                crate::text::push_decimal(&mut s, *value as u64);
                s
            },
            ProtoError::InvalidLength => "invalid protobuf length".to_owned(),
            ProtoError::InvalidField(name) => {
                let mut s = "invalid protobuf field: ".to_owned();
                crate::text::push_str(&mut s, name);
                s
            },
        }
    }
}

// ---------------------------------------------------------------------------
// Varints
// ---------------------------------------------------------------------------

/// The base-128 little-endian encoding of a varint.
pub open spec fn varint_bytes(v: u64) -> Seq<u8>
    decreases v,
{
    if v < 128 {
        seq![v as u8]
    } else {
        proof {
            assert(v >= 128 ==> (v >> 7u64) < v) by (bit_vector);
        }
        seq![((v & 0x7f) | 0x80) as u8] + varint_bytes(v >> 7u64)
    }
}

/// Decoding a varint that starts at offset 0 of `input`, having read `i` bytes that
/// accumulated to `acc`; at most ten bytes are read.
pub open spec fn read_varint_from(input: Seq<u8>, i: nat, acc: u64) -> Result<(u64, nat), ProtoError>
    decreases 10 - i,
{
    if i >= 10 {
        Err(ProtoError::InvalidVarint)
    } else if i >= input.len() {
        Err(ProtoError::Truncated)
    } else {
        let b = input[i as int];
        let acc2 = acc | (((b & 0x7f) as u64) << ((7 * i) as u64));
        if b & 0x80 == 0 {
            Ok((acc2, i + 1))
        } else {
            read_varint_from(input, i + 1, acc2)
        }
    }
}

/// Decoding a varint at the front of `input`: its value and its length in bytes.
pub open spec fn spec_read_varint(input: Seq<u8>) -> Result<(u64, nat), ProtoError> {
    read_varint_from(input, 0, 0)
}

proof fn lemma_read_varint_from_len(input: Seq<u8>, i: nat, acc: u64)
    ensures
        read_varint_from(input, i, acc) matches Ok((v, n)) ==> i < n && n <= 10 && n <= input.len(),
    decreases 10 - i,
{
    if i < 10 && i < input.len() {
        let b = input[i as int];
        let acc2 = acc | (((b & 0x7f) as u64) << ((7 * i) as u64));
        if b & 0x80 != 0 {
            lemma_read_varint_from_len(input, i + 1, acc2);
        }
    }
}

/// A decoded varint consumes between one and ten bytes of the input.
pub proof fn lemma_read_varint_len(input: Seq<u8>)
    ensures
        spec_read_varint(input) matches Ok((v, n)) ==> 1 <= n && n <= 10 && n <= input.len(),
{
    lemma_read_varint_from_len(input, 0, 0);
}

/// Reading the encoding of `v0`, of which `k` bytes are already consumed into `acc`.
proof fn lemma_read_varint_encoded(input: Seq<u8>, prefix: Seq<u8>, rest: Seq<u8>, k: nat, v0: u64, acc: u64)
    requires
        k <= 9,
        prefix.len() == k,
        input == prefix + varint_bytes(v0 >> ((7 * k) as u64)) + rest,
        acc == v0 & (((1u64 << ((7 * k) as u64)) - 1) as u64),
    ensures
        read_varint_from(input, k, acc) == Ok::<(u64, nat), ProtoError>(
            (v0, k + varint_bytes(v0 >> ((7 * k) as u64)).len()),
        ),
    decreases 9 - k,
{
    let s: u64 = (7 * k) as u64;
    let w: u64 = v0 >> s;
    let b = input[k as int];
    assert(s <= 63);
    if w < 128 {
        assert(varint_bytes(w) == seq![w as u8]);
        assert(b == w as u8);
        assert(w < 128 ==> (w as u8) & 0x80 == 0) by (bit_vector);
        assert(((w as u8) & 0x7f) as u64 == w) by (bit_vector)
            requires w < 128;
        assert(acc | (w << s) == v0) by (bit_vector)
            requires w == v0 >> s, acc == v0 & (((1u64 << s) - 1) as u64), s <= 63, w < 128;
    } else {
        assert(varint_bytes(w) == seq![((w & 0x7f) | 0x80) as u8] + varint_bytes(w >> 7u64));
        assert(b == ((w & 0x7f) | 0x80) as u8);
        assert(k < 9) by {
            if k == 9 {
                assert(v0 >> 63u64 < 128) by (bit_vector);
            }
        }
        let s2: u64 = (7 * (k + 1)) as u64;
        assert(s2 == s + 7);
        assert((((w & 0x7f) | 0x80) as u8) & 0x80 != 0) by (bit_vector);
        assert(((((w & 0x7f) | 0x80) as u8) & 0x7f) as u64 == w & 0x7f) by (bit_vector);
        let acc2 = acc | ((w & 0x7f) << s);
        assert(acc2 == v0 & (((1u64 << s2) - 1) as u64)) by (bit_vector)
            requires w == v0 >> s, acc == v0 & (((1u64 << s) - 1) as u64), s <= 56, s2 == s + 7,
                acc2 == acc | ((w & 0x7f) << s);
        assert(w >> 7u64 == v0 >> s2) by (bit_vector)
            requires w == v0 >> s, s <= 56, s2 == s + 7;
        let prefix2 = prefix.push(((w & 0x7f) | 0x80) as u8);
        assert(input =~= prefix2 + varint_bytes(v0 >> s2) + rest);
        lemma_read_varint_encoded(input, prefix2, rest, k + 1, v0, acc2);
    }
}

/// A varint reads back as the value it encodes, whatever follows it.
pub proof fn lemma_varint_round_trip(v: u64, rest: Seq<u8>)
    ensures
        spec_read_varint(varint_bytes(v) + rest) == Ok::<(u64, nat), ProtoError>((v, varint_bytes(v).len())),
        1 <= varint_bytes(v).len() <= 10,
{
    assert(v >> 0u64 == v) by (bit_vector);
    assert(v & (((1u64 << 0u64) - 1) as u64) == 0) by (bit_vector);
    assert(varint_bytes(v) + rest =~= Seq::<u8>::empty() + varint_bytes(v >> 0u64) + rest);
    lemma_read_varint_encoded(varint_bytes(v) + rest, Seq::empty(), rest, 0, v, 0);
    lemma_read_varint_len(varint_bytes(v) + rest);
    lemma_varint_bytes_nonempty(v);
}

proof fn lemma_varint_bytes_nonempty(v: u64)
    ensures
        varint_bytes(v).len() >= 1,
{
}


/// Appends the varint encoding of `value`.
fn put_raw_varint(output: &mut Vec<u8>, value: u64)
    ensures
        final(output)@ == old(output)@ + varint_bytes(value),
    decreases value,
{
    if value < 0x80 {
        output.push(value as u8);
        assert(output@ =~= old(output)@ + varint_bytes(value));
    } else {
        let byte = ((#[verifier::truncate] (value as u8)) & 0x7f) | 0x80;
        assert(((value as u8) & 0x7f) | 0x80 == ((value & 0x7f) | 0x80) as u8) by (bit_vector);
        output.push(byte);
        assert(value >= 0x80 ==> (value >> 7u64) < value) by (bit_vector);
        put_raw_varint(output, value >> 7);
        assert(output@ =~= old(output)@ + varint_bytes(value));
    }
}

/// Reads the varint that starts at `start`: its value and the offset just past it.
fn read_varint(input: &[u8], start: usize) -> (r: Result<(u64, usize), ProtoError>)
    requires
        start <= input@.len(),
    ensures
        spec_read_varint(input@.skip(start as int)) is Ok ==> r is Ok
            && r->Ok_0.0 == spec_read_varint(input@.skip(start as int))->Ok_0.0
            && r->Ok_0.1 == start + spec_read_varint(input@.skip(start as int))->Ok_0.1,
        spec_read_varint(input@.skip(start as int)) is Err ==> r is Err
            && r->Err_0 == spec_read_varint(input@.skip(start as int))->Err_0,
{
    proof {
        lemma_read_varint_len(input@.skip(start as int));
    }
    let ghost rest = input@.skip(start as int);
    let mut value: u64 = 0;
    let mut i: usize = 0;
    while i < 10
        invariant
            i <= 10,
            start <= input@.len(),
            rest == input@.skip(start as int),
            spec_read_varint(rest) == read_varint_from(rest, i as nat, value),
        decreases 10 - i,
    {
        if i >= input.len() - start {
            return Err(ProtoError::Truncated);
        }
        let byte = input[start + i];
        assert(byte == rest[i as int]);
        let chunk = (byte & 0x7f) as u64;
        let shift = (7 * i) as u64;
        value = value | (chunk << shift);
        if byte & 0x80 == 0 {
            return Ok((value, start + i + 1));
        }
        i = i + 1;
    }
    Err(ProtoError::InvalidVarint)
}


// ---------------------------------------------------------------------------
// Fields
// ---------------------------------------------------------------------------

/// A decoded protobuf field: its number, wire type, and either a varint or a byte payload.
pub struct FieldSpec {
    pub number: u32,
    pub wire_type: u8,
    pub varint: u64,
    pub bytes: Seq<u8>,
}

/// A decoded field whose payload borrows from the input.
pub struct Field<'a> {
    pub number: u32,
    pub wire_type: u8,
    pub varint: u64,
    pub bytes: &'a [u8],
}

impl<'a> Field<'a> {
    pub open spec fn spec(&self) -> FieldSpec {
        FieldSpec { number: self.number, wire_type: self.wire_type, varint: self.varint, bytes: self.bytes@ }
    }
}

pub open spec fn field_specs<'a>(fields: Seq<Field<'a>>) -> Seq<FieldSpec> {
    fields.map_values(|f: Field<'a>| f.spec())
}

/// Decoding one field at the front of a non-empty input: the field and the bytes it spans.
pub open spec fn spec_parse_one(input: Seq<u8>) -> Result<(FieldSpec, nat), ProtoError> {
    match spec_read_varint(input) {
        Err(e) => Err(e),
        Ok((key, n)) => {
            let number = key / 8;
            let wire = (key % 8) as u8;
            let rest = input.skip(n as int);
            if number > u32::MAX {
                Err(ProtoError::InvalidVarint)
            } else if number == 0 {
                Err(ProtoError::InvalidVarint)
            } else if wire == 0 {
                match spec_read_varint(rest) {
                    Err(e) => Err(e),
                    Ok((v, m)) => Ok((FieldSpec { number: number as u32, wire_type: 0, varint: v, bytes: seq![] }, n + m)),
                }
            } else if wire == 1 {
                if rest.len() < 8 {
                    Err(ProtoError::Truncated)
                } else {
                    Ok((FieldSpec { number: number as u32, wire_type: 1, varint: 0, bytes: rest.take(8) }, n + 8))
                }
            } else if wire == 2 {
                match spec_read_varint(rest) {
                    Err(e) => Err(e),
                    Ok((len, m)) => if len > usize::MAX {
                        Err(ProtoError::InvalidLength)
                    } else if rest.len() - m < len {
                        Err(ProtoError::Truncated)
                    } else {
                        Ok((FieldSpec { number: number as u32, wire_type: 2, varint: 0, bytes: rest.subrange(m as int, m + len) }, (n + m + len) as nat))
                    },
                }
            } else if wire == 5 {
                if rest.len() < 4 {
                    Err(ProtoError::Truncated)
                } else {
                    Ok((FieldSpec { number: number as u32, wire_type: 5, varint: 0, bytes: rest.take(4) }, n + 4))
                }
            } else {
                Err(ProtoError::InvalidWireType(wire))
            }
        },
    }
}

/// Decoding a whole input as a sequence of fields.
#[verifier::opaque]
pub open spec fn spec_parse_fields(input: Seq<u8>) -> Result<Seq<FieldSpec>, ProtoError>
    decreases input.len(),
{
    if input.len() == 0 {
        Ok(seq![])
    } else {
        match spec_parse_one(input) {
            Err(e) => Err(e),
            Ok((f, n)) => if 0 < n <= input.len() {
                match spec_parse_fields(input.skip(n as int)) {
                    Err(e) => Err(e),
                    Ok(fs) => Ok(seq![f] + fs),
                }
            } else {
                Err(ProtoError::Truncated)
            },
        }
    }
}

pub open spec fn prepend_fields(prefix: Seq<FieldSpec>, r: Result<Seq<FieldSpec>, ProtoError>) -> Result<Seq<FieldSpec>, ProtoError> {
    match r {
        Ok(fs) => Ok(prefix + fs),
        Err(e) => Err(e),
    }
}

proof fn lemma_parse_one_len(input: Seq<u8>)
    ensures
        spec_parse_one(input) matches Ok((f, n)) ==> 0 < n <= input.len(),
{
    lemma_read_varint_len(input);
    if let Ok((key, n)) = spec_read_varint(input) {
        lemma_read_varint_len(input.skip(n as int));
    }
}

/// Decodes one field at `start` and returns it with the offset just past it.
fn parse_one<'a>(input: &'a [u8], start: usize) -> (r: Result<(Field<'a>, usize), ProtoError>)
    requires
        start < input@.len(),
    ensures
        match spec_parse_one(input@.skip(start as int)) {
            Ok((f, n)) => r is Ok && r->Ok_0.0.spec() == f && r->Ok_0.1 == start + n,
            Err(e) => r == Err::<(Field<'a>, usize), ProtoError>(e),
        },
{
    let ghost rest0 = input@.skip(start as int);
    assert(rest0.len() == input@.len() - start);
    proof {
        lemma_read_varint_len(rest0);
    }
    let (key, after_key) = match read_varint(input, start) {
        Ok(pair) => pair,
        Err(e) => return Err(e),
    };
    let ghost n = (after_key - start) as nat;
    assert(spec_read_varint(rest0) == Ok::<(u64, nat), ProtoError>((key, n)));
    assert(input@.skip(after_key as int) =~= rest0.skip(n as int));
    let number64 = key >> 3;
    assert(key >> 3u64 == key / 8) by (bit_vector);
    assert(key & 7u64 == key % 8) by (bit_vector);
    if number64 > 0xffff_ffff {
        return Err(ProtoError::InvalidVarint);
    }
    let number = number64 as u32;
    let wire_type = (key & 0x07) as u8;
    if number == 0 {
        return Err(ProtoError::InvalidVarint);
    }
    if wire_type == 0 {
        let (value, end) = match read_varint(input, after_key) {
            Ok(pair) => pair,
            Err(e) => return Err(e),
        };
        let empty: &[u8] = &[];
        assert(empty@ =~= Seq::<u8>::empty());
        Ok((Field { number, wire_type, varint: value, bytes: empty }, end))
    } else if wire_type == 1 {
        if input.len() - after_key < 8 {
            return Err(ProtoError::Truncated);
        }
        let bytes = &input[after_key..after_key + 8];
        assert(bytes@ =~= rest0.skip(n as int).take(8));
        Ok((Field { number, wire_type, varint: 0, bytes }, after_key + 8))
    } else if wire_type == 2 {
        let (length, after_len) = match read_varint(input, after_key) {
            Ok(pair) => pair,
            Err(e) => return Err(e),
        };
        proof {
            lemma_read_varint_len(input@.skip(after_key as int));
        }
        if length > usize::MAX as u64 {
            return Err(ProtoError::InvalidLength);
        }
        let length = length as usize;
        if input.len() - after_len < length {
            return Err(ProtoError::Truncated);
        }
        let bytes = &input[after_len..after_len + length];
        let ghost m = (after_len - after_key) as int;
        assert(bytes@ =~= rest0.skip(n as int).subrange(m, m + length));
        Ok((Field { number, wire_type, varint: 0, bytes }, after_len + length))
    } else if wire_type == 5 {
        if input.len() - after_key < 4 {
            return Err(ProtoError::Truncated);
        }
        let bytes = &input[after_key..after_key + 4];
        assert(bytes@ =~= rest0.skip(n as int).take(4));
        Ok((Field { number, wire_type, varint: 0, bytes }, after_key + 4))
    } else {
        Err(ProtoError::InvalidWireType(wire_type))
    }
}

/// Decodes the whole input as a sequence of fields.
fn parse_fields<'a>(input: &'a [u8]) -> (r: Result<Vec<Field<'a>>, ProtoError>)
    ensures
        match spec_parse_fields(input@) {
            Ok(fs) => r is Ok && field_specs(r->Ok_0@) == fs,
            Err(e) => r == Err::<Vec<Field<'a>>, ProtoError>(e),
        },
{
    reveal(spec_parse_fields);
    let mut fields: Vec<Field<'a>> = Vec::new();
    let mut position: usize = 0;
    assert(input@.skip(0) =~= input@);
    while position < input.len()
        invariant
            position <= input@.len(),
            spec_parse_fields(input@) == prepend_fields(field_specs(fields@), spec_parse_fields(input@.skip(position as int))),
        decreases input@.len() - position,
    {
        let ghost rest = input@.skip(position as int);
        proof {
            reveal(spec_parse_fields);
            lemma_parse_one_len(rest);
        }
        let (field, next) = match parse_one(input, position) {
            Ok(pair) => pair,
            Err(e) => return Err(e),
        };
        let ghost n = (next - position) as int;
        assert(input@.skip(next as int) =~= rest.skip(n));
        let ghost before = fields@;
        fields.push(field);
        assert(field_specs(fields@) =~= field_specs(before) + seq![field.spec()]);
        assert(field_specs(before) + (seq![field.spec()] + field_specs(fields@).skip(field_specs(fields@).len() as int)) =~= field_specs(fields@));
        proof {
            match spec_parse_fields(input@.skip(next as int)) {
                Ok(fs) => {
                    assert(field_specs(before) + (seq![field.spec()] + fs) =~= field_specs(fields@) + fs);
                },
                Err(e) => {},
            }
        }
        position = next;
    }
    assert(input@.skip(position as int) =~= Seq::<u8>::empty());
    assert(spec_parse_fields(Seq::<u8>::empty()) == Ok::<Seq<FieldSpec>, ProtoError>(seq![]));
    assert(field_specs(fields@) + Seq::<FieldSpec>::empty() =~= field_specs(fields@));
    Ok(fields)
}


// ---------------------------------------------------------------------------
// Field encoding
// ---------------------------------------------------------------------------

/// The encoded key of a field.
pub open spec fn key_bytes(number: u32, wire_type: u8) -> Seq<u8> {
    varint_bytes((number as u64 * 8 + wire_type as u64) as u64)
}

/// The encoding of a varint field.
pub open spec fn varint_field(number: u32, value: u64) -> Seq<u8> {
    key_bytes(number, 0) + varint_bytes(value)
}

/// The encoding of a length-delimited field.
pub open spec fn bytes_field(number: u32, bytes: Seq<u8>) -> Seq<u8> {
    key_bytes(number, 2) + varint_bytes(bytes.len() as u64) + bytes
}

/// Field numbers that fit a 32-bit key.
pub open spec fn valid_field_number(number: u32) -> bool {
    1 <= number <= 0x1fff_ffff
}

fn put_key(output: &mut Vec<u8>, number: u32, wire_type: u8)
    requires
        valid_field_number(number),
        wire_type < 8,
    ensures
        final(output)@ == old(output)@ + key_bytes(number, wire_type),
{
    let key = (number << 3) | (wire_type as u32);
    assert((number << 3u32) | (wire_type as u32) == number * 8 + wire_type) by (bit_vector)
        requires number <= 0x1fff_ffff, wire_type < 8;
    put_raw_varint(output, key as u64);
}

fn put_varint(output: &mut Vec<u8>, number: u32, value: u64)
    requires
        valid_field_number(number),
    ensures
        final(output)@ == old(output)@ + varint_field(number, value),
{
    put_key(output, number, 0);
    put_raw_varint(output, value);
    assert(output@ =~= old(output)@ + varint_field(number, value));
}

fn put_bytes(output: &mut Vec<u8>, number: u32, bytes: &[u8])
    requires
        valid_field_number(number),
    ensures
        final(output)@ == old(output)@ + bytes_field(number, bytes@),
{
    put_key(output, number, 2);
    put_raw_varint(output, bytes.len() as u64);
    extend_bytes(output, bytes);
    assert(output@ =~= old(output)@ + bytes_field(number, bytes@));
}

/// Appends `bytes` to `output`.
pub fn extend_bytes(output: &mut Vec<u8>, bytes: &[u8])
    ensures
        final(output)@ == old(output)@ + bytes@,
{
    let mut i: usize = 0;
    while i < bytes.len()
        invariant
            i <= bytes@.len(),
            output@ == old(output)@ + bytes@.take(i as int),
        decreases bytes@.len() - i,
    {
        output.push(bytes[i]);
        i = i + 1;
        assert(output@ =~= old(output)@ + bytes@.take(i as int));
    }
    assert(bytes@.take(i as int) =~= bytes@);
}

proof fn lemma_key_round_trip(number: u32, wire_type: u8, rest: Seq<u8>)
    requires
        valid_field_number(number),
        wire_type < 8,
    ensures
        ({
            let key = (number as u64 * 8 + wire_type as u64) as u64;
            &&& spec_read_varint(key_bytes(number, wire_type) + rest) == Ok::<(u64, nat), ProtoError>((key, key_bytes(number, wire_type).len()))
            &&& key / 8 == number
            &&& (key % 8) as u8 == wire_type
        }),
{
    lemma_varint_round_trip((number as u64 * 8 + wire_type as u64) as u64, rest);
}

/// A varint field decodes to itself, whatever follows it.
pub proof fn lemma_parse_varint_field(number: u32, value: u64, rest: Seq<u8>)
    requires
        valid_field_number(number),
    ensures
        spec_parse_fields(varint_field(number, value) + rest) == prepend_fields(
            seq![FieldSpec { number, wire_type: 0, varint: value, bytes: seq![] }],
            spec_parse_fields(rest),
        ),
{
    reveal(spec_parse_fields);
    let input = varint_field(number, value) + rest;
    let k = key_bytes(number, 0);
    assert(input =~= k + (varint_bytes(value) + rest));
    lemma_key_round_trip(number, 0, varint_bytes(value) + rest);
    assert(input.skip(k.len() as int) =~= varint_bytes(value) + rest);
    lemma_varint_round_trip(value, rest);
    let n = k.len() + varint_bytes(value).len();
    assert(input.skip(n as int) =~= rest);
}

/// A length-delimited field decodes to itself, whatever follows it.
pub proof fn lemma_parse_bytes_field(number: u32, bytes: Seq<u8>, rest: Seq<u8>)
    requires
        valid_field_number(number),
        bytes.len() <= usize::MAX,
    ensures
        spec_parse_fields(bytes_field(number, bytes) + rest) == prepend_fields(
            seq![FieldSpec { number, wire_type: 2, varint: 0, bytes }],
            spec_parse_fields(rest),
        ),
{
    reveal(spec_parse_fields);
    let input = bytes_field(number, bytes) + rest;
    let k = key_bytes(number, 2);
    let l = varint_bytes(bytes.len() as u64);
    assert(input =~= k + (l + (bytes + rest)));
    lemma_key_round_trip(number, 2, l + (bytes + rest));
    assert(input.skip(k.len() as int) =~= l + (bytes + rest));
    lemma_varint_round_trip(bytes.len() as u64, bytes + rest);
    let after = input.skip(k.len() as int);
    assert(after.subrange(l.len() as int, (l.len() + bytes.len()) as int) =~= bytes);
    let n = k.len() + l.len() + bytes.len();
    assert(input.skip(n as int) =~= rest);
}


// ---------------------------------------------------------------------------
// Transport instructions
// ---------------------------------------------------------------------------

/// One SSP transport instruction.
#[derive(Debug, Clone, Default, PartialEq, Eq)]
pub struct TransportInstruction {
    pub protocol_version: Option<u32>,
    pub old_num: Option<u64>,
    pub new_num: Option<u64>,
    pub ack_num: Option<u64>,
    pub throwaway_num: Option<u64>,
    pub diff: Option<Vec<u8>>,
    pub chaff: Option<Vec<u8>>,
}

/// The value of a transport instruction.
pub struct TransportInstructionModel {
    pub protocol_version: Option<u32>,
    pub old_num: Option<u64>,
    pub new_num: Option<u64>,
    pub ack_num: Option<u64>,
    pub throwaway_num: Option<u64>,
    pub diff: Option<Seq<u8>>,
    pub chaff: Option<Seq<u8>>,
}

pub open spec fn opt_bytes_view(o: Option<Vec<u8>>) -> Option<Seq<u8>> {
    match o {
        Some(v) => Some(v@),
        None => None,
    }
}

impl View for TransportInstruction {
    type V = TransportInstructionModel;

    open spec fn view(&self) -> TransportInstructionModel {
        TransportInstructionModel {
            protocol_version: self.protocol_version,
            old_num: self.old_num,
            new_num: self.new_num,
            ack_num: self.ack_num,
            throwaway_num: self.throwaway_num,
            diff: opt_bytes_view(self.diff),
            chaff: opt_bytes_view(self.chaff),
        }
    }
}

/// The instruction with no field set.
pub open spec fn empty_transport() -> TransportInstructionModel {
    TransportInstructionModel {
        protocol_version: None,
        old_num: None,
        new_num: None,
        ack_num: None,
        throwaway_num: None,
        diff: None,
        chaff: None,
    }
}

pub open spec fn opt_varint_field(number: u32, value: Option<u64>) -> Seq<u8> {
    match value {
        Some(v) => varint_field(number, v),
        None => seq![],
    }
}

pub open spec fn opt_bytes_field(number: u32, value: Option<Seq<u8>>) -> Seq<u8> {
    match value {
        Some(b) => bytes_field(number, b),
        None => seq![],
    }
}

pub open spec fn opt_u32_as_u64(value: Option<u32>) -> Option<u64> {
    match value {
        Some(v) => Some(v as u64),
        None => None,
    }
}

/// The wire encoding of a transport instruction: its present fields in field-number order.
pub open spec fn spec_encode_transport(m: TransportInstructionModel) -> Seq<u8> {
    opt_varint_field(1, opt_u32_as_u64(m.protocol_version)) + (opt_varint_field(2, m.old_num) + (
    opt_varint_field(3, m.new_num) + (opt_varint_field(4, m.ack_num) + (opt_varint_field(5, m.throwaway_num) + (
    opt_bytes_field(6, m.diff) + opt_bytes_field(7, m.chaff))))))
}

/// How one decoded field updates a transport instruction; unknown fields are skipped.
pub open spec fn apply_transport_field(m: TransportInstructionModel, f: FieldSpec) -> TransportInstructionModel {
    if f.number == 1 && f.wire_type == 0 {
        TransportInstructionModel { protocol_version: Some(f.varint as u32), ..m }
    } else if f.number == 2 && f.wire_type == 0 {
        TransportInstructionModel { old_num: Some(f.varint), ..m }
    } else if f.number == 3 && f.wire_type == 0 {
        TransportInstructionModel { new_num: Some(f.varint), ..m }
    } else if f.number == 4 && f.wire_type == 0 {
        TransportInstructionModel { ack_num: Some(f.varint), ..m }
    } else if f.number == 5 && f.wire_type == 0 {
        TransportInstructionModel { throwaway_num: Some(f.varint), ..m }
    } else if f.number == 6 && f.wire_type == 2 {
        TransportInstructionModel { diff: Some(f.bytes), ..m }
    } else if f.number == 7 && f.wire_type == 2 {
        TransportInstructionModel { chaff: Some(f.bytes), ..m }
    } else {
        m
    }
}

pub open spec fn fold_transport(fields: Seq<FieldSpec>, m: TransportInstructionModel) -> TransportInstructionModel
    decreases fields.len(),
{
    if fields.len() == 0 {
        m
    } else {
        fold_transport(fields.drop_first(), apply_transport_field(m, fields[0]))
    }
}

/// Decoding a transport instruction: the fields in order, later ones overriding earlier ones.
pub open spec fn spec_decode_transport(input: Seq<u8>) -> Result<TransportInstructionModel, ProtoError> {
    match spec_parse_fields(input) {
        Ok(fields) => Ok(fold_transport(fields, empty_transport())),
        Err(e) => Err(e),
    }
}

/// A copy of a byte string.
pub fn clone_bytes(bytes: &[u8]) -> (v: Vec<u8>)
    ensures
        v@ == bytes@,
{
    let mut v: Vec<u8> = Vec::new();
    extend_bytes(&mut v, bytes);
    v
}

fn clone_opt_bytes(bytes: &Option<Vec<u8>>) -> (v: Option<Vec<u8>>)
    ensures
        opt_bytes_view(v) == opt_bytes_view(*bytes),
{
    match bytes {
        Some(b) => Some(clone_bytes(b.as_slice())),
        None => None,
    }
}

/// A copy of the bytes of `src` from `start` up to `end`.
pub fn copy_range(src: &[u8], start: usize, end: usize) -> (v: Vec<u8>)
    requires
        start <= end <= src@.len(),
    ensures
        v@ == src@.subrange(start as int, end as int),
{
    let mut v: Vec<u8> = Vec::new();
    let mut i: usize = start;
    while i < end
        invariant
            start <= i <= end <= src@.len(),
            v@ == src@.subrange(start as int, i as int),
        decreases end - i,
    {
        v.push(src[i]);
        i = i + 1;
        assert(v@ =~= src@.subrange(start as int, i as int));
    }
    v
}

/// Whether two byte strings are equal.
pub fn same_bytes(a: &[u8], b: &[u8]) -> (r: bool)
    ensures
        r == (a@ == b@),
{
    if a.len() != b.len() {
        return false;
    }
    let mut i: usize = 0;
    while i < a.len()
        invariant
            i <= a@.len(),
            a@.len() == b@.len(),
            forall|j: int| 0 <= j < i ==> a@[j] == b@[j],
        decreases a@.len() - i,
    {
        if a[i] != b[i] {
            return false;
        }
        i = i + 1;
    }
    assert(a@ =~= b@);
    true
}

fn same_opt_bytes(a: &Option<Vec<u8>>, b: &Option<Vec<u8>>) -> (r: bool)
    ensures
        r == (opt_bytes_view(*a) == opt_bytes_view(*b)),
{
    match (a, b) {
        (Some(x), Some(y)) => same_bytes(x.as_slice(), y.as_slice()),
        (None, None) => true,
        _ => false,
    }
}

fn same_opt_u64(a: Option<u64>, b: Option<u64>) -> (r: bool)
    ensures
        r == (a == b),
{
    match (a, b) {
        (Some(x), Some(y)) => x == y,
        (None, None) => true,
        _ => false,
    }
}

impl TransportInstruction {
    /// Whether two instructions are the same.
    pub fn same_as(&self, other: &TransportInstruction) -> (b: bool)
        ensures
            b == (self@ == other@),
    {
        let pv = match (self.protocol_version, other.protocol_version) {
            (Some(x), Some(y)) => x == y,
            (None, None) => true,
            _ => false,
        };
        pv && same_opt_u64(self.old_num, other.old_num) && same_opt_u64(self.new_num, other.new_num)
            && same_opt_u64(self.ack_num, other.ack_num)
            && same_opt_u64(self.throwaway_num, other.throwaway_num)
            && same_opt_bytes(&self.diff, &other.diff) && same_opt_bytes(&self.chaff, &other.chaff)
    }

    /// A copy of the instruction.
    pub fn duplicate(&self) -> (r: Self)
        ensures
            r@ == self@,
    {
        TransportInstruction {
            protocol_version: self.protocol_version,
            old_num: self.old_num,
            new_num: self.new_num,
            ack_num: self.ack_num,
            throwaway_num: self.throwaway_num,
            diff: clone_opt_bytes(&self.diff),
            chaff: clone_opt_bytes(&self.chaff),
        }
    }

    pub fn encode(&self) -> (output: Vec<u8>)
        ensures
            output@ == spec_encode_transport(self@),
    {
        let mut output: Vec<u8> = Vec::new();
        let ghost m = self@;
        if let Some(value) = self.protocol_version {
            put_varint(&mut output, 1, value as u64);
        }
        assert(output@ =~= opt_varint_field(1, opt_u32_as_u64(m.protocol_version)));
        let ghost o1 = output@;
        if let Some(value) = self.old_num {
            put_varint(&mut output, 2, value);
        }
        assert(output@ =~= o1 + opt_varint_field(2, m.old_num));
        let ghost o2 = output@;
        if let Some(value) = self.new_num {
            put_varint(&mut output, 3, value);
        }
        assert(output@ =~= o2 + opt_varint_field(3, m.new_num));
        let ghost o3 = output@;
        if let Some(value) = self.ack_num {
            put_varint(&mut output, 4, value);
        }
        assert(output@ =~= o3 + opt_varint_field(4, m.ack_num));
        let ghost o4 = output@;
        if let Some(value) = self.throwaway_num {
            put_varint(&mut output, 5, value);
        }
        assert(output@ =~= o4 + opt_varint_field(5, m.throwaway_num));
        let ghost o5 = output@;
        if let Some(value) = &self.diff {
            put_bytes(&mut output, 6, value.as_slice());
        }
        assert(output@ =~= o5 + opt_bytes_field(6, m.diff));
        let ghost o6 = output@;
        if let Some(value) = &self.chaff {
            put_bytes(&mut output, 7, value.as_slice());
        }
        assert(output@ =~= o6 + opt_bytes_field(7, m.chaff));
        proof {
            lemma_assoc7(
                opt_varint_field(1, opt_u32_as_u64(self@.protocol_version)),
                opt_varint_field(2, self@.old_num),
                opt_varint_field(3, self@.new_num),
                opt_varint_field(4, self@.ack_num),
                opt_varint_field(5, self@.throwaway_num),
                opt_bytes_field(6, self@.diff),
                opt_bytes_field(7, self@.chaff),
            );
        }
        output
    }

    pub fn decode(input: &[u8]) -> (r: Result<Self, ProtoError>)
        ensures
            match spec_decode_transport(input@) {
                Ok(m) => r is Ok && r->Ok_0@ == m,
                Err(e) => r == Err::<Self, ProtoError>(e),
            },
    {
        let fields = match parse_fields(input) {
            Ok(fields) => fields,
            Err(e) => return Err(e),
        };
        let ghost specs = field_specs(fields@);
        let mut message = TransportInstruction {
            protocol_version: None,
            old_num: None,
            new_num: None,
            ack_num: None,
            throwaway_num: None,
            diff: None,
            chaff: None,
        };
        let mut i: usize = 0;
        assert(specs.skip(0) =~= specs);
        assert(message@ == empty_transport());
        while i < fields.len()
            invariant
                i <= fields@.len(),
                specs == field_specs(fields@),
                fold_transport(specs, empty_transport()) == fold_transport(specs.skip(i as int), message@),
            decreases fields@.len() - i,
        {
            let field = &fields[i];
            assert(specs.skip(i as int).drop_first() =~= specs.skip(i + 1));
            assert(specs.skip(i as int)[0] == field.spec());
            if field.number == 1 && field.wire_type == 0 {
                message.protocol_version = Some(#[verifier::truncate] (field.varint as u32));
            } else if field.number == 2 && field.wire_type == 0 {
                message.old_num = Some(field.varint);
            } else if field.number == 3 && field.wire_type == 0 {
                message.new_num = Some(field.varint);
            } else if field.number == 4 && field.wire_type == 0 {
                message.ack_num = Some(field.varint);
            } else if field.number == 5 && field.wire_type == 0 {
                message.throwaway_num = Some(field.varint);
            } else if field.number == 6 && field.wire_type == 2 {
                message.diff = Some(clone_bytes(field.bytes));
            } else if field.number == 7 && field.wire_type == 2 {
                message.chaff = Some(clone_bytes(field.bytes));
            }
            i = i + 1;
        }
        assert(specs.skip(i as int) =~= Seq::<FieldSpec>::empty());
        Ok(message)
    }
}


proof fn lemma_assoc7(a: Seq<u8>, b: Seq<u8>, c: Seq<u8>, d: Seq<u8>, e: Seq<u8>, f: Seq<u8>, g: Seq<u8>)
    ensures
        a + b + c + d + e + f + g == a + (b + (c + (d + (e + (f + g))))),
{
    assert(a + b + c + d + e + f + g =~= a + (b + (c + (d + (e + (f + g))))));
}

pub open spec fn opt_varint_specs(number: u32, value: Option<u64>) -> Seq<FieldSpec> {
    match value {
        Some(v) => seq![FieldSpec { number, wire_type: 0, varint: v, bytes: seq![] }],
        None => seq![],
    }
}

pub open spec fn opt_bytes_specs(number: u32, value: Option<Seq<u8>>) -> Seq<FieldSpec> {
    match value {
        Some(b) => seq![FieldSpec { number, wire_type: 2, varint: 0, bytes: b }],
        None => seq![],
    }
}

proof fn lemma_parse_opt_varint(number: u32, value: Option<u64>, rest: Seq<u8>)
    requires
        valid_field_number(number),
    ensures
        spec_parse_fields(opt_varint_field(number, value) + rest) == prepend_fields(
            opt_varint_specs(number, value),
            spec_parse_fields(rest),
        ),
{
    match value {
        Some(v) => lemma_parse_varint_field(number, v, rest),
        None => {
            reveal(spec_parse_fields);
            assert(opt_varint_field(number, value) + rest =~= rest);
            if let Ok(fs) = spec_parse_fields(rest) {
                assert(Seq::<FieldSpec>::empty() + fs =~= fs);
            }
        },
    }
}

proof fn lemma_parse_opt_bytes(number: u32, value: Option<Seq<u8>>, rest: Seq<u8>)
    requires
        valid_field_number(number),
        value matches Some(b) ==> b.len() <= usize::MAX,
    ensures
        spec_parse_fields(opt_bytes_field(number, value) + rest) == prepend_fields(
            opt_bytes_specs(number, value),
            spec_parse_fields(rest),
        ),
{
    match value {
        Some(b) => lemma_parse_bytes_field(number, b, rest),
        None => {
            reveal(spec_parse_fields);
            assert(opt_bytes_field(number, value) + rest =~= rest);
            if let Ok(fs) = spec_parse_fields(rest) {
                assert(Seq::<FieldSpec>::empty() + fs =~= fs);
            }
        },
    }
}

proof fn lemma_fold_transport_concat(a: Seq<FieldSpec>, b: Seq<FieldSpec>, m: TransportInstructionModel)
    ensures
        fold_transport(a + b, m) == fold_transport(b, fold_transport(a, m)),
    decreases a.len(),
{
    if a.len() > 0 {
        assert((a + b).drop_first() =~= a.drop_first() + b);
        lemma_fold_transport_concat(a.drop_first(), b, apply_transport_field(m, a[0]));
    } else {
        assert(a + b =~= b);
    }
}

pub open spec fn transport_field_specs(m: TransportInstructionModel) -> Seq<FieldSpec> {
    opt_varint_specs(1, opt_u32_as_u64(m.protocol_version)) + (opt_varint_specs(2, m.old_num) + (
    opt_varint_specs(3, m.new_num) + (opt_varint_specs(4, m.ack_num) + (opt_varint_specs(5, m.throwaway_num) + (
    opt_bytes_specs(6, m.diff) + (opt_bytes_specs(7, m.chaff) + Seq::<FieldSpec>::empty()))))))
}

proof fn lemma_parse_transport_encoding(m: TransportInstructionModel)
    requires
        m.diff matches Some(d) ==> d.len() <= usize::MAX,
        m.chaff matches Some(c) ==> c.len() <= usize::MAX,
    ensures
        spec_parse_fields(spec_encode_transport(m)) == Ok::<Seq<FieldSpec>, ProtoError>(transport_field_specs(m)),
{
    let e1 = opt_varint_field(1, opt_u32_as_u64(m.protocol_version));
    let e2 = opt_varint_field(2, m.old_num);
    let e3 = opt_varint_field(3, m.new_num);
    let e4 = opt_varint_field(4, m.ack_num);
    let e5 = opt_varint_field(5, m.throwaway_num);
    let e6 = opt_bytes_field(6, m.diff);
    let e7 = opt_bytes_field(7, m.chaff);
    let empty = Seq::<u8>::empty();
    assert(e7 + empty =~= e7);
    let f1 = opt_varint_specs(1, opt_u32_as_u64(m.protocol_version));
    let f2 = opt_varint_specs(2, m.old_num);
    let f3 = opt_varint_specs(3, m.new_num);
    let f4 = opt_varint_specs(4, m.ack_num);
    let f5 = opt_varint_specs(5, m.throwaway_num);
    let f6 = opt_bytes_specs(6, m.diff);
    let f7 = opt_bytes_specs(7, m.chaff);
    let s7 = e7 + empty;
    let s6 = e6 + s7;
    let s5 = e5 + s6;
    let s4 = e4 + s5;
    let s3 = e3 + s4;
    let s2 = e2 + s3;
    let s1 = e1 + s2;
    let g7 = f7 + Seq::<FieldSpec>::empty();
    let g6 = f6 + g7;
    let g5 = f5 + g6;
    let g4 = f4 + g5;
    let g3 = f3 + g4;
    let g2 = f2 + g3;
    let g1 = f1 + g2;
    assert(spec_parse_fields(s7) == Ok::<Seq<FieldSpec>, ProtoError>(g7)) by {
        reveal(spec_parse_fields);
        assert(spec_parse_fields(empty) == Ok::<Seq<FieldSpec>, ProtoError>(seq![]));
        lemma_parse_opt_bytes(7, m.chaff, empty);
    }
    assert(spec_parse_fields(s6) == Ok::<Seq<FieldSpec>, ProtoError>(g6)) by {
        lemma_parse_opt_bytes(6, m.diff, s7);
    }
    assert(spec_parse_fields(s5) == Ok::<Seq<FieldSpec>, ProtoError>(g5)) by {
        lemma_parse_opt_varint(5, m.throwaway_num, s6);
    }
    assert(spec_parse_fields(s4) == Ok::<Seq<FieldSpec>, ProtoError>(g4)) by {
        lemma_parse_opt_varint(4, m.ack_num, s5);
    }
    assert(spec_parse_fields(s3) == Ok::<Seq<FieldSpec>, ProtoError>(g3)) by {
        lemma_parse_opt_varint(3, m.new_num, s4);
    }
    assert(spec_parse_fields(s2) == Ok::<Seq<FieldSpec>, ProtoError>(g2)) by {
        lemma_parse_opt_varint(2, m.old_num, s3);
    }
    assert(spec_parse_fields(s1) == Ok::<Seq<FieldSpec>, ProtoError>(g1)) by {
        lemma_parse_opt_varint(1, opt_u32_as_u64(m.protocol_version), s2);
    }
}

proof fn lemma_fold_opt(fs: Seq<FieldSpec>, rest: Seq<FieldSpec>, m: TransportInstructionModel)
    requires
        fs.len() <= 1,
    ensures
        fold_transport(fs + rest, m) == fold_transport(rest, if fs.len() == 1 { apply_transport_field(m, fs[0]) } else { m }),
{
    lemma_fold_transport_concat(fs, rest, m);
    reveal_with_fuel(fold_transport, 2);
    if fs.len() == 1 {
        assert(fs.drop_first() =~= Seq::<FieldSpec>::empty());
    }
}

/// Decoding the encoding of a transport instruction gives back that instruction.
pub proof fn lemma_transport_round_trip(m: TransportInstructionModel)
    requires
        m.diff matches Some(d) ==> d.len() <= usize::MAX,
        m.chaff matches Some(c) ==> c.len() <= usize::MAX,
    ensures
        spec_decode_transport(spec_encode_transport(m)) == Ok::<TransportInstructionModel, ProtoError>(m),
{
    lemma_parse_transport_encoding(m);
    let f1 = opt_varint_specs(1, opt_u32_as_u64(m.protocol_version));
    let f2 = opt_varint_specs(2, m.old_num);
    let f3 = opt_varint_specs(3, m.new_num);
    let f4 = opt_varint_specs(4, m.ack_num);
    let f5 = opt_varint_specs(5, m.throwaway_num);
    let f6 = opt_bytes_specs(6, m.diff);
    let f7 = opt_bytes_specs(7, m.chaff);
    let z = empty_transport();
    let r7 = f7 + Seq::<FieldSpec>::empty();
    let r6 = f6 + r7;
    let r5 = f5 + r6;
    let r4 = f4 + r5;
    let r3 = f3 + r4;
    let r2 = f2 + r3;
    lemma_fold_opt(f1, r2, z);
    let m1 = TransportInstructionModel { protocol_version: m.protocol_version, ..z };
    assert(m.protocol_version matches Some(v) ==> (v as u64) as u32 == v);
    lemma_fold_opt(f2, r3, m1);
    let m2 = TransportInstructionModel { old_num: m.old_num, ..m1 };
    lemma_fold_opt(f3, r4, m2);
    let m3 = TransportInstructionModel { new_num: m.new_num, ..m2 };
    lemma_fold_opt(f4, r5, m3);
    let m4 = TransportInstructionModel { ack_num: m.ack_num, ..m3 };
    lemma_fold_opt(f5, r6, m4);
    let m5 = TransportInstructionModel { throwaway_num: m.throwaway_num, ..m4 };
    lemma_fold_opt(f6, r7, m5);
    let m6 = TransportInstructionModel { diff: m.diff, ..m5 };
    lemma_fold_opt(f7, Seq::<FieldSpec>::empty(), m6);
    assert(fold_transport(Seq::<FieldSpec>::empty(), m) == m);
}


// ---------------------------------------------------------------------------
// Field lookup helpers
// ---------------------------------------------------------------------------

/// The first field with the given number and wire type.
pub open spec fn find_field(fields: Seq<FieldSpec>, number: u32, wire_type: u8) -> Option<FieldSpec>
    decreases fields.len(),
{
    if fields.len() == 0 {
        None
    } else if fields[0].number == number && fields[0].wire_type == wire_type {
        Some(fields[0])
    } else {
        find_field(fields.drop_first(), number, wire_type)
    }
}

fn find_field_exec<'a, 'b>(fields: &'b Vec<Field<'a>>, number: u32, wire_type: u8) -> (r: Option<&'b Field<'a>>)
    ensures
        match find_field(field_specs(fields@), number, wire_type) {
            Some(f) => r is Some && r->Some_0.spec() == f,
            None => r is None,
        },
{
    let ghost specs = field_specs(fields@);
    let mut i: usize = 0;
    assert(specs.skip(0) =~= specs);
    while i < fields.len()
        invariant
            i <= fields@.len(),
            specs == field_specs(fields@),
            find_field(specs, number, wire_type) == find_field(specs.skip(i as int), number, wire_type),
        decreases fields@.len() - i,
    {
        assert(specs.skip(i as int)[0] == fields@[i as int].spec());
        if fields[i].number == number && fields[i].wire_type == wire_type {
            return Some(&fields[i]);
        }
        assert(specs.skip(i as int).drop_first() =~= specs.skip(i + 1));
        i = i + 1;
    }
    None
}

/// The encoding of a message made of one length-delimited field.
pub open spec fn bytes_extension(number: u32, bytes: Seq<u8>) -> Seq<u8> {
    bytes_field(number, bytes)
}

/// The encoding of a terminal size: fields 5 and 6, each a sign-extended varint.
pub open spec fn resize_extension(width: i32, height: i32) -> Seq<u8> {
    varint_field(5, width as i64 as u64) + varint_field(6, height as i64 as u64)
}

fn encode_bytes_field(number: u32, bytes: &[u8]) -> (output: Vec<u8>)
    requires
        valid_field_number(number),
    ensures
        output@ == bytes_extension(number, bytes@),
{
    let mut output: Vec<u8> = Vec::new();
    put_bytes(&mut output, number, bytes);
    assert(output@ =~= bytes_extension(number, bytes@));
    output
}

fn encode_resize_extension(width: i32, height: i32) -> (output: Vec<u8>)
    ensures
        output@ == resize_extension(width, height),
{
    let mut output: Vec<u8> = Vec::new();
    put_varint(&mut output, 5, width as i64 as u64);
    put_varint(&mut output, 6, height as i64 as u64);
    assert(output@ =~= resize_extension(width, height));
    output
}

/// Decoding a bytes extension: the payload of its first field 4.
pub open spec fn spec_decode_bytes_extension(input: Seq<u8>) -> Result<Seq<u8>, ProtoError> {
    match spec_parse_fields(input) {
        Err(e) => Err(e),
        Ok(fs) => match find_field(fs, 4, 2) {
            Some(f) => Ok(f.bytes),
            None => Err(ProtoError::InvalidField("bytes")),
        },
    }
}

/// Decoding a resize extension: the first fields 5 and 6, truncated to 32 bits.
pub open spec fn spec_decode_resize_extension(input: Seq<u8>) -> Result<(i32, i32), ProtoError> {
    match spec_parse_fields(input) {
        Err(e) => Err(e),
        Ok(fs) => match find_field(fs, 5, 0) {
            None => Err(ProtoError::InvalidField("resize width")),
            Some(w) => match find_field(fs, 6, 0) {
                None => Err(ProtoError::InvalidField("resize height")),
                Some(h) => Ok((w.varint as i32, h.varint as i32)),
            },
        },
    }
}

fn decode_bytes_extension(input: &[u8]) -> (r: Result<Vec<u8>, ProtoError>)
    ensures
        match spec_decode_bytes_extension(input@) {
            Ok(b) => r is Ok && r->Ok_0@ == b,
            Err(e) => r == Err::<Vec<u8>, ProtoError>(e),
        },
{
    let fields = match parse_fields(input) {
        Ok(fields) => fields,
        Err(e) => return Err(e),
    };
    match find_field_exec(&fields, 4, 2) {
        Some(field) => Ok(clone_bytes(field.bytes)),
        None => Err(ProtoError::InvalidField("bytes")),
    }
}

fn decode_resize_extension(input: &[u8]) -> (r: Result<(i32, i32), ProtoError>)
    ensures
        r == spec_decode_resize_extension(input@),
{
    let fields = match parse_fields(input) {
        Ok(fields) => fields,
        Err(e) => return Err(e),
    };
    let width = match find_field_exec(&fields, 5, 0) {
        Some(field) => field.varint,
        None => return Err(ProtoError::InvalidField("resize width")),
    };
    let height = match find_field_exec(&fields, 6, 0) {
        Some(field) => field.varint,
        None => return Err(ProtoError::InvalidField("resize height")),
    };
    Ok((#[verifier::truncate] (width as i32), #[verifier::truncate] (height as i32)))
}


// ---------------------------------------------------------------------------
// User and host messages
// ---------------------------------------------------------------------------

/// One client-to-server instruction.
#[derive(Debug, Clone, PartialEq, Eq)]
pub enum UserInstruction {
    Keystroke(Vec<u8>),
    Resize { width: i32, height: i32 },
}

/// The value of a client-to-server instruction.
pub enum UserInstructionModel {
    Keystroke(Seq<u8>),
    Resize { width: i32, height: i32 },
}

impl View for UserInstruction {
    type V = UserInstructionModel;

    open spec fn view(&self) -> UserInstructionModel {
        match self {
            UserInstruction::Keystroke(keys) => UserInstructionModel::Keystroke(keys@),
            UserInstruction::Resize { width, height } => UserInstructionModel::Resize { width: *width, height: *height },
        }
    }
}

/// A client-to-server message.
#[derive(Debug, Clone, Default, PartialEq, Eq)]
pub struct UserMessage {
    pub instructions: Vec<UserInstruction>,
}

impl View for UserMessage {
    type V = Seq<UserInstructionModel>;

    open spec fn view(&self) -> Seq<UserInstructionModel> {
        self.instructions@.map_values(|i: UserInstruction| i@)
    }
}

/// One server-to-client instruction.
#[derive(Debug, Clone, PartialEq, Eq)]
pub enum HostInstruction {
    HostBytes(Vec<u8>),
    Resize { width: i32, height: i32 },
    EchoAck(u64),
}

/// The value of a server-to-client instruction.
pub enum HostInstructionModel {
    HostBytes(Seq<u8>),
    Resize { width: i32, height: i32 },
    EchoAck(u64),
}

impl View for HostInstruction {
    type V = HostInstructionModel;

    open spec fn view(&self) -> HostInstructionModel {
        match self {
            HostInstruction::HostBytes(bytes) => HostInstructionModel::HostBytes(bytes@),
            HostInstruction::Resize { width, height } => HostInstructionModel::Resize { width: *width, height: *height },
            HostInstruction::EchoAck(value) => HostInstructionModel::EchoAck(*value),
        }
    }
}

/// A server-to-client message.
#[derive(Debug, Clone, Default, PartialEq, Eq)]
pub struct HostMessage {
    pub instructions: Vec<HostInstruction>,
}

impl View for HostMessage {
    type V = Seq<HostInstructionModel>;

    open spec fn view(&self) -> Seq<HostInstructionModel> {
        self.instructions@.map_values(|i: HostInstruction| i@)
    }
}

/// The encoding of a user instruction: its extension as field 2 (keys) or 3 (resize).
pub open spec fn spec_encode_user_instruction(i: UserInstructionModel) -> Seq<u8> {
    match i {
        UserInstructionModel::Keystroke(keys) => bytes_field(2, bytes_extension(4, keys)),
        UserInstructionModel::Resize { width, height } => bytes_field(3, resize_extension(width, height)),
    }
}

/// The encoding of a host instruction: field 2 (bytes), 3 (resize) or 7 (echo ack).
pub open spec fn spec_encode_host_instruction(i: HostInstructionModel) -> Seq<u8> {
    match i {
        HostInstructionModel::HostBytes(bytes) => bytes_field(2, bytes_extension(4, bytes)),
        HostInstructionModel::Resize { width, height } => bytes_field(3, resize_extension(width, height)),
        HostInstructionModel::EchoAck(value) => bytes_field(7, varint_field(8, value)),
    }
}

/// The encoding of a user message: each instruction as field 1, in order.
pub open spec fn spec_encode_user_message(s: Seq<UserInstructionModel>) -> Seq<u8>
    decreases s.len(),
{
    if s.len() == 0 {
        seq![]
    } else {
        bytes_field(1, spec_encode_user_instruction(s[0])) + spec_encode_user_message(s.drop_first())
    }
}

/// The encoding of a host message: each instruction as field 1, in order.
pub open spec fn spec_encode_host_message(s: Seq<HostInstructionModel>) -> Seq<u8>
    decreases s.len(),
{
    if s.len() == 0 {
        seq![]
    } else {
        bytes_field(1, spec_encode_host_instruction(s[0])) + spec_encode_host_message(s.drop_first())
    }
}

/// The instruction named by the first field 2 or 3 of a user instruction.
pub open spec fn decode_user_fields(fs: Seq<FieldSpec>) -> Result<UserInstructionModel, ProtoError>
    decreases fs.len(),
{
    if fs.len() == 0 {
        Err(ProtoError::InvalidField("user instruction extension"))
    } else if fs[0].number == 2 && fs[0].wire_type == 2 {
        match spec_decode_bytes_extension(fs[0].bytes) {
            Ok(b) => Ok(UserInstructionModel::Keystroke(b)),
            Err(e) => Err(e),
        }
    } else if fs[0].number == 3 && fs[0].wire_type == 2 {
        match spec_decode_resize_extension(fs[0].bytes) {
            Ok((w, h)) => Ok(UserInstructionModel::Resize { width: w, height: h }),
            Err(e) => Err(e),
        }
    } else {
        decode_user_fields(fs.drop_first())
    }
}

pub open spec fn spec_decode_user_instruction(input: Seq<u8>) -> Result<UserInstructionModel, ProtoError> {
    match spec_parse_fields(input) {
        Err(e) => Err(e),
        Ok(fs) => decode_user_fields(fs),
    }
}

/// The instruction named by the first field 2, 3 or 7 of a host instruction.
pub open spec fn decode_host_fields(fs: Seq<FieldSpec>) -> Result<HostInstructionModel, ProtoError>
    decreases fs.len(),
{
    if fs.len() == 0 {
        Err(ProtoError::InvalidField("host instruction extension"))
    } else if fs[0].number == 2 && fs[0].wire_type == 2 {
        match spec_decode_bytes_extension(fs[0].bytes) {
            Ok(b) => Ok(HostInstructionModel::HostBytes(b)),
            Err(e) => Err(e),
        }
    } else if fs[0].number == 3 && fs[0].wire_type == 2 {
        match spec_decode_resize_extension(fs[0].bytes) {
            Ok((w, h)) => Ok(HostInstructionModel::Resize { width: w, height: h }),
            Err(e) => Err(e),
        }
    } else if fs[0].number == 7 && fs[0].wire_type == 2 {
        match spec_parse_fields(fs[0].bytes) {
            Err(e) => Err(e),
            Ok(nested) => match find_field(nested, 8, 0) {
                Some(f) => Ok(HostInstructionModel::EchoAck(f.varint)),
                None => Err(ProtoError::InvalidField("echo ack")),
            },
        }
    } else {
        decode_host_fields(fs.drop_first())
    }
}

pub open spec fn spec_decode_host_instruction(input: Seq<u8>) -> Result<HostInstructionModel, ProtoError> {
    match spec_parse_fields(input) {
        Err(e) => Err(e),
        Ok(fs) => decode_host_fields(fs),
    }
}

/// Decoding the fields of a user message: every field 1 holds an instruction.
pub open spec fn decode_user_message_fields(fs: Seq<FieldSpec>) -> Result<Seq<UserInstructionModel>, ProtoError>
    decreases fs.len(),
{
    if fs.len() == 0 {
        Ok(seq![])
    } else if fs[0].number == 1 && fs[0].wire_type == 2 {
        match spec_decode_user_instruction(fs[0].bytes) {
            Err(e) => Err(e),
            Ok(i) => match decode_user_message_fields(fs.drop_first()) {
                Err(e) => Err(e),
                Ok(rest) => Ok(seq![i] + rest),
            },
        }
    } else {
        decode_user_message_fields(fs.drop_first())
    }
}

/// Decoding the fields of a host message: every field 1 holds an instruction.
pub open spec fn decode_host_message_fields(fs: Seq<FieldSpec>) -> Result<Seq<HostInstructionModel>, ProtoError>
    decreases fs.len(),
{
    if fs.len() == 0 {
        Ok(seq![])
    } else if fs[0].number == 1 && fs[0].wire_type == 2 {
        match spec_decode_host_instruction(fs[0].bytes) {
            Err(e) => Err(e),
            Ok(i) => match decode_host_message_fields(fs.drop_first()) {
                Err(e) => Err(e),
                Ok(rest) => Ok(seq![i] + rest),
            },
        }
    } else {
        decode_host_message_fields(fs.drop_first())
    }
}

pub open spec fn spec_decode_user_message(input: Seq<u8>) -> Result<Seq<UserInstructionModel>, ProtoError> {
    match spec_parse_fields(input) {
        Err(e) => Err(e),
        Ok(fs) => decode_user_message_fields(fs),
    }
}

pub open spec fn spec_decode_host_message(input: Seq<u8>) -> Result<Seq<HostInstructionModel>, ProtoError> {
    match spec_parse_fields(input) {
        Err(e) => Err(e),
        Ok(fs) => decode_host_message_fields(fs),
    }
}

pub open spec fn prepend_user(prefix: Seq<UserInstructionModel>, r: Result<Seq<UserInstructionModel>, ProtoError>) -> Result<Seq<UserInstructionModel>, ProtoError> {
    match r {
        Ok(rest) => Ok(prefix + rest),
        Err(e) => Err(e),
    }
}

pub open spec fn prepend_host(prefix: Seq<HostInstructionModel>, r: Result<Seq<HostInstructionModel>, ProtoError>) -> Result<Seq<HostInstructionModel>, ProtoError> {
    match r {
        Ok(rest) => Ok(prefix + rest),
        Err(e) => Err(e),
    }
}

fn encode_user_instruction(instruction: &UserInstruction) -> (output: Vec<u8>)
    ensures
        output@ == spec_encode_user_instruction(instruction@),
{
    let mut extension: Vec<u8> = Vec::new();
    match instruction {
        UserInstruction::Keystroke(keys) => {
            let body = encode_bytes_field(4, keys.as_slice());
            put_bytes(&mut extension, 2, body.as_slice());
        },
        UserInstruction::Resize { width, height } => {
            let body = encode_resize_extension(*width, *height);
            put_bytes(&mut extension, 3, body.as_slice());
        },
    }
    assert(extension@ =~= spec_encode_user_instruction(instruction@));
    extension
}

fn encode_host_instruction(instruction: &HostInstruction) -> (output: Vec<u8>)
    ensures
        output@ == spec_encode_host_instruction(instruction@),
{
    let mut extension: Vec<u8> = Vec::new();
    match instruction {
        HostInstruction::HostBytes(bytes) => {
            let body = encode_bytes_field(4, bytes.as_slice());
            put_bytes(&mut extension, 2, body.as_slice());
        },
        HostInstruction::Resize { width, height } => {
            let body = encode_resize_extension(*width, *height);
            put_bytes(&mut extension, 3, body.as_slice());
        },
        HostInstruction::EchoAck(value) => {
            let mut body: Vec<u8> = Vec::new();
            put_varint(&mut body, 8, *value);
            assert(body@ =~= varint_field(8, *value));
            put_bytes(&mut extension, 7, body.as_slice());
        },
    }
    assert(extension@ =~= spec_encode_host_instruction(instruction@));
    extension
}

fn decode_user_instruction(input: &[u8]) -> (r: Result<UserInstruction, ProtoError>)
    ensures
        match spec_decode_user_instruction(input@) {
            Ok(i) => r is Ok && r->Ok_0@ == i,
            Err(e) => r == Err::<UserInstruction, ProtoError>(e),
        },
{
    let fields = match parse_fields(input) {
        Ok(fields) => fields,
        Err(e) => return Err(e),
    };
    let ghost specs = field_specs(fields@);
    let mut i: usize = 0;
    assert(specs.skip(0) =~= specs);
    while i < fields.len()
        invariant
            i <= fields@.len(),
            specs == field_specs(fields@),
            spec_parse_fields(input@) == Ok::<Seq<FieldSpec>, ProtoError>(specs),
            decode_user_fields(specs) == decode_user_fields(specs.skip(i as int)),
        decreases fields@.len() - i,
    {
        let field = &fields[i];
        assert(specs.skip(i as int)[0] == field.spec());
        assert(specs.skip(i as int).len() > 0);
        if field.number == 2 && field.wire_type == 2 {
            return match decode_bytes_extension(field.bytes) {
                Ok(keys) => Ok(UserInstruction::Keystroke(keys)),
                Err(e) => Err(e),
            };
        }
        if field.number == 3 && field.wire_type == 2 {
            return match decode_resize_extension(field.bytes) {
                Ok((width, height)) => Ok(UserInstruction::Resize { width, height }),
                Err(e) => Err(e),
            };
        }
        assert(specs.skip(i as int).drop_first() =~= specs.skip(i + 1));
        i = i + 1;
    }
    Err(ProtoError::InvalidField("user instruction extension"))
}

fn decode_host_instruction(input: &[u8]) -> (r: Result<HostInstruction, ProtoError>)
    ensures
        match spec_decode_host_instruction(input@) {
            Ok(i) => r is Ok && r->Ok_0@ == i,
            Err(e) => r == Err::<HostInstruction, ProtoError>(e),
        },
{
    let fields = match parse_fields(input) {
        Ok(fields) => fields,
        Err(e) => return Err(e),
    };
    let ghost specs = field_specs(fields@);
    let mut i: usize = 0;
    assert(specs.skip(0) =~= specs);
    while i < fields.len()
        invariant
            i <= fields@.len(),
            specs == field_specs(fields@),
            spec_parse_fields(input@) == Ok::<Seq<FieldSpec>, ProtoError>(specs),
            decode_host_fields(specs) == decode_host_fields(specs.skip(i as int)),
        decreases fields@.len() - i,
    {
        let field = &fields[i];
        assert(specs.skip(i as int)[0] == field.spec());
        assert(specs.skip(i as int).len() > 0);
        if field.number == 2 && field.wire_type == 2 {
            return match decode_bytes_extension(field.bytes) {
                Ok(bytes) => Ok(HostInstruction::HostBytes(bytes)),
                Err(e) => Err(e),
            };
        }
        if field.number == 3 && field.wire_type == 2 {
            return match decode_resize_extension(field.bytes) {
                Ok((width, height)) => Ok(HostInstruction::Resize { width, height }),
                Err(e) => Err(e),
            };
        }
        if field.number == 7 && field.wire_type == 2 {
            let nested = match parse_fields(field.bytes) {
                Ok(nested) => nested,
                Err(e) => return Err(e),
            };
            return match find_field_exec(&nested, 8, 0) {
                Some(value) => Ok(HostInstruction::EchoAck(value.varint)),
                None => Err(ProtoError::InvalidField("echo ack")),
            };
        }
        assert(specs.skip(i as int).drop_first() =~= specs.skip(i + 1));
        i = i + 1;
    }
    Err(ProtoError::InvalidField("host instruction extension"))
}

impl UserMessage {
    pub fn encode(&self) -> (output: Vec<u8>)
        ensures
            output@ == spec_encode_user_message(self@),
    {
        let ghost s = self@;
        let mut output: Vec<u8> = Vec::new();
        let mut i: usize = 0;
        assert(s.skip(0) =~= s);
        while i < self.instructions.len()
            invariant
                i <= self.instructions@.len(),
                s == self@,
                output@ + spec_encode_user_message(s.skip(i as int)) == spec_encode_user_message(s),
            decreases self.instructions@.len() - i,
        {
            let body = encode_user_instruction(&self.instructions[i]);
            let ghost before = output@;
            put_bytes(&mut output, 1, body.as_slice());
            assert(s.skip(i as int)[0] == self.instructions@[i as int]@);
            assert(s.skip(i as int).drop_first() =~= s.skip(i + 1));
            assert(before + spec_encode_user_message(s.skip(i as int)) =~= output@ + spec_encode_user_message(s.skip(i + 1)));
            i = i + 1;
        }
        assert(s.skip(i as int) =~= Seq::<UserInstructionModel>::empty());
        assert(output@ + Seq::<u8>::empty() =~= output@);
        output
    }

    pub fn decode(input: &[u8]) -> (r: Result<Self, ProtoError>)
        ensures
            match spec_decode_user_message(input@) {
                Ok(s) => r is Ok && r->Ok_0@ == s,
                Err(e) => r == Err::<Self, ProtoError>(e),
            },
    {
        let fields = match parse_fields(input) {
            Ok(fields) => fields,
            Err(e) => return Err(e),
        };
        let ghost specs = field_specs(fields@);
        let mut message = UserMessage { instructions: Vec::new() };
        let mut i: usize = 0;
        assert(specs.skip(0) =~= specs);
        assert(message@ =~= Seq::<UserInstructionModel>::empty());
        assert(decode_user_message_fields(specs) == prepend_user(message@, decode_user_message_fields(specs.skip(0)))) by {
            if let Ok(rest) = decode_user_message_fields(specs) {
                assert(Seq::<UserInstructionModel>::empty() + rest =~= rest);
            }
        }
        while i < fields.len()
            invariant
                i <= fields@.len(),
                specs == field_specs(fields@),
                spec_parse_fields(input@) == Ok::<Seq<FieldSpec>, ProtoError>(specs),
                decode_user_message_fields(specs) == prepend_user(message@, decode_user_message_fields(specs.skip(i as int))),
            decreases fields@.len() - i,
        {
            let field = &fields[i];
            assert(specs.skip(i as int)[0] == field.spec());
            assert(specs.skip(i as int).len() > 0);
            assert(specs.skip(i as int).drop_first() =~= specs.skip(i + 1));
            if field.number == 1 && field.wire_type == 2 {
                let instruction = match decode_user_instruction(field.bytes) {
                    Ok(instruction) => instruction,
                    Err(e) => return Err(e),
                };
                let ghost before = message@;
                message.instructions.push(instruction);
                assert(message@ =~= before + seq![instruction@]);
                proof {
                    if let Ok(rest) = decode_user_message_fields(specs.skip(i + 1)) {
                        assert(before + (seq![instruction@] + rest) =~= message@ + rest);
                    }
                }
            }
            i = i + 1;
        }
        assert(specs.skip(i as int) =~= Seq::<FieldSpec>::empty());
        assert(message@ + Seq::<UserInstructionModel>::empty() =~= message@);
        Ok(message)
    }
}

impl HostMessage {
    pub fn encode(&self) -> (output: Vec<u8>)
        ensures
            output@ == spec_encode_host_message(self@),
    {
        let ghost s = self@;
        let mut output: Vec<u8> = Vec::new();
        let mut i: usize = 0;
        assert(s.skip(0) =~= s);
        while i < self.instructions.len()
            invariant
                i <= self.instructions@.len(),
                s == self@,
                output@ + spec_encode_host_message(s.skip(i as int)) == spec_encode_host_message(s),
            decreases self.instructions@.len() - i,
        {
            let body = encode_host_instruction(&self.instructions[i]);
            let ghost before = output@;
            put_bytes(&mut output, 1, body.as_slice());
            assert(s.skip(i as int)[0] == self.instructions@[i as int]@);
            assert(s.skip(i as int).drop_first() =~= s.skip(i + 1));
            assert(before + spec_encode_host_message(s.skip(i as int)) =~= output@ + spec_encode_host_message(s.skip(i + 1)));
            i = i + 1;
        }
        assert(s.skip(i as int) =~= Seq::<HostInstructionModel>::empty());
        assert(output@ + Seq::<u8>::empty() =~= output@);
        output
    }

    pub fn decode(input: &[u8]) -> (r: Result<Self, ProtoError>)
        ensures
            match spec_decode_host_message(input@) {
                Ok(s) => r is Ok && r->Ok_0@ == s,
                Err(e) => r == Err::<Self, ProtoError>(e),
            },
    {
        let fields = match parse_fields(input) {
            Ok(fields) => fields,
            Err(e) => return Err(e),
        };
        let ghost specs = field_specs(fields@);
        let mut message = HostMessage { instructions: Vec::new() };
        let mut i: usize = 0;
        assert(specs.skip(0) =~= specs);
        assert(message@ =~= Seq::<HostInstructionModel>::empty());
        assert(decode_host_message_fields(specs) == prepend_host(message@, decode_host_message_fields(specs.skip(0)))) by {
            if let Ok(rest) = decode_host_message_fields(specs) {
                assert(Seq::<HostInstructionModel>::empty() + rest =~= rest);
            }
        }
        while i < fields.len()
            invariant
                i <= fields@.len(),
                specs == field_specs(fields@),
                spec_parse_fields(input@) == Ok::<Seq<FieldSpec>, ProtoError>(specs),
                decode_host_message_fields(specs) == prepend_host(message@, decode_host_message_fields(specs.skip(i as int))),
            decreases fields@.len() - i,
        {
            let field = &fields[i];
            assert(specs.skip(i as int)[0] == field.spec());
            assert(specs.skip(i as int).len() > 0);
            assert(specs.skip(i as int).drop_first() =~= specs.skip(i + 1));
            if field.number == 1 && field.wire_type == 2 {
                let instruction = match decode_host_instruction(field.bytes) {
                    Ok(instruction) => instruction,
                    Err(e) => return Err(e),
                };
                let ghost before = message@;
                message.instructions.push(instruction);
                assert(message@ =~= before + seq![instruction@]);
                proof {
                    if let Ok(rest) = decode_host_message_fields(specs.skip(i + 1)) {
                        assert(before + (seq![instruction@] + rest) =~= message@ + rest);
                    }
                }
            }
            i = i + 1;
        }
        assert(specs.skip(i as int) =~= Seq::<FieldSpec>::empty());
        assert(message@ + Seq::<HostInstructionModel>::empty() =~= message@);
        Ok(message)
    }
}


proof fn lemma_parse_single_bytes_field(number: u32, bytes: Seq<u8>)
    requires
        valid_field_number(number),
        bytes.len() <= usize::MAX,
    ensures
        spec_parse_fields(bytes_field(number, bytes)) == Ok::<Seq<FieldSpec>, ProtoError>(
            seq![FieldSpec { number, wire_type: 2, varint: 0, bytes }],
        ),
{
    reveal(spec_parse_fields);
    lemma_parse_bytes_field(number, bytes, Seq::empty());
    assert(bytes_field(number, bytes) + Seq::<u8>::empty() =~= bytes_field(number, bytes));
    assert(spec_parse_fields(Seq::<u8>::empty()) == Ok::<Seq<FieldSpec>, ProtoError>(seq![]));
    assert(seq![FieldSpec { number, wire_type: 2, varint: 0, bytes }] + Seq::<FieldSpec>::empty()
        =~= seq![FieldSpec { number, wire_type: 2, varint: 0, bytes }]);
}

proof fn lemma_bytes_extension_round_trip(bytes: Seq<u8>)
    requires
        bytes.len() <= usize::MAX,
    ensures
        spec_decode_bytes_extension(bytes_extension(4, bytes)) == Ok::<Seq<u8>, ProtoError>(bytes),
{
    lemma_parse_single_bytes_field(4, bytes);
    let fs = seq![FieldSpec { number: 4, wire_type: 2, varint: 0, bytes }];
    assert(find_field(fs, 4, 2) == Some(fs[0]));
}

proof fn lemma_resize_round_trip(width: i32, height: i32)
    ensures
        spec_decode_resize_extension(resize_extension(width, height)) == Ok::<(i32, i32), ProtoError>((width, height)),
{
    reveal(spec_parse_fields);
    let w = width as i64 as u64;
    let h = height as i64 as u64;
    let empty = Seq::<u8>::empty();
    lemma_parse_varint_field(6, h, empty);
    lemma_parse_varint_field(5, w, varint_field(6, h) + empty);
    assert(resize_extension(width, height) =~= varint_field(5, w) + (varint_field(6, h) + empty));
    assert(spec_parse_fields(empty) == Ok::<Seq<FieldSpec>, ProtoError>(seq![]));
    let f5 = FieldSpec { number: 5, wire_type: 0, varint: w, bytes: seq![] };
    let f6 = FieldSpec { number: 6, wire_type: 0, varint: h, bytes: seq![] };
    let fs = seq![f5] + (seq![f6] + Seq::<FieldSpec>::empty());
    assert(spec_parse_fields(resize_extension(width, height)) == Ok::<Seq<FieldSpec>, ProtoError>(fs));
    assert(fs[0] == f5);
    assert(fs.drop_first() =~= seq![f6]);
    assert(find_field(fs, 5, 0) == Some(f5));
    assert(find_field(seq![f6], 6, 0) == Some(f6));
    assert(find_field(fs, 6, 0) == Some(f6));
    assert((width as i64 as u64) as i32 == width) by (bit_vector);
    assert((height as i64 as u64) as i32 == height) by (bit_vector);
}

/// Decoding the encoding of a user instruction gives back that instruction.
pub proof fn lemma_user_instruction_round_trip(i: UserInstructionModel)
    requires
        spec_encode_user_instruction(i).len() <= usize::MAX,
    ensures
        spec_decode_user_instruction(spec_encode_user_instruction(i)) == Ok::<UserInstructionModel, ProtoError>(i),
{
    match i {
        UserInstructionModel::Keystroke(keys) => {
            let ext = bytes_extension(4, keys);
            lemma_parse_single_bytes_field(2, ext);
            lemma_bytes_extension_round_trip(keys);
        },
        UserInstructionModel::Resize { width, height } => {
            let ext = resize_extension(width, height);
            lemma_parse_single_bytes_field(3, ext);
            lemma_resize_round_trip(width, height);
        },
    }
}

/// Decoding the encoding of a host instruction gives back that instruction.
pub proof fn lemma_host_instruction_round_trip(i: HostInstructionModel)
    requires
        spec_encode_host_instruction(i).len() <= usize::MAX,
    ensures
        spec_decode_host_instruction(spec_encode_host_instruction(i)) == Ok::<HostInstructionModel, ProtoError>(i),
{
    match i {
        HostInstructionModel::HostBytes(bytes) => {
            let ext = bytes_extension(4, bytes);
            lemma_parse_single_bytes_field(2, ext);
            lemma_bytes_extension_round_trip(bytes);
        },
        HostInstructionModel::Resize { width, height } => {
            let ext = resize_extension(width, height);
            lemma_parse_single_bytes_field(3, ext);
            lemma_resize_round_trip(width, height);
        },
        HostInstructionModel::EchoAck(value) => {
            let ext = varint_field(8, value);
            lemma_parse_single_bytes_field(7, ext);
            reveal(spec_parse_fields);
            lemma_parse_varint_field(8, value, Seq::empty());
            assert(ext + Seq::<u8>::empty() =~= ext);
            assert(spec_parse_fields(Seq::<u8>::empty()) == Ok::<Seq<FieldSpec>, ProtoError>(seq![]));
            let f8 = FieldSpec { number: 8, wire_type: 0, varint: value, bytes: seq![] };
            assert(seq![f8] + Seq::<FieldSpec>::empty() =~= seq![f8]);
            assert(find_field(seq![f8], 8, 0) == Some(f8));
        },
    }
}

/// Decoding the encoding of a user message gives back its instructions.
pub proof fn lemma_user_message_round_trip(s: Seq<UserInstructionModel>)
    requires
        spec_encode_user_message(s).len() <= usize::MAX,
    ensures
        spec_decode_user_message(spec_encode_user_message(s)) == Ok::<Seq<UserInstructionModel>, ProtoError>(s),
    decreases s.len(),
{
    if s.len() == 0 {
        reveal(spec_parse_fields);
        assert(spec_parse_fields(Seq::<u8>::empty()) == Ok::<Seq<FieldSpec>, ProtoError>(seq![]));
        assert(spec_encode_user_message(s) =~= Seq::<u8>::empty());
        assert(decode_user_message_fields(Seq::<FieldSpec>::empty()) == Ok::<Seq<UserInstructionModel>, ProtoError>(seq![]));
        assert(s =~= Seq::<UserInstructionModel>::empty());
    } else {
        let e0 = spec_encode_user_instruction(s[0]);
        let rest = spec_encode_user_message(s.drop_first());
        lemma_user_message_round_trip(s.drop_first());
        lemma_parse_bytes_field(1, e0, rest);
        lemma_user_instruction_round_trip(s[0]);
        let f1 = FieldSpec { number: 1, wire_type: 2, varint: 0, bytes: e0 };
        assert(spec_encode_user_message(s) == bytes_field(1, e0) + rest);
        let fs = spec_parse_fields(rest)->Ok_0;
        assert(spec_parse_fields(spec_encode_user_message(s)) == Ok::<Seq<FieldSpec>, ProtoError>(seq![f1] + fs));
        assert((seq![f1] + fs)[0] == f1);
        assert((seq![f1] + fs).drop_first() =~= fs);
        assert(decode_user_message_fields(fs) == Ok::<Seq<UserInstructionModel>, ProtoError>(s.drop_first()));
        assert(decode_user_message_fields(seq![f1] + fs) == Ok::<Seq<UserInstructionModel>, ProtoError>(seq![s[0]] + s.drop_first()));
        assert(seq![s[0]] + s.drop_first() =~= s);
    }
}

/// Decoding the encoding of a host message gives back its instructions.
pub proof fn lemma_host_message_round_trip(s: Seq<HostInstructionModel>)
    requires
        spec_encode_host_message(s).len() <= usize::MAX,
    ensures
        spec_decode_host_message(spec_encode_host_message(s)) == Ok::<Seq<HostInstructionModel>, ProtoError>(s),
    decreases s.len(),
{
    if s.len() == 0 {
        reveal(spec_parse_fields);
        assert(spec_parse_fields(Seq::<u8>::empty()) == Ok::<Seq<FieldSpec>, ProtoError>(seq![]));
        assert(spec_encode_host_message(s) =~= Seq::<u8>::empty());
        assert(decode_host_message_fields(Seq::<FieldSpec>::empty()) == Ok::<Seq<HostInstructionModel>, ProtoError>(seq![]));
        assert(s =~= Seq::<HostInstructionModel>::empty());
    } else {
        let e0 = spec_encode_host_instruction(s[0]);
        let rest = spec_encode_host_message(s.drop_first());
        lemma_host_message_round_trip(s.drop_first());
        lemma_parse_bytes_field(1, e0, rest);
        lemma_host_instruction_round_trip(s[0]);
        let f1 = FieldSpec { number: 1, wire_type: 2, varint: 0, bytes: e0 };
        assert(spec_encode_host_message(s) == bytes_field(1, e0) + rest);
        let fs = spec_parse_fields(rest)->Ok_0;
        assert(spec_parse_fields(spec_encode_host_message(s)) == Ok::<Seq<FieldSpec>, ProtoError>(seq![f1] + fs));
        assert((seq![f1] + fs)[0] == f1);
        assert((seq![f1] + fs).drop_first() =~= fs);
        assert(decode_host_message_fields(fs) == Ok::<Seq<HostInstructionModel>, ProtoError>(s.drop_first()));
        assert(decode_host_message_fields(seq![f1] + fs) == Ok::<Seq<HostInstructionModel>, ProtoError>(seq![s[0]] + s.drop_first()));
        assert(seq![s[0]] + s.drop_first() =~= s);
    }
}

} // verus!
