//! Splitting compressed SSP instructions into datagram-sized fragments and putting them back
//! together.

use std::collections::BTreeMap;
use std::io::{Read, Write};

use flate2::read::ZlibDecoder;
use flate2::write::ZlibEncoder;
use flate2::Compression;
use vstd::prelude::*;

use crate::protocol::wire::{be_u64_bytes, be_u64_value, lemma_be_u64_round_trip};
use crate::protocol::proto::{
    spec_decode_transport, spec_encode_transport, ProtoError, TransportInstruction,
    TransportInstructionModel,
};

verus! {

/// Bytes of a fragment header: the instruction id, then the fragment number and final flag.
pub const FRAGMENT_HEADER_LENGTH: usize = 10;

/// The largest fragment number; the high bit of the number word marks the final fragment.
pub const MAX_FRAGMENT_NUMBER: u16 = 0x7fff;

/// The longest compressed instruction that is fragmented or reassembled.
pub const MAX_COMPRESSED_INSTRUCTION_LENGTH: usize = 4 * 1024 * 1024;

/// The longest instruction that decompression may produce.
pub const MAX_INSTRUCTION_LENGTH: usize = 4 * 1024 * 1024;

#[verifier::external_type_specification]
#[verifier::external_body]
pub struct ExIoError(std::io::Error);

/// Errors of fragmentation and reassembly.
#[derive(Debug)]
pub enum FragmentError {
    InvalidHeader,
    FragmentNumberTooLarge,
    ConflictingDuplicate,
    ConflictingFinalMarker,
    TooManyFragments,
    TooLarge,
    Compression(std::io::Error),
    Decompression(std::io::Error),
    Proto(ProtoError),
}

/// One fragment of a compressed instruction.
#[derive(Debug, Clone, PartialEq, Eq)]
pub struct Fragment {
    pub id: u64,
    pub fragment_number: u16,
    pub final_fragment: bool,
    pub contents: Vec<u8>,
}

/// The value of a fragment.
pub struct FragmentModel {
    pub id: u64,
    pub fragment_number: u16,
    pub final_fragment: bool,
    pub contents: Seq<u8>,
}

impl View for Fragment {
    type V = FragmentModel;

    open spec fn view(&self) -> FragmentModel {
        FragmentModel {
            id: self.id,
            fragment_number: self.fragment_number,
            final_fragment: self.final_fragment,
            contents: self.contents@,
        }
    }
}

/// The header word: the fragment number, with the high bit set on the final fragment.
pub open spec fn fragment_word(f: FragmentModel) -> u16 {
    f.fragment_number | if f.final_fragment { 0x8000u16 } else { 0u16 }
}

/// The wire form of a fragment.
pub open spec fn spec_encode_fragment(f: FragmentModel) -> Seq<u8> {
    let w = fragment_word(f);
    be_u64_bytes(f.id) + seq![(w >> 8u16) as u8, w as u8] + f.contents
}

/// The fragment that a wire form of at least a header's length holds.
pub open spec fn spec_decode_fragment(input: Seq<u8>) -> FragmentModel {
    let w = ((input[8] as u16) << 8u16) | (input[9] as u16);
    FragmentModel {
        id: be_u64_value(input),
        fragment_number: w & 0x7fffu16,
        final_fragment: w & 0x8000u16 != 0,
        contents: input.skip(10),
    }
}

impl Fragment {
    /// A copy of the fragment.
    pub fn duplicate(&self) -> (r: Self)
        ensures
            r@ == self@,
    {
        let mut contents: Vec<u8> = Vec::new();
        crate::protocol::proto::extend_bytes(&mut contents, self.contents.as_slice());
        Fragment {
            id: self.id,
            fragment_number: self.fragment_number,
            final_fragment: self.final_fragment,
            contents,
        }
    }

    /// Whether two fragments are the same.
    pub fn same_as(&self, other: &Fragment) -> (b: bool)
        ensures
            b == (self@ == other@),
    {
        self.id == other.id && self.fragment_number == other.fragment_number
            && self.final_fragment == other.final_fragment
            && crate::protocol::proto::same_bytes(self.contents.as_slice(), other.contents.as_slice())
    }

    pub fn encode(&self) -> (r: Result<Vec<u8>, FragmentError>)
        ensures
            self.fragment_number > MAX_FRAGMENT_NUMBER ==> r matches Err(FragmentError::FragmentNumberTooLarge),
            self.fragment_number <= MAX_FRAGMENT_NUMBER ==> r is Ok && r->Ok_0@ == spec_encode_fragment(self@),
    {
        if self.fragment_number > MAX_FRAGMENT_NUMBER {
            return Err(FragmentError::FragmentNumberTooLarge);
        }
        let combined: u16 = self.fragment_number | if self.final_fragment { 0x8000u16 } else { 0u16 };
        let id = self.id;
        let mut output: Vec<u8> = Vec::new();
        output.push((id >> 56u64) as u8);
        output.push((id >> 48u64) as u8);
        output.push((id >> 40u64) as u8);
        output.push((id >> 32u64) as u8);
        output.push((id >> 24u64) as u8);
        output.push((id >> 16u64) as u8);
        output.push((id >> 8u64) as u8);
        output.push(id as u8);
        output.push((combined >> 8u16) as u8);
        output.push(combined as u8);
        let ghost header = output@;
        crate::protocol::proto::extend_bytes(&mut output, self.contents.as_slice());
        assert(header =~= be_u64_bytes(id) + seq![(combined >> 8u16) as u8, combined as u8]);
        Ok(output)
    }

    pub fn decode(input: &[u8]) -> (r: Result<Self, FragmentError>)
        ensures
            input@.len() < FRAGMENT_HEADER_LENGTH ==> r matches Err(FragmentError::InvalidHeader),
            input@.len() >= FRAGMENT_HEADER_LENGTH ==> r is Ok && r->Ok_0@ == spec_decode_fragment(input@),
    {
        if input.len() < FRAGMENT_HEADER_LENGTH {
            return Err(FragmentError::InvalidHeader);
        }
        let id: u64 = ((input[0] as u64) << 56u64) | ((input[1] as u64) << 48u64) | ((input[2] as u64)
            << 40u64) | ((input[3] as u64) << 32u64) | ((input[4] as u64) << 24u64) | ((input[5] as u64)
            << 16u64) | ((input[6] as u64) << 8u64) | (input[7] as u64);
        let combined: u16 = ((input[8] as u16) << 8u16) | (input[9] as u16);
        let mut contents: Vec<u8> = Vec::new();
        let mut i: usize = FRAGMENT_HEADER_LENGTH;
        while i < input.len()
            invariant
                FRAGMENT_HEADER_LENGTH <= i <= input@.len(),
                contents@ == input@.subrange(10, i as int),
            decreases input@.len() - i,
        {
            contents.push(input[i]);
            i = i + 1;
            assert(contents@ =~= input@.subrange(10, i as int));
        }
        assert(contents@ =~= input@.skip(10));
        Ok(Fragment {
            id,
            fragment_number: combined & MAX_FRAGMENT_NUMBER,
            final_fragment: combined & 0x8000u16 != 0,
            contents,
        })
    }
}

/// Decoding the wire form of a fragment whose number fits gives back the fragment.
pub proof fn lemma_fragment_round_trip(f: FragmentModel)
    requires
        f.fragment_number <= MAX_FRAGMENT_NUMBER,
    ensures
        spec_encode_fragment(f).len() >= FRAGMENT_HEADER_LENGTH,
        spec_decode_fragment(spec_encode_fragment(f)) == f,
{
    let e = spec_encode_fragment(f);
    let id = f.id;
    let w = fragment_word(f);
    let n = f.fragment_number;
    lemma_be_u64_round_trip(id);
    let hi = (w >> 8u16) as u8;
    let lo = w as u8;
    assert((((hi as u16) << 8u16) | (lo as u16)) == w) by (bit_vector)
        requires
            hi == (w >> 8u16) as u8,
            lo == w as u8,
    ;
    if f.final_fragment {
        assert((n | 0x8000u16) & 0x7fffu16 == n && (n | 0x8000u16) & 0x8000u16 != 0) by (bit_vector)
            requires
                n <= 0x7fffu16,
        ;
    } else {
        assert((n | 0u16) & 0x7fffu16 == n && (n | 0u16) & 0x8000u16 == 0) by (bit_vector)
            requires
                n <= 0x7fffu16,
        ;
    }
    assert(e[8] == hi && e[9] == lo);
    assert(e.take(8) =~= be_u64_bytes(id));
    assert(be_u64_value(e) == be_u64_value(e.take(8)));
    assert(e.skip(10) =~= f.contents);
}


// ---------------------------------------------------------------------------
// Compression
// ---------------------------------------------------------------------------

/// The zlib stream that `flate2` produces for `input` at its default level.
pub uninterp spec fn zlib_compressed(input: Seq<u8>) -> Seq<u8>;

/// The bytes that `flate2` inflates from `input`, reading at most `limit` of them, or `None`
/// when its decoder reports the stream corrupt. (A stream that just stops early gives what
/// was inflated up to there.)
pub uninterp spec fn zlib_inflated(input: Seq<u8>, limit: nat) -> Option<Seq<u8>>;

/// Compresses `input` with `flate2::write::ZlibEncoder` at `Compression::default()`
/// (`write_all`, then `finish`), into a `Vec`. Claims: it succeeds (the encoder's sink is a
/// `Vec`, whose writes do not fail, and the deflate stream it drives refuses only calls made
/// after it finished, or a non-final flush after a final one, which the encoder never makes);
/// the stream is the one `zlib_compressed` names for `input`; it is not empty (a zlib stream
/// starts with its two-byte header); inflating it with a limit of at least the input's length
/// gives the input back.
#[verifier::external_body]
fn zlib_compress(input: &[u8]) -> (r: Result<Vec<u8>, std::io::Error>)
    ensures
        r is Ok,
        r matches Ok(v) ==> v@.len() > 0,
        r matches Ok(v) ==> v@ == zlib_compressed(input@),
        r matches Ok(v) ==> forall|limit: nat|
            limit >= input@.len() ==> #[trigger] zlib_inflated(v@, limit) == Some(input@),
{
    let mut encoder = ZlibEncoder::new(Vec::new(), Compression::default());
    encoder.write_all(input)?;
    encoder.finish()
}

/// Inflates the zlib stream `input` with `flate2::read::ZlibDecoder`, reading at most `limit`
/// bytes (`Read::take`, then `read_to_end`). Claims: it succeeds exactly when
/// `zlib_inflated` names some bytes, which it then returns; they are at most `limit` long.
#[verifier::external_body]
fn zlib_decompress(input: &[u8], limit: u64) -> (r: Result<Vec<u8>, std::io::Error>)
    ensures
        r is Ok <==> zlib_inflated(input@, limit as nat) is Some,
        r matches Ok(v) ==> v@ == zlib_inflated(input@, limit as nat)->Some_0,
        r matches Ok(v) ==> v@.len() <= limit,
{
    let mut decoder = ZlibDecoder::new(input);
    let mut output = Vec::new();
    decoder.by_ref().take(limit).read_to_end(&mut output)?;
    Ok(output)
}

// ---------------------------------------------------------------------------
// Fragmentation
// ---------------------------------------------------------------------------

pub open spec fn fragment_views(fs: Seq<Fragment>) -> Seq<FragmentModel> {
    fs.map_values(|f: Fragment| f@)
}

/// The fragments of `data`, the part of a compressed instruction from fragment `index` on:
/// consecutive pieces of at most `payload` bytes, the last one marked final; `None` when a
/// fragment number would pass `MAX_FRAGMENT_NUMBER`.
pub open spec fn spec_fragments(id: u64, data: Seq<u8>, payload: nat, index: nat) -> Option<Seq<FragmentModel>>
    decreases data.len(),
{
    if data.len() == 0 || payload == 0 {
        Some(seq![])
    } else if index > MAX_FRAGMENT_NUMBER {
        None
    } else {
        let n = if data.len() < payload { data.len() } else { payload };
        let f = FragmentModel {
            id,
            fragment_number: index as u16,
            final_fragment: data.len() <= payload,
            contents: data.take(n as int),
        };
        match spec_fragments(id, data.skip(n as int), payload, index + 1) {
            Some(rest) => Some(seq![f] + rest),
            None => None,
        }
    }
}

pub open spec fn prepend_fragments(prefix: Seq<FragmentModel>, r: Option<Seq<FragmentModel>>) -> Option<Seq<FragmentModel>> {
    match r {
        Some(rest) => Some(prefix + rest),
        None => None,
    }
}

/// Cuts a compressed instruction into fragments numbered from 0 under the id `id`.
pub fn fragments_from_compressed(id: u64, compressed: &[u8], payload_mtu: usize) -> (r: Result<Vec<Fragment>, FragmentError>)
    requires
        payload_mtu > 0,
    ensures
        match spec_fragments(id, compressed@, payload_mtu as nat, 0) {
            Some(fs) => r is Ok && fragment_views(r->Ok_0@) == fs,
            None => r matches Err(FragmentError::TooManyFragments),
        },
{
    let ghost c = compressed@;
    let ghost p = payload_mtu as nat;
    let mut out: Vec<Fragment> = Vec::new();
    let mut offset: usize = 0;
    let mut index: usize = 0;
    assert(c.skip(0) =~= c);
    assert(fragment_views(out@) =~= Seq::<FragmentModel>::empty());
    while offset < compressed.len()
        invariant
            c == compressed@,
            p == payload_mtu,
            p > 0,
            offset <= c.len(),
            index <= MAX_FRAGMENT_NUMBER + 1,
            spec_fragments(id, c, p, 0) == prepend_fragments(fragment_views(out@), spec_fragments(id, c.skip(offset as int), p, index as nat)),
        decreases c.len() - offset,
    {
        let ghost before = fragment_views(out@);
        let ghost rest = c.skip(offset as int);
        if index > MAX_FRAGMENT_NUMBER as usize {
            return Err(FragmentError::TooManyFragments);
        }
        let remaining = compressed.len() - offset;
        let n = if remaining < payload_mtu { remaining } else { payload_mtu };
        let contents = crate::protocol::proto::copy_range(compressed, offset, offset + n);
        let fragment = Fragment {
            id,
            fragment_number: index as u16,
            final_fragment: remaining <= payload_mtu,
            contents,
        };
        assert(contents@ =~= rest.take(n as int));
        assert(rest.skip(n as int) =~= c.skip(offset + n));
        out.push(fragment);
        assert(fragment_views(out@) =~= before.push(fragment@));
        offset = offset + n;
        index = index + 1;
        proof {
            let tail = spec_fragments(id, c.skip(offset as int), p, index as nat);
            match tail {
                Some(t) => {
                    assert(before + (seq![fragment@] + t) =~= before.push(fragment@) + t);
                },
                None => {},
            }
        }
    }
    assert(c.skip(offset as int).len() == 0);
    assert(fragment_views(out@) + Seq::<FragmentModel>::empty() =~= fragment_views(out@));
    Ok(out)
}

/// Numbers instructions and cuts each, compressed, into fragments.
pub struct Fragmenter {
    next_instruction_id: u64,
    last_instruction: Option<TransportInstruction>,
    last_mtu: Option<usize>,
}

/// The state of a fragmenter.
pub struct FragmenterModel {
    pub next_id: u64,
    pub last_instruction: Option<TransportInstructionModel>,
    pub last_mtu: Option<usize>,
}

impl View for Fragmenter {
    type V = FragmenterModel;

    closed spec fn view(&self) -> FragmenterModel {
        FragmenterModel {
            next_id: self.next_instruction_id,
            last_instruction: match self.last_instruction {
                Some(i) => Some(i@),
                None => None,
            },
            last_mtu: self.last_mtu,
        }
    }
}

impl Default for Fragmenter {
    fn default() -> (r: Self)
        ensures
            r@ == (FragmenterModel { next_id: 0, last_instruction: None, last_mtu: None }),
    {
        Fragmenter { next_instruction_id: 0, last_instruction: None, last_mtu: None }
    }
}

/// The fragmenter after it was asked to cut `i` for `mtu`: a new instruction id unless it is
/// the same instruction for the same MTU as last time.
pub open spec fn spec_fragmenter_after(m: FragmenterModel, i: TransportInstructionModel, mtu: usize) -> FragmenterModel {
    if m.last_instruction == Some(i) && m.last_mtu == Some(mtu) {
        m
    } else {
        FragmenterModel {
            next_id: if m.next_id == u64::MAX { 0 } else { (m.next_id + 1) as u64 },
            last_instruction: Some(i),
            last_mtu: Some(mtu),
        }
    }
}

/// What cutting a compressed instruction for `mtu` gives, when compression succeeded.
pub open spec fn spec_fragments_result(id: u64, compressed: Seq<u8>, mtu: usize, r: Result<Vec<Fragment>, FragmentError>) -> bool {
    if compressed.len() > MAX_COMPRESSED_INSTRUCTION_LENGTH {
        r matches Err(FragmentError::TooLarge)
    } else {
        match spec_fragments(id, compressed, (mtu - FRAGMENT_HEADER_LENGTH) as nat, 0) {
            Some(fs) => r is Ok && fragment_views(r->Ok_0@) == fs,
            None => r matches Err(FragmentError::TooManyFragments),
        }
    }
}

impl Fragmenter {
    pub fn make_fragments(&mut self, instruction: &TransportInstruction, mtu: usize) -> (r: Result<Vec<Fragment>, FragmentError>)
        ensures
            mtu <= FRAGMENT_HEADER_LENGTH ==> (r matches Err(FragmentError::InvalidHeader)),
            mtu <= FRAGMENT_HEADER_LENGTH ==> final(self)@ == old(self)@,
            mtu > FRAGMENT_HEADER_LENGTH ==> final(self)@ == spec_fragmenter_after(old(self)@, instruction@, mtu),
            mtu > FRAGMENT_HEADER_LENGTH ==> spec_fragments_result(
                final(self)@.next_id,
                zlib_compressed(spec_encode_transport(instruction@)),
                mtu,
                r,
            ),
            r matches Ok(fs) ==> fs@.len() > 0,
            r is Ok ==> forall|limit: nat|
                limit >= spec_encode_transport(instruction@).len() ==> #[trigger] zlib_inflated(
                    zlib_compressed(spec_encode_transport(instruction@)),
                    limit,
                ) == Some(spec_encode_transport(instruction@)),
    {
        if mtu <= FRAGMENT_HEADER_LENGTH {
            return Err(FragmentError::InvalidHeader);
        }
        let payload_mtu = mtu - FRAGMENT_HEADER_LENGTH;
        let same = match &self.last_instruction {
            Some(last) => last.same_as(instruction) && match self.last_mtu {
                Some(m) => m == mtu,
                None => false,
            },
            None => false,
        };
        if !same {
            self.next_instruction_id = self.next_instruction_id.wrapping_add(1);
            self.last_instruction = Some(instruction.duplicate());
            self.last_mtu = Some(mtu);
        }
        let encoded = instruction.encode();
        let compressed = match zlib_compress(encoded.as_slice()) {
            Ok(c) => c,
            Err(e) => return Err(FragmentError::Compression(e)),
        };
        if compressed.len() > MAX_COMPRESSED_INSTRUCTION_LENGTH {
            return Err(FragmentError::TooLarge);
        }
        proof {
            if spec_fragments(self.next_instruction_id, compressed@, payload_mtu as nat, 0) is Some {
                lemma_fragments_shape(self.next_instruction_id, compressed@, payload_mtu as nat, 0);
            }
        }
        fragments_from_compressed(self.next_instruction_id, compressed.as_slice(), payload_mtu)
    }
}


// ---------------------------------------------------------------------------
// Reassembly
// ---------------------------------------------------------------------------

/// Collects the fragments of one instruction and hands the instruction out once it is whole.
pub struct FragmentAssembler {
    current_id: Option<u64>,
    fragments: BTreeMap<u16, Fragment>,
    final_fragment: Option<u16>,
    compressed_length: usize,
}

/// The state of an assembler.
pub struct AssemblerModel {
    pub current_id: Option<u64>,
    pub fragments: Map<u16, FragmentModel>,
    pub final_fragment: Option<u16>,
    pub compressed_length: nat,
}

impl View for FragmentAssembler {
    type V = AssemblerModel;

    closed spec fn view(&self) -> AssemblerModel {
        AssemblerModel {
            current_id: self.current_id,
            fragments: self.fragments@.map_values(|f: Fragment| f@),
            final_fragment: self.final_fragment,
            compressed_length: self.compressed_length as nat,
        }
    }
}

/// An assembler that holds nothing.
pub open spec fn empty_assembler() -> AssemblerModel {
    AssemblerModel { current_id: None, fragments: Map::empty(), final_fragment: None, compressed_length: 0 }
}

impl Default for FragmentAssembler {
    fn default() -> (r: Self)
        ensures
            r@ == empty_assembler(),
    {
        let r = FragmentAssembler {
            current_id: None,
            fragments: BTreeMap::new(),
            final_fragment: None,
            compressed_length: 0,
        };
        assert(r@.fragments =~= Map::<u16, FragmentModel>::empty());
        r
    }
}

/// Why reassembly failed.
pub enum AssemblyFault {
    InvalidHeader,
    FragmentNumberTooLarge,
    ConflictingDuplicate,
    ConflictingFinalMarker,
    TooLarge,
    Decompression,
    Proto(ProtoError),
}

/// Whether the error `e` is the fault `f`.
pub open spec fn is_fault(e: FragmentError, f: AssemblyFault) -> bool {
    match (e, f) {
        (FragmentError::InvalidHeader, AssemblyFault::InvalidHeader) => true,
        (FragmentError::FragmentNumberTooLarge, AssemblyFault::FragmentNumberTooLarge) => true,
        (FragmentError::ConflictingDuplicate, AssemblyFault::ConflictingDuplicate) => true,
        (FragmentError::ConflictingFinalMarker, AssemblyFault::ConflictingFinalMarker) => true,
        (FragmentError::TooLarge, AssemblyFault::TooLarge) => true,
        (FragmentError::Decompression(_), AssemblyFault::Decompression) => true,
        (FragmentError::Proto(p), AssemblyFault::Proto(q)) => p == q,
        _ => false,
    }
}

/// Whether the exec result `r` is the spec result `s`.
pub open spec fn assembly_result_is(
    r: Result<Option<TransportInstruction>, FragmentError>,
    s: Result<Option<TransportInstructionModel>, AssemblyFault>,
) -> bool {
    match (r, s) {
        (Ok(Some(i)), Ok(Some(m))) => i@ == m,
        (Ok(None), Ok(None)) => true,
        (Err(e), Err(f)) => is_fault(e, f),
        _ => false,
    }
}

/// The contents of fragments `0 .. count` laid end to end.
pub open spec fn assembled_bytes(fragments: Map<u16, FragmentModel>, count: nat) -> Seq<u8>
    decreases count,
{
    if count == 0 {
        seq![]
    } else {
        assembled_bytes(fragments, (count - 1) as nat) + fragments[(count - 1) as u16].contents
    }
}

/// Whether the fragments `0 ..= last` are all there, and no others.
pub open spec fn fragments_complete(fragments: Map<u16, FragmentModel>, last: u16) -> bool {
    &&& fragments.len() == last + 1
    &&& forall|k: u16| k <= last ==> #[trigger] fragments.contains_key(k)
}

/// The assembler working on instruction `id`: the same one, or emptied for a new id.
pub open spec fn assembler_for(m: AssemblerModel, id: u64) -> AssemblerModel {
    if m.current_id == Some(id) {
        m
    } else {
        AssemblerModel { current_id: Some(id), ..empty_assembler() }
    }
}

/// What the assembler does once it holds every fragment up to the final one (or not yet).
pub open spec fn spec_finish_assembly(m: AssemblerModel) -> (Result<Option<TransportInstructionModel>, AssemblyFault>, AssemblerModel) {
    match m.final_fragment {
        None => (Ok(None), m),
        Some(last) => if !fragments_complete(m.fragments, last) {
            (Ok(None), m)
        } else {
            match zlib_inflated(assembled_bytes(m.fragments, (last + 1) as nat), (MAX_INSTRUCTION_LENGTH + 1) as nat) {
                None => (Err(AssemblyFault::Decompression), m),
                Some(bytes) => if bytes.len() > MAX_INSTRUCTION_LENGTH {
                    (Err(AssemblyFault::TooLarge), m)
                } else {
                    match spec_decode_transport(bytes) {
                        Ok(i) => (Ok(Some(i)), empty_assembler()),
                        Err(e) => (Err(AssemblyFault::Proto(e)), empty_assembler()),
                    }
                },
            }
        },
    }
}

/// The assembler after fragment `f` arrives, and what came of it.
pub open spec fn spec_add_fragment(m: AssemblerModel, f: FragmentModel) -> (Result<Option<TransportInstructionModel>, AssemblyFault>, AssemblerModel) {
    let n = f.fragment_number;
    if n > MAX_FRAGMENT_NUMBER {
        (Err(AssemblyFault::FragmentNumberTooLarge), m)
    } else {
        let m1 = assembler_for(m, f.id);
        if m1.final_fragment matches Some(last) && (n > last || f.final_fragment && last != n) {
            (Err(AssemblyFault::ConflictingFinalMarker), m1)
        } else {
            let m2 = if f.final_fragment { AssemblerModel { final_fragment: Some(n), ..m1 } } else { m1 };
            if m2.fragments.contains_key(n) {
                if m2.fragments[n] != f {
                    (Err(AssemblyFault::ConflictingDuplicate), m2)
                } else {
                    spec_finish_assembly(m2)
                }
            } else if m2.compressed_length + f.contents.len() > usize::MAX {
                (Err(AssemblyFault::TooLarge), m2)
            } else {
                let m3 = AssemblerModel { compressed_length: m2.compressed_length + f.contents.len(), ..m2 };
                if m3.compressed_length > MAX_COMPRESSED_INSTRUCTION_LENGTH {
                    (Err(AssemblyFault::TooLarge), m3)
                } else {
                    spec_finish_assembly(AssemblerModel { fragments: m3.fragments.insert(n, f), ..m3 })
                }
            }
        }
    }
}

impl FragmentAssembler {
    pub fn add_wire(&mut self, input: &[u8]) -> (r: Result<Option<TransportInstruction>, FragmentError>)
        ensures
            input@.len() < FRAGMENT_HEADER_LENGTH ==> (r matches Err(FragmentError::InvalidHeader)),
            input@.len() < FRAGMENT_HEADER_LENGTH ==> final(self)@ == old(self)@,
            input@.len() >= FRAGMENT_HEADER_LENGTH ==> ({
                let (s, m) = spec_add_fragment(old(self)@, spec_decode_fragment(input@));
                final(self)@ == m && assembly_result_is(r, s)
            }),
    {
        let fragment = match Fragment::decode(input) {
            Ok(f) => f,
            Err(e) => return Err(e),
        };
        self.add_fragment(fragment)
    }

    fn reset(&mut self)
        ensures
            final(self)@ == empty_assembler(),
    {
        self.current_id = None;
        self.fragments.clear();
        self.final_fragment = None;
        self.compressed_length = 0;
        assert(self@.fragments =~= Map::<u16, FragmentModel>::empty());
    }

    fn finish(&mut self) -> (r: Result<Option<TransportInstruction>, FragmentError>)
        ensures
            final(self)@ == spec_finish_assembly(old(self)@).1,
            assembly_result_is(r, spec_finish_assembly(old(self)@).0),
    {
        let ghost m = self@;
        let last = match self.final_fragment {
            Some(last) => last,
            None => return Ok(None),
        };
        let expected_count: usize = last as usize + 1;
        assert(self.fragments@.dom() =~= m.fragments.dom());
        if self.fragments.len() != expected_count {
            return Ok(None);
        }
        let mut k: u32 = 0;
        while k <= last as u32
            invariant
                self@ == m,
                m.final_fragment == Some(last),
                k <= last as u32 + 1,
                forall|j: u16| j < k ==> #[trigger] m.fragments.contains_key(j),
            decreases last as u32 + 1 - k,
        {
            if !self.fragments.contains_key(&(k as u16)) {
                assert(!m.fragments.contains_key(k as u16));
                assert(!fragments_complete(m.fragments, last));
                return Ok(None);
            }
            k = k + 1;
        }
        assert(fragments_complete(m.fragments, last));
        let mut compressed: Vec<u8> = Vec::new();
        let mut k: u32 = 0;
        while k <= last as u32
            invariant
                self@ == m,
                m.final_fragment == Some(last),
                fragments_complete(m.fragments, last),
                k <= last as u32 + 1,
                compressed@ == assembled_bytes(m.fragments, k as nat),
            decreases last as u32 + 1 - k,
        {
            assert(m.fragments.contains_key(k as u16));
            match self.fragments.get(&(k as u16)) {
                Some(f) => {
                    crate::protocol::proto::extend_bytes(&mut compressed, f.contents.as_slice());
                },
                None => {
                    assert(false);
                    return Err(FragmentError::InvalidHeader);
                },
            }
            k = k + 1;
        }
        let limit: u64 = (MAX_INSTRUCTION_LENGTH + 1) as u64;
        let decoded = match zlib_decompress(compressed.as_slice(), limit) {
            Ok(d) => d,
            Err(e) => return Err(FragmentError::Decompression(e)),
        };
        if decoded.len() > MAX_INSTRUCTION_LENGTH {
            return Err(FragmentError::TooLarge);
        }
        self.reset();
        match TransportInstruction::decode(decoded.as_slice()) {
            Ok(i) => Ok(Some(i)),
            Err(e) => Err(FragmentError::Proto(e)),
        }
    }

    pub fn add_fragment(&mut self, fragment: Fragment) -> (r: Result<Option<TransportInstruction>, FragmentError>)
        ensures
            final(self)@ == spec_add_fragment(old(self)@, fragment@).1,
            assembly_result_is(r, spec_add_fragment(old(self)@, fragment@).0),
    {
        let n = fragment.fragment_number;
        if n > MAX_FRAGMENT_NUMBER {
            return Err(FragmentError::FragmentNumberTooLarge);
        }
        let same_id = match self.current_id {
            Some(id) => id == fragment.id,
            None => false,
        };
        if !same_id {
            self.current_id = Some(fragment.id);
            self.fragments.clear();
            self.final_fragment = None;
            self.compressed_length = 0;
            assert(self@.fragments =~= Map::<u16, FragmentModel>::empty());
        }
        if let Some(last) = self.final_fragment {
            if n > last {
                return Err(FragmentError::ConflictingFinalMarker);
            }
        }
        if fragment.final_fragment {
            if let Some(last) = self.final_fragment {
                if last != n {
                    return Err(FragmentError::ConflictingFinalMarker);
                }
            }
            self.final_fragment = Some(n);
        }
        let ghost m2 = self@;
        match self.fragments.get(&n) {
            Some(existing) => {
                assert(m2.fragments.contains_key(n) && m2.fragments[n] == existing@);
                if !existing.same_as(&fragment) {
                    return Err(FragmentError::ConflictingDuplicate);
                }
            },
            None => {
                assert(!m2.fragments.contains_key(n));
                let length = match self.compressed_length.checked_add(fragment.contents.len()) {
                    Some(length) => length,
                    None => return Err(FragmentError::TooLarge),
                };
                self.compressed_length = length;
                if self.compressed_length > MAX_COMPRESSED_INSTRUCTION_LENGTH {
                    return Err(FragmentError::TooLarge);
                }
                let ghost before = self.fragments@;
                let ghost fv = fragment@;
                let _ = self.fragments.insert(n, fragment);
                assert(self@.fragments =~= m2.fragments.insert(n, fv));
            },
        }
        self.finish()
    }
}


// ---------------------------------------------------------------------------
// Reassembly of what was fragmented
// ---------------------------------------------------------------------------

/// The contents of `fs`, laid end to end.
pub open spec fn joined_contents(fs: Seq<FragmentModel>) -> Seq<u8>
    decreases fs.len(),
{
    if fs.len() == 0 {
        seq![]
    } else {
        fs[0].contents + joined_contents(fs.drop_first())
    }
}

/// The assembler after each fragment of `fs` arrived in turn, with what each arrival gave.
pub open spec fn feed_fragments(m: AssemblerModel, fs: Seq<FragmentModel>) -> (
    Seq<Result<Option<TransportInstructionModel>, AssemblyFault>>,
    AssemblerModel,
)
    decreases fs.len(),
{
    if fs.len() == 0 {
        (seq![], m)
    } else {
        let (rs, m1) = feed_fragments(m, fs.drop_last());
        let (r, m2) = spec_add_fragment(m1, fs.last());
        (rs.push(r), m2)
    }
}

/// The contents of fragments with one more at the end are theirs, then its.
pub proof fn lemma_joined_push(fs: Seq<FragmentModel>, f: FragmentModel)
    ensures
        joined_contents(fs.push(f)) == joined_contents(fs) + f.contents,
    decreases fs.len(),
{
    if fs.len() == 0 {
        assert(fs.push(f).drop_first() =~= Seq::<FragmentModel>::empty());
        assert(joined_contents(Seq::<FragmentModel>::empty()) =~= Seq::<u8>::empty());
        assert(fs.push(f)[0] == f);
        assert(joined_contents(fs.push(f)) =~= f.contents);
    } else {
        lemma_joined_push(fs.drop_first(), f);
        assert(fs.push(f).drop_first() =~= fs.drop_first().push(f));
        assert(joined_contents(fs.push(f)) =~= joined_contents(fs) + f.contents);
    }
}

proof fn lemma_joined_take_len(fs: Seq<FragmentModel>, j: int, k: int)
    requires
        0 <= j <= k <= fs.len(),
    ensures
        joined_contents(fs.take(j)).len() <= joined_contents(fs.take(k)).len(),
    decreases k - j,
{
    if j < k {
        lemma_joined_take_len(fs, j, k - 1);
        assert(fs.take(k) =~= fs.take(k - 1).push(fs[k - 1]));
        lemma_joined_push(fs.take(k - 1), fs[k - 1]);
    }
}

/// Whether fragment `k` of `fs` carries `id`, number `index + k`, and the final mark exactly
/// when it is the last.
pub open spec fn fragment_in_place(fs: Seq<FragmentModel>, k: int, id: u64, index: nat) -> bool {
    &&& fs[k].id == id
    &&& index + k <= MAX_FRAGMENT_NUMBER
    &&& fs[k].fragment_number == index + k
    &&& fs[k].final_fragment == (k == fs.len() - 1)
}

/// The shape of what `spec_fragments` cuts: numbered from `index`, final exactly at the end,
/// and holding `data` when laid end to end.
pub proof fn lemma_fragments_shape(id: u64, data: Seq<u8>, payload: nat, index: nat)
    requires
        payload > 0,
        spec_fragments(id, data, payload, index) is Some,
    ensures
        (spec_fragments(id, data, payload, index)->Some_0.len() == 0) == (data.len() == 0),
        joined_contents(spec_fragments(id, data, payload, index)->Some_0) == data,
        forall|k: int|
            0 <= k < spec_fragments(id, data, payload, index)->Some_0.len() ==> #[trigger] fragment_in_place(
                spec_fragments(id, data, payload, index)->Some_0,
                k,
                id,
                index,
            ),
    decreases data.len(),
{
    let fs = spec_fragments(id, data, payload, index)->Some_0;
    if data.len() == 0 {
        assert(fs.len() == 0);
        assert(joined_contents(fs) =~= data);
    } else {
        let n = if data.len() < payload { data.len() } else { payload };
        let rest = data.skip(n as int);
        lemma_fragments_shape(id, rest, payload, index + 1);
        let tail = spec_fragments(id, rest, payload, index + 1)->Some_0;
        let f = FragmentModel {
            id,
            fragment_number: index as u16,
            final_fragment: data.len() <= payload,
            contents: data.take(n as int),
        };
        assert(fs == seq![f] + tail);
        assert(fs.len() == tail.len() + 1);
        assert(fs.drop_first() =~= tail);
        assert(data =~= data.take(n as int) + rest);
        assert((tail.len() == 0) == (rest.len() == 0));
        assert(joined_contents(fs) == fs[0].contents + joined_contents(tail));
        assert forall|k: int| 0 <= k < fs.len() implies #[trigger] fragment_in_place(fs, k, id, index) by {
            if k > 0 {
                assert(fs[k] == tail[k - 1]);
                assert(fragment_in_place(tail, k - 1, id, index + 1));
            } else {
                assert(fs[0] == f);
            }
        }
    }
}

/// The fragments `0 .. j` of `fs`, keyed by number.
pub open spec fn fragment_map(fs: Seq<FragmentModel>, j: nat) -> Map<u16, FragmentModel>
    decreases j,
{
    if j == 0 {
        Map::empty()
    } else {
        fragment_map(fs, (j - 1) as nat).insert((j - 1) as u16, fs[j - 1])
    }
}

/// The map of the first `j` fragments: `j` of them, keyed `0 .. j`, laying out their contents.
pub proof fn lemma_fragment_map(fs: Seq<FragmentModel>, j: nat)
    requires
        j <= MAX_FRAGMENT_NUMBER + 1,
        j <= fs.len(),
    ensures
        fragment_map(fs, j).dom().finite(),
        fragment_map(fs, j).len() == j,
        forall|k: u16| #[trigger] fragment_map(fs, j).contains_key(k) <==> k < j,
        forall|k: u16| k < j ==> #[trigger] fragment_map(fs, j)[k] == fs[k as int],
        assembled_bytes(fragment_map(fs, j), j) == joined_contents(fs.take(j as int)),
    decreases j,
{
    if j == 0 {
        assert(fs.take(0) =~= Seq::<FragmentModel>::empty());
    } else {
        let pm = fragment_map(fs, (j - 1) as nat);
        lemma_fragment_map(fs, (j - 1) as nat);
        assert(!pm.contains_key((j - 1) as u16));
        assert(fragment_map(fs, j).dom() =~= pm.dom().insert((j - 1) as u16));
        lemma_assembled_prefix(pm, fragment_map(fs, j), (j - 1) as nat);
        assert(fs.take(j as int) =~= fs.take(j - 1).push(fs[j - 1]));
        lemma_joined_push(fs.take(j - 1), fs[j - 1]);
    }
}

/// Two maps that agree on keys `0 .. count` lay out the same bytes.
pub proof fn lemma_assembled_prefix(a: Map<u16, FragmentModel>, b: Map<u16, FragmentModel>, count: nat)
    requires
        count <= MAX_FRAGMENT_NUMBER + 1,
        forall|k: u16| k < count ==> #[trigger] a.contains_key(k) && b.contains_key(k) && a[k] == b[k],
    ensures
        assembled_bytes(a, count) == assembled_bytes(b, count),
    decreases count,
{
    if count > 0 {
        lemma_assembled_prefix(a, b, (count - 1) as nat);
        assert(a.contains_key((count - 1) as u16));
        assert(a[(count - 1) as u16] == b[(count - 1) as u16]);
    }
}

/// The assembler part way through an instruction cut into `fs`: the first `j` fragments in.
pub open spec fn partway(id: u64, fs: Seq<FragmentModel>, j: nat) -> AssemblerModel {
    AssemblerModel {
        current_id: Some(id),
        fragments: fragment_map(fs, j),
        final_fragment: None,
        compressed_length: joined_contents(fs.take(j as int)).len(),
    }
}

/// Fragments cut from a compressed instruction, fed in order to an assembler that is not
/// working on their id, give nothing until the last one, which gives back the instruction;
/// the assembler is then empty. (Inflating the compressed bytes must give back the encoded
/// instruction, as it does for what `zlib_compress` returns.)
pub proof fn lemma_fragments_reassemble(
    m: AssemblerModel,
    i: TransportInstructionModel,
    id: u64,
    compressed: Seq<u8>,
    payload: nat,
)
    requires
        m.current_id != Some(id),
        payload > 0,
        0 < compressed.len() <= MAX_COMPRESSED_INSTRUCTION_LENGTH,
        spec_fragments(id, compressed, payload, 0) is Some,
        spec_encode_transport(i).len() <= MAX_INSTRUCTION_LENGTH,
        zlib_inflated(compressed, (MAX_INSTRUCTION_LENGTH + 1) as nat) == Some(spec_encode_transport(i)),
        i.diff matches Some(d) ==> d.len() <= usize::MAX,
        i.chaff matches Some(c) ==> c.len() <= usize::MAX,
    ensures
        ({
            let fs = spec_fragments(id, compressed, payload, 0)->Some_0;
            let (rs, m2) = feed_fragments(m, fs);
            &&& rs.len() == fs.len()
            &&& forall|k: int| 0 <= k < fs.len() - 1 ==> rs[k] == Ok::<Option<TransportInstructionModel>, AssemblyFault>(None)
            &&& rs.last() == Ok::<Option<TransportInstructionModel>, AssemblyFault>(Some(i))
            &&& m2 == empty_assembler()
        }),
{
    let fs = spec_fragments(id, compressed, payload, 0)->Some_0;
    lemma_fragments_shape(id, compressed, payload, 0);
    let n = fs.len();
    assert(fs.take(n as int) =~= fs);
    lemma_fragments_feed_prefix(m, id, fs, (n - 1) as nat);
    let prev = fs.take(n - 1);
    assert(fs.drop_last() =~= prev);
    let s = partway(id, fs, (n - 1) as nat);
    let f = fs[n - 1];
    assert(fragment_in_place(fs, n - 1, id, 0));
    lemma_fragment_map(fs, (n - 1) as nat);
    lemma_fragment_map(fs, n);
    lemma_joined_take_len(fs, n - 1, n as int);
    let m1 = assembler_for(s, id);
    assert(m1 == s);
    let m2 = AssemblerModel { final_fragment: Some(f.fragment_number), ..m1 };
    assert(!m2.fragments.contains_key(f.fragment_number));
    assert(fs.take(n as int) =~= fs.take(n - 1).push(f));
    lemma_joined_push(fs.take(n - 1), f);
    let full = AssemblerModel {
        fragments: m2.fragments.insert(f.fragment_number, f),
        compressed_length: m2.compressed_length + f.contents.len(),
        ..m2
    };
    assert(full.fragments == fragment_map(fs, n));
    assert(fragments_complete(full.fragments, (n - 1) as u16));
    assert(assembled_bytes(full.fragments, n) == compressed);
    lemma_transport_round_trip_for_fragments(i);
}

/// A transport instruction decodes from its own encoding.
pub proof fn lemma_transport_round_trip_for_fragments(i: TransportInstructionModel)
    requires
        i.diff matches Some(d) ==> d.len() <= usize::MAX,
        i.chaff matches Some(c) ==> c.len() <= usize::MAX,
    ensures
        spec_decode_transport(spec_encode_transport(i)) == Ok::<TransportInstructionModel, ProtoError>(i),
{
    crate::protocol::proto::lemma_transport_round_trip(i);
}

proof fn lemma_fragments_feed_prefix(m: AssemblerModel, id: u64, fs: Seq<FragmentModel>, j: nat)
    requires
        m.current_id != Some(id),
        fs.len() >= 1,
        j < fs.len(),
        joined_contents(fs).len() <= MAX_COMPRESSED_INSTRUCTION_LENGTH,
        forall|k: int| 0 <= k < fs.len() ==> #[trigger] fragment_in_place(fs, k, id, 0),
    ensures
        ({
            let (rs, m2) = feed_fragments(m, fs.take(j as int));
            &&& rs.len() == j
            &&& forall|k: int| 0 <= k < j ==> rs[k] == Ok::<Option<TransportInstructionModel>, AssemblyFault>(None)
            &&& j == 0 ==> m2 == m
            &&& j > 0 ==> m2 == partway(id, fs, j)
            &&& assembler_for(m2, id) == partway(id, fs, j)
        }),
    decreases j,
{
    assert(fragment_in_place(fs, fs.len() - 1, id, 0));
    lemma_fragment_map(fs, j);
    if j == 0 {
        assert(fs.take(0) =~= Seq::<FragmentModel>::empty());
        assert(partway(id, fs, 0).fragments =~= Map::<u16, FragmentModel>::empty());
    } else {
        let pj = (j - 1) as nat;
        lemma_fragments_feed_prefix(m, id, fs, pj);
        assert(fs.take(j as int).drop_last() =~= fs.take(pj as int));
        let (rs0, m0) = feed_fragments(m, fs.take(pj as int));
        let s = partway(id, fs, pj);
        let f = fs[pj as int];
        assert(fragment_in_place(fs, pj as int, id, 0));
        assert(fs.take(j as int).last() == f);
        lemma_fragment_map(fs, pj);
        assert(!s.fragments.contains_key(f.fragment_number));
        assert(fs.take(j as int) =~= fs.take(pj as int).push(f));
        lemma_joined_push(fs.take(pj as int), f);
        lemma_joined_take_len(fs, j as int, fs.len() as int);
        assert(fs.take(fs.len() as int) =~= fs);
        let m3 = AssemblerModel { compressed_length: s.compressed_length + f.contents.len(), ..s };
        assert(m3.fragments.insert(f.fragment_number, f) == fragment_map(fs, j));
        let (rs1, m1) = feed_fragments(m, fs.take(j as int));
        assert(m1 == partway(id, fs, j));
        assert(rs1 =~= rs0.push(Ok::<Option<TransportInstructionModel>, AssemblyFault>(None)));
    }
}

} // verus!
