//! Fragments of one instruction that arrive in any order, some perhaps more than once, still
//! give the instruction back, as soon as every one of them has arrived.

use vstd::prelude::*;

use crate::protocol::fragment::{
    assembled_bytes, assembler_for, empty_assembler, feed_fragments, fragment_in_place, fragment_map,
    fragments_complete, joined_contents, lemma_assembled_prefix, lemma_fragment_map, lemma_fragments_shape,
    lemma_joined_push, lemma_transport_round_trip_for_fragments, spec_add_fragment, spec_finish_assembly,
    spec_fragments, zlib_inflated, AssemblerModel, AssemblyFault, FragmentModel, MAX_COMPRESSED_INSTRUCTION_LENGTH,
    MAX_FRAGMENT_NUMBER, MAX_INSTRUCTION_LENGTH,
};
use crate::protocol::proto::{spec_encode_transport, TransportInstructionModel};

verus! {

/// `order` names fragments among `0 .. n`; its first `p + 1` entries name every one of them,
/// and its first `p` do not.
pub open spec fn all_arrived_at(order: Seq<u16>, n: nat, p: nat) -> bool {
    &&& p < order.len()
    &&& forall|t: int| 0 <= t < order.len() ==> (#[trigger] order[t] as int) < n
    &&& forall|k: u16| (k as int) < n ==> #[trigger] order.take(p as int + 1).contains(k)
    &&& exists|k: u16| (k as int) < n && !#[trigger] order.take(p as int).contains(k)
}

/// The fragments `fs`, in the order `order`.
pub open spec fn in_order(fs: Seq<FragmentModel>, order: Seq<u16>) -> Seq<FragmentModel> {
    order.map_values(|k: u16| fs[k as int])
}

/// The fragments among the first `j` to arrive, keyed by number.
pub open spec fn arrived_map(fs: Seq<FragmentModel>, order: Seq<u16>, j: nat) -> Map<u16, FragmentModel>
    decreases j,
{
    if j == 0 {
        Map::empty()
    } else {
        arrived_map(fs, order, (j - 1) as nat).insert(order[j - 1], fs[order[j - 1] as int])
    }
}

/// The bytes carried by the fragments among the first `j` to arrive, each counted once.
pub open spec fn arrived_length(fs: Seq<FragmentModel>, order: Seq<u16>, j: nat) -> nat
    decreases j,
{
    if j == 0 {
        0
    } else {
        arrived_length(fs, order, (j - 1) as nat) + if order.take(j - 1).contains(order[j - 1]) {
            0
        } else {
            fs[order[j - 1] as int].contents.len()
        }
    }
}

/// The bytes carried by those of fragments `0 .. k` that are not among the first `j` to
/// arrive.
pub open spec fn pending_length(fs: Seq<FragmentModel>, order: Seq<u16>, j: nat, k: nat) -> nat
    decreases k,
{
    if k == 0 {
        0
    } else {
        pending_length(fs, order, j, (k - 1) as nat) + if order.take(j as int).contains((k - 1) as u16) {
            0
        } else {
            fs[k - 1].contents.len()
        }
    }
}

/// Whether `x` is among the first `j + 1` entries of `order`: among the first `j`, or the
/// next one.
proof fn lemma_take_contains(order: Seq<u16>, j: int, x: u16)
    requires
        0 <= j < order.len(),
    ensures
        order.take(j + 1).contains(x) == (order.take(j).contains(x) || order[j] == x),
{
    if order.take(j + 1).contains(x) {
        let t = choose|t: int| 0 <= t < order.take(j + 1).len() && #[trigger] order.take(j + 1)[t] == x;
        if t < j {
            assert(order.take(j)[t] == x);
        }
    }
    if order.take(j).contains(x) {
        let t = choose|t: int| 0 <= t < order.take(j).len() && #[trigger] order.take(j)[t] == x;
        assert(order.take(j + 1)[t] == x);
    }
    if order[j] == x {
        assert(order.take(j + 1)[j] == x);
    }
}

/// What is among the first `i` entries is among the first `j >= i`.
proof fn lemma_take_grows(order: Seq<u16>, i: int, j: int, x: u16)
    requires
        0 <= i <= j <= order.len(),
        order.take(i).contains(x),
    ensures
        order.take(j).contains(x),
{
    let t = choose|t: int| 0 <= t < order.take(i).len() && #[trigger] order.take(i)[t] == x;
    assert(order.take(j)[t] == x);
}

/// Nothing is among none of the entries.
proof fn lemma_take_none(order: Seq<u16>, x: u16)
    ensures
        !order.take(0).contains(x),
{
    if order.take(0).contains(x) {
        let t = choose|t: int| 0 <= t < order.take(0).len() && #[trigger] order.take(0)[t] == x;
    }
}

/// The fragments that arrived so far, keyed by number.
pub proof fn lemma_arrived_map(fs: Seq<FragmentModel>, order: Seq<u16>, j: nat)
    requires
        j <= order.len(),
        forall|t: int| 0 <= t < order.len() ==> (#[trigger] order[t] as int) < fs.len(),
    ensures
        arrived_map(fs, order, j).dom().finite(),
        forall|k: u16| #[trigger] arrived_map(fs, order, j).contains_key(k) == order.take(j as int).contains(k),
        forall|k: u16| #[trigger] arrived_map(fs, order, j).contains_key(k) ==> arrived_map(fs, order, j)[k] == fs[k as int],
    decreases j,
{
    if j == 0 {
        assert forall|k: u16| #[trigger] arrived_map(fs, order, j).contains_key(k) == order.take(j as int).contains(k) by {
            lemma_take_none(order, k);
        }
    } else {
        let p = (j - 1) as nat;
        lemma_arrived_map(fs, order, p);
        assert forall|k: u16| #[trigger] arrived_map(fs, order, j).contains_key(k) == order.take(j as int).contains(k) by {
            lemma_take_contains(order, p as int, k);
        }
    }
}

/// Taking the arrival at `j` out of what is still pending.
proof fn lemma_pending_step(fs: Seq<FragmentModel>, order: Seq<u16>, j: nat, k: nat)
    requires
        fs.len() <= MAX_FRAGMENT_NUMBER + 1,
        j < order.len(),
        (order[j as int] as int) < fs.len(),
        k <= fs.len(),
    ensures
        pending_length(fs, order, j, k) == pending_length(fs, order, j + 1, k) + if (order[j as int] as int) < k
            && !order.take(j as int).contains(order[j as int]) {
            fs[order[j as int] as int].contents.len()
        } else {
            0
        },
    decreases k,
{
    if k > 0 {
        let c = (k - 1) as u16;
        lemma_pending_step(fs, order, j, (k - 1) as nat);
        lemma_take_contains(order, j as int, c);
        assert(c as int == k - 1);
    }
}

/// Before any arrival, every fragment is pending.
proof fn lemma_pending_all(fs: Seq<FragmentModel>, order: Seq<u16>, k: nat)
    requires
        k <= fs.len(),
    ensures
        pending_length(fs, order, 0, k) == joined_contents(fs.take(k as int)).len(),
    decreases k,
{
    if k == 0 {
        assert(fs.take(0) =~= Seq::<FragmentModel>::empty());
    } else {
        lemma_pending_all(fs, order, (k - 1) as nat);
        lemma_take_none(order, (k - 1) as u16);
        assert(fs.take(k as int) =~= fs.take(k - 1).push(fs[k - 1]));
        lemma_joined_push(fs.take(k - 1), fs[k - 1]);
    }
}

/// What arrived and what is pending carry all the bytes between them.
pub proof fn lemma_arrived_length(fs: Seq<FragmentModel>, order: Seq<u16>, j: nat)
    requires
        forall|t: int| 0 <= t < order.len() ==> (#[trigger] order[t] as int) < fs.len(),
        fs.len() <= MAX_FRAGMENT_NUMBER + 1,
        j <= order.len(),
    ensures
        arrived_length(fs, order, j) + pending_length(fs, order, j, fs.len()) == joined_contents(fs).len(),
        arrived_length(fs, order, j) <= joined_contents(fs).len(),
    decreases j,
{
    if j == 0 {
        lemma_pending_all(fs, order, fs.len());
        assert(fs.take(fs.len() as int) =~= fs);
    } else {
        let p = (j - 1) as nat;
        lemma_arrived_length(fs, order, p);
        assert((order[p as int] as int) < fs.len());
        lemma_pending_step(fs, order, p, fs.len());
    }
}

/// The assembler part way through an instruction cut into `fs` whose fragments arrive in the
/// order `order`: the first `j` arrivals in.
pub open spec fn arrived_partway(id: u64, fs: Seq<FragmentModel>, order: Seq<u16>, j: nat) -> AssemblerModel {
    AssemblerModel {
        current_id: Some(id),
        fragments: arrived_map(fs, order, j),
        final_fragment: if order.take(j as int).contains((fs.len() - 1) as u16) {
            Some((fs.len() - 1) as u16)
        } else {
            None
        },
        compressed_length: arrived_length(fs, order, j),
    }
}

/// The fragments of one compressed instruction with id `id`, as they are cut.
pub open spec fn cut_fragments(fs: Seq<FragmentModel>, id: u64) -> bool {
    &&& fs.len() >= 1
    &&& joined_contents(fs).len() <= MAX_COMPRESSED_INSTRUCTION_LENGTH
    &&& forall|k: int| 0 <= k < fs.len() ==> #[trigger] fragment_in_place(fs, k, id, 0)
}

/// A fragment arriving at two assemblers that work on its id in the same state does the same.
proof fn lemma_add_same(a: AssemblerModel, b: AssemblerModel, f: FragmentModel)
    requires
        assembler_for(a, f.id) == assembler_for(b, f.id),
        f.fragment_number <= MAX_FRAGMENT_NUMBER,
    ensures
        spec_add_fragment(a, f) == spec_add_fragment(b, f),
{
}

/// The next fragment to arrive joins those that came before it, or, if it came before, finds
/// itself there.
proof fn lemma_arrival_step(id: u64, fs: Seq<FragmentModel>, order: Seq<u16>, j: nat)
    requires
        cut_fragments(fs, id),
        forall|t: int| 0 <= t < order.len() ==> (#[trigger] order[t] as int) < fs.len(),
        j < order.len(),
    ensures
        spec_add_fragment(arrived_partway(id, fs, order, j), fs[order[j as int] as int]) == spec_finish_assembly(
            arrived_partway(id, fs, order, j + 1),
        ),
{
    let n = fs.len();
    assert(fragment_in_place(fs, n - 1, id, 0));
    let k = order[j as int];
    assert((k as int) < n);
    let f = fs[k as int];
    assert(fragment_in_place(fs, k as int, id, 0));
    let s = arrived_partway(id, fs, order, j);
    let t = arrived_partway(id, fs, order, j + 1);
    let last = (n - 1) as u16;
    assert(last as int == n - 1);
    lemma_arrived_map(fs, order, j);
    lemma_arrived_map(fs, order, j + 1);
    lemma_arrived_length(fs, order, j + 1);
    lemma_take_contains(order, j as int, last);
    assert(assembler_for(s, id) == s);
    let m2 = if f.final_fragment {
        AssemblerModel { final_fragment: Some(k), ..s }
    } else {
        s
    };
    assert(m2.final_fragment == t.final_fragment);
    if order.take(j as int).contains(k) {
        // A repeat: the fragment is there already, the same.
        assert(s.fragments.contains_key(k));
        assert(s.fragments[k] == f);
        assert(t.fragments =~= s.fragments);
        assert(t.compressed_length == s.compressed_length);
        assert(m2 == t);
    } else {
        assert(!s.fragments.contains_key(k));
        let m3 = AssemblerModel { compressed_length: m2.compressed_length + f.contents.len(), ..m2 };
        assert(AssemblerModel { fragments: m3.fragments.insert(k, f), ..m3 } == t);
    }
}

/// Until every fragment has arrived the assembler gives nothing and keeps what it holds.
proof fn lemma_arrival_incomplete(id: u64, fs: Seq<FragmentModel>, order: Seq<u16>, j: nat, missing: u16)
    requires
        forall|t: int| 0 <= t < order.len() ==> (#[trigger] order[t] as int) < fs.len(),
        1 <= fs.len() <= MAX_FRAGMENT_NUMBER + 1,
        j <= order.len(),
        (missing as int) < fs.len(),
        !order.take(j as int).contains(missing),
    ensures
        spec_finish_assembly(arrived_partway(id, fs, order, j)) == (
            Ok::<Option<TransportInstructionModel>, AssemblyFault>(None),
            arrived_partway(id, fs, order, j),
        ),
{
    lemma_arrived_map(fs, order, j);
    let s = arrived_partway(id, fs, order, j);
    if let Some(last) = s.final_fragment {
        assert(last as int == fs.len() - 1);
        assert(!s.fragments.contains_key(missing));
        assert(!fragments_complete(s.fragments, last));
    }
}

/// The assembler after the first `j` arrivals, while some fragment has not yet arrived.
proof fn lemma_arrivals_prefix(m: AssemblerModel, id: u64, fs: Seq<FragmentModel>, order: Seq<u16>, p: nat, j: nat)
    requires
        m.current_id != Some(id),
        cut_fragments(fs, id),
        all_arrived_at(order, fs.len(), p),
        j <= p,
    ensures
        ({
            let (rs, m2) = feed_fragments(m, in_order(fs, order).take(j as int));
            &&& rs.len() == j
            &&& forall|k: int| 0 <= k < j ==> rs[k] == Ok::<Option<TransportInstructionModel>, AssemblyFault>(None)
            &&& assembler_for(m2, id) == arrived_partway(id, fs, order, j)
        }),
    decreases j,
{
    let gs = in_order(fs, order);
    assert(fragment_in_place(fs, fs.len() - 1, id, 0));
    if j == 0 {
        assert(gs.take(0) =~= Seq::<FragmentModel>::empty());
        lemma_take_none(order, (fs.len() - 1) as u16);
        assert(arrived_partway(id, fs, order, 0).fragments =~= Map::<u16, FragmentModel>::empty());
    } else {
        let q = (j - 1) as nat;
        lemma_arrivals_prefix(m, id, fs, order, p, q);
        assert(gs.take(j as int).drop_last() =~= gs.take(q as int));
        let f = fs[order[q as int] as int];
        assert(gs.take(j as int).last() == f);
        assert((order[q as int] as int) < fs.len());
        assert(fragment_in_place(fs, order[q as int] as int, id, 0));
        let (rs0, m0) = feed_fragments(m, gs.take(q as int));
        lemma_add_same(m0, arrived_partway(id, fs, order, q), f);
        lemma_arrival_step(id, fs, order, q);
        let missing = choose|k: u16| (k as int) < fs.len() && !#[trigger] order.take(p as int).contains(k);
        if order.take(j as int).contains(missing) {
            lemma_take_grows(order, j as int, p as int, missing);
        }
        lemma_arrival_incomplete(id, fs, order, j, missing);
        let (rs1, m1) = feed_fragments(m, gs.take(j as int));
        assert(m1 == arrived_partway(id, fs, order, j));
        assert(rs1 =~= rs0.push(Ok::<Option<TransportInstructionModel>, AssemblyFault>(None)));
    }
}

/// Fragments cut from a compressed instruction arrive at an assembler that is not working on
/// their id, in any order and any of them any number of times; the arrival at `p` is the
/// first after which every fragment has arrived. Then every earlier arrival gives nothing,
/// the arrival at `p` gives back the instruction, and the assembler is then empty. (Inflating
/// the compressed bytes must give back the encoded instruction, as it does for what
/// `zlib_compress` returns.)
pub proof fn lemma_fragments_reassemble_any_order(
    m: AssemblerModel,
    i: TransportInstructionModel,
    id: u64,
    compressed: Seq<u8>,
    payload: nat,
    order: Seq<u16>,
    p: nat,
)
    requires
        m.current_id != Some(id),
        payload > 0,
        0 < compressed.len() <= MAX_COMPRESSED_INSTRUCTION_LENGTH,
        spec_fragments(id, compressed, payload, 0) is Some,
        all_arrived_at(order, spec_fragments(id, compressed, payload, 0)->Some_0.len(), p),
        spec_encode_transport(i).len() <= MAX_INSTRUCTION_LENGTH,
        zlib_inflated(compressed, (MAX_INSTRUCTION_LENGTH + 1) as nat) == Some(spec_encode_transport(i)),
        i.diff matches Some(d) ==> d.len() <= usize::MAX,
        i.chaff matches Some(c) ==> c.len() <= usize::MAX,
    ensures
        ({
            let fs = spec_fragments(id, compressed, payload, 0)->Some_0;
            let (rs, m2) = feed_fragments(m, in_order(fs, order).take(p as int + 1));
            &&& rs.len() == p + 1
            &&& forall|k: int| 0 <= k < p ==> rs[k] == Ok::<Option<TransportInstructionModel>, AssemblyFault>(None)
            &&& rs[p as int] == Ok::<Option<TransportInstructionModel>, AssemblyFault>(Some(i))
            &&& m2 == empty_assembler()
        }),
{
    let fs = spec_fragments(id, compressed, payload, 0)->Some_0;
    lemma_fragments_shape(id, compressed, payload, 0);
    let n = fs.len();
    assert(fragment_in_place(fs, n - 1, id, 0));
    let gs = in_order(fs, order);
    lemma_arrivals_prefix(m, id, fs, order, p, p);
    let all = gs.take(p as int + 1);
    assert(all.drop_last() =~= gs.take(p as int));
    let f = fs[order[p as int] as int];
    assert(all.last() == f);
    assert((order[p as int] as int) < n);
    assert(fragment_in_place(fs, order[p as int] as int, id, 0));
    let (rs0, m0) = feed_fragments(m, gs.take(p as int));
    lemma_add_same(m0, arrived_partway(id, fs, order, p), f);
    lemma_arrival_step(id, fs, order, p);
    // Every fragment is in.
    let full = arrived_partway(id, fs, order, p + 1);
    let last = (n - 1) as u16;
    assert(order.take(p as int + 1).contains(last));
    assert(full.final_fragment == Some(last));
    lemma_arrived_map(fs, order, p + 1);
    lemma_fragment_map(fs, n);
    assert(full.fragments.dom() =~= fragment_map(fs, n).dom()) by {
        assert forall|k: u16| full.fragments.contains_key(k) == fragment_map(fs, n).contains_key(k) by {
            if full.fragments.contains_key(k) {
                let t = choose|t: int| 0 <= t < order.take(p as int + 1).len() && #[trigger] order.take(p as int + 1)[t] == k;
                assert(order[t] == k);
            }
            if (k as int) < n {
                assert(order.take(p as int + 1).contains(k));
            }
        }
    }
    assert(full.fragments.len() == n);
    assert forall|k: u16| k <= last implies #[trigger] full.fragments.contains_key(k) by {
        assert(order.take(p as int + 1).contains(k));
    }
    assert(fragments_complete(full.fragments, last));
    assert forall|k: u16| k < n implies #[trigger] full.fragments.contains_key(k) && fragment_map(fs, n).contains_key(k)
        && full.fragments[k] == fragment_map(fs, n)[k] by {
        assert(order.take(p as int + 1).contains(k));
        assert(full.fragments.contains_key(k));
        assert(full.fragments[k] == fs[k as int]);
        assert(fragment_map(fs, n).contains_key(k));
        assert(fragment_map(fs, n)[k] == fs[k as int]);
    }
    lemma_assembled_prefix(full.fragments, fragment_map(fs, n), n);
    assert(fs.take(n as int) =~= fs);
    assert(assembled_bytes(full.fragments, (last + 1) as nat) == compressed);
    lemma_transport_round_trip_for_fragments(i);
}

} // verus!
