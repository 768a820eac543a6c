//! Release versions: dotted numbers, compared part by part with missing parts as zero.

use std::cmp::Ordering;

use vstd::prelude::*;
use vstd::std_specs::cmp::PartialOrdSpecImpl;

use crate::client::error::Error;
use crate::text::{
    chars_of, copy_chars, find_char, find_char_index, lemma_find_char, parse_unsigned, parse_unsigned_chars,
    push_chars, trim, trim_chars,
};

verus! {

/// A release version: its numeric parts, without trailing zero parts (but at least one).
#[derive(Debug, Clone, PartialEq, Eq)]
pub struct Version(Vec<u64>);

impl View for Version {
    type V = Seq<u64>;

    closed spec fn view(&self) -> Seq<u64> {
        self.0@
    }
}

// ---------------------------------------------------------------------------
// Parsing
// ---------------------------------------------------------------------------

/// `s` without its leading `v` characters.
pub open spec fn strip_leading_v(s: Seq<char>) -> Seq<char>
    decreases s.len(),
{
    if s.len() > 0 && s[0] == 'v' {
        strip_leading_v(s.drop_first())
    } else {
        s
    }
}

/// The numeric core of a version text: trimmed, without leading `v`s, cut at the first `-`.
pub open spec fn version_core(input: Seq<char>) -> Seq<char> {
    let t = strip_leading_v(trim(input));
    match find_char(t, '-') {
        Some(i) => t.take(i),
        None => t,
    }
}

/// The pieces of `s` between `.` separators (at least one, possibly empty).
pub open spec fn split_dots(s: Seq<char>) -> Seq<Seq<char>>
    decreases s.len(),
{
    proof {
        lemma_find_char(s, '.');
    }
    match find_char(s, '.') {
        None => seq![s],
        Some(i) => seq![s.take(i)] + split_dots(s.skip(i + 1)),
    }
}

/// The numbers of the pieces, or the first piece that is not a `u64`.
pub open spec fn parse_parts(ps: Seq<Seq<char>>) -> Result<Seq<u64>, Seq<char>>
    decreases ps.len(),
{
    if ps.len() == 0 {
        Ok(seq![])
    } else {
        match parse_unsigned(ps[0], 0xffff_ffff_ffff_ffff) {
            None => Err(ps[0]),
            Some(v) => match parse_parts(ps.drop_first()) {
                Ok(rest) => Ok(seq![v as u64] + rest),
                Err(p) => Err(p),
            },
        }
    }
}

/// `v` without trailing zeros, keeping at least one part.
pub open spec fn strip_zeros(v: Seq<u64>) -> Seq<u64>
    decreases v.len(),
{
    if v.len() > 1 && v.last() == 0 {
        strip_zeros(v.drop_last())
    } else {
        v
    }
}

/// The parts of a version text, or the first part that is not a number.
pub open spec fn spec_parse_version(input: Seq<char>) -> Result<Seq<u64>, Seq<char>> {
    match parse_parts(split_dots(version_core(input))) {
        Ok(v) => Ok(strip_zeros(v)),
        Err(p) => Err(p),
    }
}

fn core_chars(input: &str) -> (v: Vec<char>)
    ensures
        v@ == version_core(input@),
{
    let chars = chars_of(input);
    let t = trim_chars(chars.as_slice());
    let mut start: usize = 0;
    assert(t@.skip(0) =~= t@);
    while start < t.len() && t[start] == 'v'
        invariant
            start <= t@.len(),
            strip_leading_v(t@) == strip_leading_v(t@.skip(start as int)),
        decreases t@.len() - start,
    {
        assert(t@.skip(start as int).drop_first() =~= t@.skip(start + 1));
        start = start + 1;
    }
    let rest = copy_chars(t.as_slice(), start, t.len());
    assert(rest@ =~= t@.skip(start as int));
    proof {
        lemma_find_char(rest@, '-');
    }
    match find_char_index(rest.as_slice(), '-') {
        Some(i) => {
            let core = copy_chars(rest.as_slice(), 0, i);
            assert(core@ =~= rest@.take(i as int));
            core
        },
        None => rest,
    }
}

proof fn lemma_parse_parts_push(ps: Seq<Seq<char>>, p: Seq<char>)
    requires
        parse_parts(ps) is Ok,
    ensures
        parse_parts(ps.push(p)) == match parse_unsigned(p, 0xffff_ffff_ffff_ffff) {
            Some(v) => Ok::<Seq<u64>, Seq<char>>(parse_parts(ps)->Ok_0.push(v as u64)),
            None => Err(p),
        },
    decreases ps.len(),
{
    let all = ps.push(p);
    if ps.len() == 0 {
        assert(all.drop_first() =~= Seq::<Seq<char>>::empty());
        assert(all[0] == p);
        assert(parse_parts(all.drop_first()) == Ok::<Seq<u64>, Seq<char>>(seq![]));
        match parse_unsigned(p, 0xffff_ffff_ffff_ffff) {
            Some(v) => {
                assert(seq![v as u64] + Seq::<u64>::empty() =~= Seq::<u64>::empty().push(v as u64));
            },
            None => {},
        }
    } else {
        assert(all.drop_first() =~= ps.drop_first().push(p));
        assert(all[0] == ps[0]);
        lemma_parse_parts_push(ps.drop_first(), p);
        let v0 = parse_unsigned(ps[0], 0xffff_ffff_ffff_ffff)->Some_0 as u64;
        let r0 = parse_parts(ps.drop_first())->Ok_0;
        assert(parse_parts(ps) == Ok::<Seq<u64>, Seq<char>>(seq![v0] + r0));
        match parse_unsigned(p, 0xffff_ffff_ffff_ffff) {
            Some(v) => {
                assert(parse_parts(all.drop_first()) == Ok::<Seq<u64>, Seq<char>>(r0.push(v as u64)));
                assert(seq![v0] + r0.push(v as u64) =~= (seq![v0] + r0).push(v as u64));
            },
            None => {
                assert(parse_parts(all.drop_first()) == Err::<Seq<u64>, Seq<char>>(p));
            },
        }
    }
}

/// A piece that is not a number makes the whole list fail with that piece, when those before
/// it are numbers.
proof fn lemma_parse_parts_error(done: Seq<Seq<char>>, piece: Seq<char>, more: Seq<Seq<char>>)
    requires
        parse_parts(done) is Ok,
        parse_unsigned(piece, 0xffff_ffff_ffff_ffff) is None,
    ensures
        parse_parts(done.push(piece) + more) == Err::<Seq<u64>, Seq<char>>(piece),
    decreases done.len(),
{
    let all = done.push(piece) + more;
    if done.len() == 0 {
        assert(all[0] == piece);
    } else {
        assert(all[0] == done[0]);
        assert(all.drop_first() =~= done.drop_first().push(piece) + more);
        lemma_parse_parts_error(done.drop_first(), piece, more);
    }
}

impl Version {
    /// Reads a version such as `v1.2.0` or `0.10.0-beta`: trimmed, leading `v`s and anything
    /// after a `-` ignored, dot-separated `u64` parts, trailing zero parts dropped.
    pub fn parse(input: &str) -> (r: Result<Self, Error>)
        ensures
            match spec_parse_version(input@) {
                Ok(v) => r is Ok && r->Ok_0@ == v,
                Err(p) => r is Err && (r->Err_0 matches Error::Update(m) && m@
                    == "invalid semantic version component: "@ + p),
            },
    {
        let core = core_chars(input);
        let ghost pieces = split_dots(core@);
        let mut parts: Vec<u64> = Vec::new();
        let mut start: usize = 0;
        let ghost mut done: Seq<Seq<char>> = seq![];
        assert(core@.skip(0) =~= core@);
        assert(pieces =~= done + split_dots(core@.skip(0)));
        let mut finished = false;
        while !finished
            invariant
                start <= core@.len(),
                core@ == version_core(input@),
                pieces == split_dots(core@),
                !finished ==> pieces == done + split_dots(core@.skip(start as int)),
                finished ==> start == core@.len() && pieces == done && parts@.len() > 0,
                parse_parts(done) == Ok::<Seq<u64>, Seq<char>>(parts@),
            decreases core@.len() - start + (if finished { 0int } else { 1int }),
        {
            let tail = copy_chars(core.as_slice(), start, core.len());
            let ghost rest = core@.skip(start as int);
            assert(tail@ =~= rest);
            proof {
                lemma_find_char(rest, '.');
            }
            let found = find_char_index(tail.as_slice(), '.');
            let (end, next, last) = match found {
                Some(i) => (start + i, start + i + 1, false),
                None => (core.len(), core.len(), true),
            };
            proof {
                match found {
                    Some(i) => {
                        assert(split_dots(rest) == seq![rest.take(i as int)] + split_dots(rest.skip(i + 1)));
                        assert(rest.skip(i + 1) =~= core@.skip(next as int));
                    },
                    None => {
                        assert(split_dots(rest) == seq![rest]);
                    },
                }
            }
            let piece = copy_chars(core.as_slice(), start, end);
            assert(piece@ =~= split_dots(rest)[0]);
            assert(split_dots(rest) =~= seq![piece@] + split_dots(rest).drop_first());
            proof {
                lemma_parse_parts_push(done, piece@);
            }
            match parse_unsigned_chars(piece.as_slice(), 0xffff_ffff_ffff_ffff) {
                Some(v) => parts.push(v),
                None => {
                    proof {
                        assert(pieces =~= done.push(piece@) + split_dots(rest).drop_first());
                        lemma_parse_parts_error(done, piece@, split_dots(rest).drop_first());
                    }
                    let mut m = "invalid semantic version component: ".to_owned();
                    push_chars(&mut m, piece.as_slice());
                    return Err(Error::Update(m));
                },
            }
            proof {
                if last {
                    assert(pieces =~= done.push(piece@));
                    assert(core@.skip(next as int) =~= Seq::<char>::empty());
                    assert(split_dots(core@.skip(next as int)) =~= seq![Seq::<char>::empty()]);
                } else {
                    assert(pieces =~= done.push(piece@) + split_dots(core@.skip(next as int)));
                }
                done = done.push(piece@);
            }
            start = next;
            finished = last;
        }
        if parts.len() == 0 {
            return Err(Error::Update("empty semantic version".to_owned()));
        }
        let ghost all = parts@;
        while parts.len() > 1 && parts[parts.len() - 1] == 0
            invariant
                parts@.len() >= 1,
                strip_zeros(all) == strip_zeros(parts@),
            decreases parts@.len(),
        {
            let ghost before = parts@;
            parts.pop();
            assert(parts@ =~= before.drop_last());
        }
        Ok(Version(parts))
    }
}

// ---------------------------------------------------------------------------
// Order
// ---------------------------------------------------------------------------

/// Part `i` of a version, zero past its end.
pub open spec fn version_part(v: Seq<u64>, i: int) -> u64 {
    if 0 <= i < v.len() {
        v[i]
    } else {
        0
    }
}

/// How `a` compares with `b` from part `i` on: -1, 0 or 1, at the first part that differs.
pub open spec fn version_order_from(a: Seq<u64>, b: Seq<u64>, i: nat) -> int
    decreases a.len() + b.len() - i,
{
    if i >= a.len() && i >= b.len() {
        0
    } else if version_part(a, i as int) < version_part(b, i as int) {
        -1
    } else if version_part(a, i as int) > version_part(b, i as int) {
        1
    } else {
        version_order_from(a, b, i + 1)
    }
}

/// The ordering that -1, 0 and 1 stand for.
pub open spec fn ordering_of(c: int) -> Ordering {
    if c < 0 {
        Ordering::Less
    } else if c > 0 {
        Ordering::Greater
    } else {
        Ordering::Equal
    }
}

/// Comparing two versions the other way round gives the opposite answer.
pub proof fn lemma_version_order_antisymmetric(a: Seq<u64>, b: Seq<u64>, i: nat)
    ensures
        version_order_from(a, b, i) == -version_order_from(b, a, i),
    decreases a.len() + b.len() - i,
{
    if !(i >= a.len() && i >= b.len()) && version_part(a, i as int) == version_part(b, i as int) {
        lemma_version_order_antisymmetric(a, b, i + 1);
    }
}

/// A version compares equal to itself.
pub proof fn lemma_version_order_reflexive(a: Seq<u64>, i: nat)
    ensures
        version_order_from(a, a, i) == 0,
    decreases a.len() + a.len() - i,
{
    if !(i >= a.len()) {
        lemma_version_order_reflexive(a, i + 1);
    }
}

/// Two versions compare equal exactly when they agree on every part, a missing part counting
/// as zero.
pub proof fn lemma_version_order_equal(a: Seq<u64>, b: Seq<u64>, i: nat)
    ensures
        (version_order_from(a, b, i) == 0) == (forall|k: int| i <= k ==> #[trigger] version_part(a, k) == version_part(b, k)),
    decreases a.len() + b.len() - i,
{
    if i >= a.len() && i >= b.len() {
        assert forall|k: int| i <= k implies #[trigger] version_part(a, k) == version_part(b, k) by {}
    } else if version_part(a, i as int) != version_part(b, i as int) {
    } else {
        lemma_version_order_equal(a, b, i + 1);
        if version_order_from(a, b, i + 1) == 0 {
            assert forall|k: int| i <= k implies #[trigger] version_part(a, k) == version_part(b, k) by {
                if k > i {
                    assert(version_part(a, k) == version_part(b, k));
                }
            }
        }
    }
}

/// Version parts without trailing zeros, as parsing leaves them.
pub open spec fn canonical_parts(v: Seq<u64>) -> bool {
    v.len() > 0 && (v.len() == 1 || v.last() != 0)
}

/// Stripping the trailing zeros of some parts leaves them in that form.
pub proof fn lemma_strip_zeros_canonical(v: Seq<u64>)
    requires
        v.len() > 0,
    ensures
        canonical_parts(strip_zeros(v)),
    decreases v.len(),
{
    if v.len() > 1 && v.last() == 0 {
        lemma_strip_zeros_canonical(v.drop_last());
    }
}

/// Two versions in that form compare equal exactly when they are the same version.
pub proof fn lemma_canonical_order_equal(a: Seq<u64>, b: Seq<u64>)
    requires
        canonical_parts(a),
        canonical_parts(b),
    ensures
        (version_order_from(a, b, 0) == 0) == (a == b),
{
    lemma_version_order_equal(a, b, 0);
    if a == b {
        lemma_version_order_reflexive(a, 0);
    } else if version_order_from(a, b, 0) == 0 {
        if a.len() > b.len() {
            assert(version_part(a, a.len() - 1) == version_part(b, a.len() - 1));
        } else if b.len() > a.len() {
            assert(version_part(a, b.len() - 1) == version_part(b, b.len() - 1));
        } else {
            assert forall|k: int| 0 <= k < a.len() implies a[k] == b[k] by {
                assert(version_part(a, k) == version_part(b, k));
            }
            assert(a =~= b);
        }
    }
}

/// How two part lists compare: -1, 0 or 1.
fn compare_parts(a: &Vec<u64>, b: &Vec<u64>) -> (c: i8)
    ensures
        c == version_order_from(a@, b@, 0),
{
    let n = if a.len() > b.len() {
        a.len()
    } else {
        b.len()
    };
    let mut i: usize = 0;
    while i < n
        invariant
            n == if a@.len() > b@.len() {
                a@.len()
            } else {
                b@.len()
            },
            i <= n,
            version_order_from(a@, b@, 0) == version_order_from(a@, b@, i as nat),
        decreases n - i,
    {
        let left = if i < a.len() {
            a[i]
        } else {
            0
        };
        let right = if i < b.len() {
            b[i]
        } else {
            0
        };
        if left < right {
            return -1;
        }
        if left > right {
            return 1;
        }
        i = i + 1;
    }
    0
}

impl PartialOrd for Version {
    fn partial_cmp(&self, other: &Self) -> (r: Option<Ordering>) {
        let c = compare_parts(&self.0, &other.0);
        if c < 0 {
            Some(Ordering::Less)
        } else if c > 0 {
            Some(Ordering::Greater)
        } else {
            Some(Ordering::Equal)
        }
    }
}

impl PartialOrdSpecImpl for Version {
    open spec fn obeys_partial_cmp_spec() -> bool {
        true
    }

    open spec fn partial_cmp_spec(&self, other: &Self) -> Option<Ordering> {
        Some(ordering_of(version_order_from(self@, other@, 0)))
    }
}

} // verus!
