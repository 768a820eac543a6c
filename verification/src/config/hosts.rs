//! The host aliases of a configuration, kept in the order of their names.

use vstd::prelude::*;

use crate::config::model::{HostConfig, HostConfigModel};
use crate::text::chars_of;

verus! {

/// Whether `a` comes before `b` in the order of `String`: character by character, a proper
/// prefix first.
pub open spec fn chars_less(a: Seq<char>, b: Seq<char>) -> bool
    decreases a.len(),
{
    if a.len() == 0 {
        b.len() > 0
    } else if b.len() == 0 {
        false
    } else if a[0] != b[0] {
        a[0] < b[0]
    } else {
        chars_less(a.drop_first(), b.drop_first())
    }
}

pub proof fn lemma_chars_less_irreflexive(a: Seq<char>)
    ensures
        !chars_less(a, a),
    decreases a.len(),
{
    if a.len() > 0 {
        lemma_chars_less_irreflexive(a.drop_first());
    }
}

proof fn lemma_chars_less_transitive(a: Seq<char>, b: Seq<char>, c: Seq<char>)
    requires
        chars_less(a, b),
        chars_less(b, c),
    ensures
        chars_less(a, c),
    decreases a.len(),
{
    if a.len() > 0 && b.len() > 0 && c.len() > 0 && a[0] == b[0] && b[0] == c[0] {
        lemma_chars_less_transitive(a.drop_first(), b.drop_first(), c.drop_first());
    }
}

proof fn lemma_chars_less_total(a: Seq<char>, b: Seq<char>)
    ensures
        a == b || chars_less(a, b) || chars_less(b, a),
    decreases a.len(),
{
    if a.len() > 0 && b.len() > 0 {
        if a[0] == b[0] {
            lemma_chars_less_total(a.drop_first(), b.drop_first());
            if a.drop_first() == b.drop_first() {
                assert(a =~= seq![a[0]] + a.drop_first());
                assert(b =~= seq![b[0]] + b.drop_first());
            }
        }
    } else if a.len() == 0 && b.len() == 0 {
        assert(a =~= b);
    }
}

pub fn chars_less_exec(a: &[char], b: &[char]) -> (r: bool)
    ensures
        r == chars_less(a@, b@),
{
    let mut i: usize = 0;
    assert(a@.skip(0) =~= a@);
    assert(b@.skip(0) =~= b@);
    while i < a.len() && i < b.len() && a[i] == b[i]
        invariant
            i <= a@.len(),
            i <= b@.len(),
            chars_less(a@, b@) == chars_less(a@.skip(i as int), b@.skip(i as int)),
        decreases a@.len() - i,
    {
        assert(a@.skip(i as int).drop_first() =~= a@.skip(i + 1));
        assert(b@.skip(i as int).drop_first() =~= b@.skip(i + 1));
        i = i + 1;
    }
    if i == a.len() {
        i < b.len()
    } else if i == b.len() {
        false
    } else {
        a[i] < b[i]
    }
}

/// One alias: its name and its settings.
pub type HostEntryModel = (Seq<char>, HostConfigModel);

/// The aliases, by name, ordered by name.
#[derive(Debug, Clone, PartialEq, Eq)]
pub struct HostTable {
    entries: Vec<(String, HostConfig)>,
}

pub open spec fn entries_view(entries: Seq<(String, HostConfig)>) -> Seq<HostEntryModel> {
    entries.map_values(|e: (String, HostConfig)| (e.0@, e.1@))
}

impl View for HostTable {
    type V = Seq<HostEntryModel>;

    closed spec fn view(&self) -> Seq<HostEntryModel> {
        entries_view(self.entries@)
    }
}

/// Names in strictly increasing order (hence each at most once).
pub open spec fn names_sorted(m: Seq<HostEntryModel>) -> bool {
    forall|i: int, j: int| 0 <= i < j < m.len() ==> chars_less(#[trigger] m[i].0, #[trigger] m[j].0)
}

/// The index of the alias named `name`, if any.
pub open spec fn find_name(m: Seq<HostEntryModel>, name: Seq<char>) -> Option<int>
    decreases m.len(),
{
    if m.len() == 0 {
        None
    } else if m[0].0 == name {
        Some(0)
    } else {
        match find_name(m.drop_first(), name) {
            Some(i) => Some(i + 1),
            None => None,
        }
    }
}

pub proof fn lemma_find_name(m: Seq<HostEntryModel>, name: Seq<char>)
    ensures
        find_name(m, name) matches Some(i) ==> 0 <= i < m.len() && m[i].0 == name && forall|j: int|
            0 <= j < i ==> m[j].0 != name,
        find_name(m, name) is None ==> forall|j: int| 0 <= j < m.len() ==> m[j].0 != name,
    decreases m.len(),
{
    if m.len() > 0 {
        lemma_find_name(m.drop_first(), name);
        if m[0].0 != name {
            assert forall|j: int| 1 <= j < m.len() implies m[j] == m.drop_first()[j - 1] by {}
        }
    }
}

/// The settings of the alias named `name`, if any.
pub open spec fn lookup(m: Seq<HostEntryModel>, name: Seq<char>) -> Option<HostConfigModel> {
    match find_name(m, name) {
        Some(i) => Some(m[i].1),
        None => None,
    }
}

/// Where a new name goes: before the first name not less than it.
pub open spec fn insert_position(m: Seq<HostEntryModel>, name: Seq<char>) -> int
    decreases m.len(),
{
    if m.len() == 0 || !chars_less(m[0].0, name) {
        0
    } else {
        1 + insert_position(m.drop_first(), name)
    }
}

/// The table with `name` set to `value`: replaced in place, or inserted in name order.
pub open spec fn spec_insert(m: Seq<HostEntryModel>, name: Seq<char>, value: HostConfigModel) -> Seq<HostEntryModel> {
    match find_name(m, name) {
        Some(i) => m.update(i, (name, value)),
        None => m.insert(insert_position(m, name), (name, value)),
    }
}

/// The table without the alias named `name`.
pub open spec fn spec_remove(m: Seq<HostEntryModel>, name: Seq<char>) -> Seq<HostEntryModel> {
    match find_name(m, name) {
        Some(i) => m.remove(i),
        None => m,
    }
}

proof fn lemma_insert_position(m: Seq<HostEntryModel>, name: Seq<char>)
    requires
        names_sorted(m),
    ensures
        0 <= insert_position(m, name) <= m.len(),
        forall|j: int| 0 <= j < insert_position(m, name) ==> chars_less(#[trigger] m[j].0, name),
        insert_position(m, name) < m.len() ==> !chars_less(m[insert_position(m, name)].0, name),
    decreases m.len(),
{
    if m.len() > 0 && chars_less(m[0].0, name) {
        assert(names_sorted(m.drop_first())) by {
            assert forall|i: int, j: int| 0 <= i < j < m.drop_first().len() implies chars_less(
                #[trigger] m.drop_first()[i].0,
                #[trigger] m.drop_first()[j].0,
            ) by {
                assert(m.drop_first()[i] == m[i + 1] && m.drop_first()[j] == m[j + 1]);
            }
        }
        lemma_insert_position(m.drop_first(), name);
        assert forall|j: int| 0 <= j < insert_position(m, name) implies chars_less(#[trigger] m[j].0, name) by {
            if j > 0 {
                assert(m[j] == m.drop_first()[j - 1]);
            }
        }
    }
}

proof fn lemma_insert_sorted(m: Seq<HostEntryModel>, name: Seq<char>, value: HostConfigModel)
    requires
        names_sorted(m),
    ensures
        names_sorted(spec_insert(m, name, value)),
{
    lemma_find_name(m, name);
    match find_name(m, name) {
        Some(i) => {
            let r = m.update(i, (name, value));
            assert forall|a: int, b: int| 0 <= a < b < r.len() implies chars_less(#[trigger] r[a].0, #[trigger] r[b].0) by {
                assert(chars_less(m[a].0, m[b].0));
            }
        },
        None => {
            lemma_insert_position(m, name);
            let p = insert_position(m, name);
            let r = m.insert(p, (name, value));
            if p < m.len() {
                lemma_chars_less_total(m[p].0, name);
            }
            assert forall|a: int, b: int| 0 <= a < b < r.len() implies chars_less(#[trigger] r[a].0, #[trigger] r[b].0) by {
                if b < p {
                    assert(chars_less(m[a].0, m[b].0));
                } else if b == p {
                    assert(chars_less(m[a].0, name));
                } else if a < p {
                    assert(chars_less(m[a].0, name));
                    if b - 1 == p {
                        assert(chars_less(name, m[p].0));
                    } else {
                        assert(chars_less(name, m[p].0));
                        assert(chars_less(m[p].0, m[b - 1].0));
                        lemma_chars_less_transitive(name, m[p].0, m[b - 1].0);
                    }
                    lemma_chars_less_transitive(m[a].0, name, m[b - 1].0);
                } else if a == p {
                    if b - 1 > p {
                        assert(chars_less(m[p].0, m[b - 1].0));
                        lemma_chars_less_transitive(name, m[p].0, m[b - 1].0);
                    }
                } else {
                    assert(chars_less(m[a - 1].0, m[b - 1].0));
                }
            }
        },
    }
}

proof fn lemma_remove_sorted(m: Seq<HostEntryModel>, name: Seq<char>)
    requires
        names_sorted(m),
    ensures
        names_sorted(spec_remove(m, name)),
{
    lemma_find_name(m, name);
    match find_name(m, name) {
        Some(i) => {
            let r = m.remove(i);
            assert forall|a: int, b: int| 0 <= a < b < r.len() implies chars_less(#[trigger] r[a].0, #[trigger] r[b].0) by {
                let a1 = if a < i { a } else { a + 1 };
                let b1 = if b < i { b } else { b + 1 };
                assert(r[a] == m[a1] && r[b] == m[b1]);
                assert(chars_less(m[a1].0, m[b1].0));
            }
        },
        None => {},
    }
}

/// In a sorted table a name is found wherever it is.
pub proof fn lemma_sorted_find(m: Seq<HostEntryModel>, name: Seq<char>, k: int)
    requires
        names_sorted(m),
        0 <= k < m.len(),
        m[k].0 == name,
    ensures
        find_name(m, name) == Some(k),
{
    lemma_find_name(m, name);
    if let Some(i) = find_name(m, name) {
        if i != k {
            if i < k {
                assert(chars_less(m[i].0, m[k].0));
            } else {
                assert(chars_less(m[k].0, m[i].0));
            }
            lemma_chars_less_irreflexive(name);
        }
    }
}

impl HostTable {
    /// The table keeps its names in order.
    pub closed spec fn wf(&self) -> bool {
        names_sorted(self@)
    }

    /// A well-formed table holds its names in strictly increasing order.
    pub proof fn lemma_wf_sorted(&self)
        requires
            self.wf(),
        ensures
            names_sorted(self@),
    {
    }

    pub fn new() -> (r: Self)
        ensures
            r@ == Seq::<HostEntryModel>::empty(),
            r.wf(),
    {
        let r = HostTable { entries: Vec::new() };
        assert(r@ =~= Seq::<HostEntryModel>::empty());
        r
    }

    pub fn len(&self) -> (n: usize)
        ensures
            n == self@.len(),
    {
        self.entries.len()
    }

    pub fn is_empty(&self) -> (b: bool)
        ensures
            b == (self@.len() == 0),
    {
        self.entries.len() == 0
    }

    /// The aliases, in name order.
    pub fn entries(&self) -> (r: &[(String, HostConfig)])
        ensures
            entries_view(r@) == self@,
    {
        self.entries.as_slice()
    }

    fn position(&self, name: &[char]) -> (r: Option<usize>)
        ensures
            match find_name(self@, name@) {
                Some(i) => r is Some && r->Some_0 == i,
                None => r is None,
            },
            r matches Some(i) ==> i < self@.len() && i < self.entries@.len() && self@[i as int].0 == name@,
            self@.len() == self.entries@.len(),
    {
        proof {
            lemma_find_name(self@, name@);
        }
        let mut i: usize = 0;
        while i < self.entries.len()
            invariant
                i <= self@.len(),
                forall|j: int| 0 <= j < i ==> self@[j].0 != name@,
            decreases self@.len() - i,
        {
            let key = chars_of(self.entries[i].0.as_str());
            assert(self@[i as int].0 == self.entries@[i as int].0@);
            if crate::text::same_chars(key.as_slice(), name) {
                proof {
                    lemma_find_name(self@, name@);
                }
                return Some(i);
            }
            i = i + 1;
        }
        None
    }

    fn name_less_at(&self, p: usize, name: &[char]) -> (r: bool)
        requires
            p < self@.len(),
        ensures
            r == chars_less(self@[p as int].0, name@),
    {
        assert(self@.len() == self.entries@.len());
        let key = chars_of(self.entries[p].0.as_str());
        assert(self@[p as int].0 == self.entries@[p as int].0@);
        chars_less_exec(key.as_slice(), name)
    }

    pub fn contains_key(&self, name: &str) -> (b: bool)
        ensures
            b == (find_name(self@, name@) is Some),
    {
        let chars = chars_of(name);
        self.position(chars.as_slice()).is_some()
    }

    pub fn get(&self, name: &str) -> (r: Option<&HostConfig>)
        ensures
            match lookup(self@, name@) {
                Some(h) => r is Some && r->Some_0@ == h,
                None => r is None,
            },
    {
        let chars = chars_of(name);
        match self.position(chars.as_slice()) {
            Some(i) => {
                let r = Some(&self.entries[i].1);
                assert(self@[i as int] == (self.entries@[i as int].0@, self.entries@[i as int].1@));
                assert(lookup(self@, name@) == Some(self@[i as int].1));
                r
            },
            None => None,
        }
    }

    pub fn insert(&mut self, name: String, value: HostConfig) -> (r: Option<HostConfig>)
        requires
            old(self).wf(),
        ensures
            final(self).wf(),
            final(self)@ == spec_insert(old(self)@, name@, value@),
            match lookup(old(self)@, name@) {
                Some(h) => r is Some && r->Some_0@ == h,
                None => r is None,
            },
    {
        let ghost m = self@;
        let ghost nv = (name@, value@);
        proof {
            lemma_insert_sorted(m, name@, value@);
            lemma_find_name(m, name@);
        }
        let chars = chars_of(name.as_str());
        match self.position(chars.as_slice()) {
            Some(i) => {
                let mut entry = (name, value);
                self.entries.set_and_swap(i, &mut entry);
                assert(self@ =~= m.update(i as int, nv));
                Some(entry.1)
            },
            None => {
                proof {
                    lemma_insert_position(m, name@);
                }
                let mut p: usize = 0;
                while p < self.entries.len() && self.name_less_at(p, chars.as_slice())
                    invariant
                        self@ == m,
                        self@.len() == self.entries@.len(),
                        names_sorted(m),
                        chars@ == name@,
                        p <= m.len(),
                        p <= insert_position(m, name@),
                    decreases m.len() - p,
                {
                    proof {
                        lemma_insert_position_step(m, name@, p as int);
                    }
                    p = p + 1;
                }
                proof {
                    lemma_insert_position_exact(m, name@, p as int);
                }
                self.entries.insert(p, (name, value));
                assert(self@ =~= m.insert(p as int, nv));
                None
            },
        }
    }

    pub fn remove(&mut self, name: &str) -> (r: Option<HostConfig>)
        requires
            old(self).wf(),
        ensures
            final(self).wf(),
            final(self)@ == spec_remove(old(self)@, name@),
            match lookup(old(self)@, name@) {
                Some(h) => r is Some && r->Some_0@ == h,
                None => r is None,
            },
    {
        let ghost m = self@;
        proof {
            lemma_remove_sorted(m, name@);
        }
        let chars = chars_of(name);
        match self.position(chars.as_slice()) {
            Some(i) => {
                let entry = self.entries.remove(i);
                assert(self@ =~= m.remove(i as int));
                Some(entry.1)
            },
            None => None,
        }
    }
}

proof fn lemma_insert_position_step(m: Seq<HostEntryModel>, name: Seq<char>, p: int)
    requires
        names_sorted(m),
        0 <= p < m.len(),
        p <= insert_position(m, name),
        chars_less(m[p].0, name),
    ensures
        p + 1 <= insert_position(m, name),
{
    lemma_insert_position(m, name);
}

proof fn lemma_insert_position_exact(m: Seq<HostEntryModel>, name: Seq<char>, p: int)
    requires
        names_sorted(m),
        0 <= p <= m.len(),
        p <= insert_position(m, name),
        p < m.len() ==> !chars_less(m[p].0, name),
    ensures
        p == insert_position(m, name),
{
    lemma_insert_position(m, name);
}


/// After an alias is set, looking it up gives the new settings, and every other alias looks
/// up as before.
pub proof fn lemma_lookup_after_insert(m: Seq<HostEntryModel>, name: Seq<char>, value: HostConfigModel, other: Seq<char>)
    requires
        names_sorted(m),
    ensures
        lookup(spec_insert(m, name, value), name) == Some(value),
        other != name ==> lookup(spec_insert(m, name, value), other) == lookup(m, other),
{
    let r = spec_insert(m, name, value);
    lemma_insert_sorted(m, name, value);
    lemma_find_name(m, name);
    lemma_find_name(m, other);
    lemma_find_name(r, other);
    let k = match find_name(m, name) {
        Some(i) => i,
        None => insert_position(m, name),
    };
    if find_name(m, name) is None {
        lemma_insert_position(m, name);
    }
    assert(r[k] == (name, value));
    lemma_sorted_find(r, name, k);
    if other != name {
        match find_name(m, other) {
            Some(j) => {
                let j2 = if find_name(m, name) is None && j >= k { j + 1 } else { j };
                assert(r[j2] == m[j]);
                lemma_sorted_find(r, other, j2);
            },
            None => {
                if let Some(j) = find_name(r, other) {
                    if find_name(m, name) is None {
                        if j < k {
                            assert(r[j] == m[j]);
                        } else if j > k {
                            assert(r[j] == m[j - 1]);
                        }
                    } else {
                        assert(r[j] == m[j] || j == k);
                    }
                }
            },
        }
    }
}

/// Adding an alias that is not in the table and then removing it gives the table back, and
/// the removal finds the settings that were added.
pub proof fn lemma_remove_after_insert(m: Seq<HostEntryModel>, name: Seq<char>, value: HostConfigModel)
    requires
        names_sorted(m),
        lookup(m, name) is None,
    ensures
        lookup(spec_insert(m, name, value), name) == Some(value),
        spec_remove(spec_insert(m, name, value), name) == m,
{
    lemma_lookup_after_insert(m, name, value, name);
    lemma_find_name(m, name);
    lemma_insert_position(m, name);
    let p = insert_position(m, name);
    let r = m.insert(p, (name, value));
    assert(spec_insert(m, name, value) == r);
    lemma_insert_sorted(m, name, value);
    assert(r[p].0 == name);
    lemma_sorted_find(r, name, p);
    assert(r.remove(p) =~= m);
}


/// After an alias is removed it is not found, and every other alias looks up as before.
pub proof fn lemma_lookup_after_remove(m: Seq<HostEntryModel>, name: Seq<char>, other: Seq<char>)
    requires
        names_sorted(m),
    ensures
        lookup(spec_remove(m, name), name) is None,
        other != name ==> lookup(spec_remove(m, name), other) == lookup(m, other),
{
    let r = spec_remove(m, name);
    lemma_remove_sorted(m, name);
    lemma_find_name(m, name);
    lemma_find_name(m, other);
    lemma_find_name(r, name);
    lemma_find_name(r, other);
    match find_name(m, name) {
        Some(k) => {
            if let Some(j) = find_name(r, name) {
                let j1 = if j < k { j } else { j + 1 };
                assert(r[j] == m[j1]);
                lemma_sorted_find(m, name, j1);
            }
            if other != name {
                match find_name(m, other) {
                    Some(j) => {
                        let j2 = if j < k { j } else { j - 1 };
                        assert(r[j2] == m[j]);
                        lemma_sorted_find(r, other, j2);
                    },
                    None => {
                        if let Some(j) = find_name(r, other) {
                            let j1 = if j < k { j } else { j + 1 };
                            assert(r[j] == m[j1]);
                        }
                    },
                }
            }
        },
        None => {},
    }
}

} // verus!
