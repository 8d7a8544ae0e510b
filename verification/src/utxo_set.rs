//! The index of unspent outputs: a finite map from output identifiers to
//! outputs, kept as a list in which no identifier occurs twice.

use crate::encoding::bytes_equal;
use crate::transaction::{OutputView, TransactionOutput};
use crate::utxo::{UtxoId, UtxoIdView};
use vstd::prelude::*;

verus! {

/// The unspent outputs, each under its identifier.
#[derive(Debug)]
pub struct UtxoSet {
    entries: Vec<(UtxoId, TransactionOutput)>,
}

/// Whether `key` is the identifier of one of the entries.
pub open spec fn has_key(entries: Seq<(UtxoId, TransactionOutput)>, key: UtxoIdView) -> bool {
    exists|i: int| 0 <= i < entries.len() && (#[trigger] entries[i]).0@ == key
}

/// The index of an entry with identifier `key`.
pub open spec fn index_of(entries: Seq<(UtxoId, TransactionOutput)>, key: UtxoIdView) -> int {
    choose|i: int| 0 <= i < entries.len() && (#[trigger] entries[i]).0@ == key
}

/// No identifier occurs twice among the entries.
pub open spec fn distinct_keys(entries: Seq<(UtxoId, TransactionOutput)>) -> bool {
    forall|i: int, j: int|
        0 <= i < j < entries.len() ==> (#[trigger] entries[i]).0@ != (#[trigger] entries[j]).0@
}

/// The map that a list of entries with distinct identifiers stands for.
pub open spec fn entries_map(entries: Seq<(UtxoId, TransactionOutput)>) -> Map<
    UtxoIdView,
    OutputView,
> {
    Map::new(
        |key: UtxoIdView| has_key(entries, key),
        |key: UtxoIdView| entries[index_of(entries, key)].1@,
    )
}

/// The total value held in a finite map of outputs.
pub open spec fn map_total(m: Map<UtxoIdView, OutputView>) -> nat
    decreases m.dom().len(),
    when m.dom().finite()
{
    if m.dom().len() == 0 {
        0
    } else {
        let key = m.dom().choose();
        m[key].value as nat + map_total(m.remove(key))
    }
}

/// The total does not depend on which entry is counted first.
pub proof fn lemma_map_total_remove(m: Map<UtxoIdView, OutputView>, key: UtxoIdView)
    requires
        m.dom().finite(),
        m.dom().contains(key),
    ensures
        map_total(m) == m[key].value as nat + map_total(m.remove(key)),
    decreases m.dom().len(),
{
    let first = m.dom().choose();
    if first != key {
        let without_first = m.remove(first);
        let without_key = m.remove(key);
        lemma_map_total_remove(without_first, key);
        lemma_map_total_remove(without_key, first);
        assert(without_first.remove(key) =~= without_key.remove(first));
    }
}

/// The total of an empty map is zero.
pub proof fn lemma_map_total_empty()
    ensures
        map_total(Map::<UtxoIdView, OutputView>::empty()) == 0,
{
    assert(Map::<UtxoIdView, OutputView>::empty().dom() =~= Set::empty());
}

/// An entry of a list with distinct identifiers is what the map holds under
/// its identifier.
pub proof fn lemma_entry_in_map(entries: Seq<(UtxoId, TransactionOutput)>, i: int)
    requires
        distinct_keys(entries),
        0 <= i < entries.len(),
    ensures
        entries_map(entries).dom().contains(entries[i].0@),
        entries_map(entries)[entries[i].0@] == entries[i].1@,
{
    let key = entries[i].0@;
    assert(has_key(entries, key));
    let j = index_of(entries, key);
    assert(i == j) by {
        if i < j {
            assert(entries[i].0@ != entries[j].0@);
        } else if j < i {
            assert(entries[j].0@ != entries[i].0@);
        }
    }
}

/// The map of a list has as many keys as the list has entries, and is
/// finite.
pub proof fn lemma_map_size(entries: Seq<(UtxoId, TransactionOutput)>)
    requires
        distinct_keys(entries),
    ensures
        entries_map(entries).dom().finite(),
        entries_map(entries).dom().len() == entries.len(),
    decreases entries.len(),
{
    if entries.len() == 0 {
        assert(entries_map(entries).dom() =~= Set::empty());
    } else {
        let shorter = entries.drop_last();
        let last = entries.last();
        assert(distinct_keys(shorter)) by {
            assert forall|i: int, j: int| 0 <= i < j < shorter.len() implies (
            #[trigger] shorter[i]).0@ != (#[trigger] shorter[j]).0@ by {
                assert(entries[i].0@ != entries[j].0@);
            }
        }
        lemma_map_size(shorter);
        assert(!has_key(shorter, last.0@)) by {
            if has_key(shorter, last.0@) {
                let i = index_of(shorter, last.0@);
                assert(entries[i].0@ != entries[entries.len() - 1].0@);
            }
        }
        assert(entries_map(entries).dom() =~= entries_map(shorter).dom().insert(last.0@)) by {
            assert forall|key: UtxoIdView|
                entries_map(entries).dom().contains(key) == entries_map(shorter).dom().insert(
                    last.0@,
                ).contains(key) by {
                if has_key(entries, key) {
                    let i = index_of(entries, key);
                    if i < shorter.len() {
                        assert(shorter[i].0@ == key);
                    }
                }
                if has_key(shorter, key) {
                    let i = index_of(shorter, key);
                    assert(entries[i].0@ == key);
                }
                if key == last.0@ {
                    assert(entries[entries.len() - 1].0@ == key);
                }
            }
        }
    }
}

impl View for UtxoSet {
    type V = Map<UtxoIdView, OutputView>;

    closed spec fn view(&self) -> Map<UtxoIdView, OutputView> {
        entries_map(self.entries@)
    }
}

impl UtxoSet {
    #[verifier::type_invariant]
    spec fn well_formed(self) -> bool {
        distinct_keys(self.entries@)
    }

    /// The empty index.
    pub fn new() -> (r: Self)
        ensures
            r@ == Map::<UtxoIdView, OutputView>::empty(),
    {
        let r = UtxoSet { entries: Vec::new() };
        assert(r@ =~= Map::<UtxoIdView, OutputView>::empty());
        r
    }

    fn position(&self, id: &UtxoId) -> (r: Option<usize>)
        ensures
            match r {
                Some(i) => i < self.entries@.len() && self.entries@[i as int].0@ == id@,
                None => !has_key(self.entries@, id@),
            },
    {
        let mut i: usize = 0;
        while i < self.entries.len()
            invariant
                i <= self.entries@.len(),
                forall|j: int| 0 <= j < i ==> (#[trigger] self.entries@[j]).0@ != id@,
            decreases self.entries@.len() - i,
        {
            if self.entries[i].0.same_as(id) {
                return Some(i);
            }
            i += 1;
        }
        None
    }

    /// The number of unspent outputs.
    pub fn len(&self) -> (r: usize)
        ensures
            self@.dom().finite(),
            r == self@.dom().len(),
    {
        proof {
            use_type_invariant(self);
            lemma_map_size(self.entries@);
        }
        self.entries.len()
    }

    /// Whether there is no unspent output.
    pub fn is_empty(&self) -> (r: bool)
        ensures
            self@.dom().finite(),
            r == (self@.dom().len() == 0),
    {
        proof {
            use_type_invariant(self);
            lemma_map_size(self.entries@);
        }
        self.entries.len() == 0
    }

    /// Whether `id` names an unspent output.
    pub fn contains_key(&self, id: &UtxoId) -> (r: bool)
        ensures
            r == self@.dom().contains(id@),
    {
        self.position(id).is_some()
    }

    /// The unspent output that `id` names, if there is one.
    pub fn get(&self, id: &UtxoId) -> (r: Option<&TransactionOutput>)
        ensures
            match r {
                Some(output) => self@.dom().contains(id@) && output@ == self@[id@],
                None => !self@.dom().contains(id@),
            },
    {
        match self.position(id) {
            Some(i) => {
                proof {
                    use_type_invariant(self);
                    lemma_entry_in_map(self.entries@, i as int);
                }
                Some(&self.entries[i].1)
            },
            None => None,
        }
    }

    /// Puts `output` under `id`, and returns what stood there before.
    pub fn insert(&mut self, id: UtxoId, output: TransactionOutput) -> (r: Option<
        TransactionOutput,
    >)
        ensures
            final(self)@ == old(self)@.insert(id@, output@),
            match r {
                Some(previous) => old(self)@.dom().contains(id@) && previous@ == old(self)@[id@],
                None => !old(self)@.dom().contains(id@),
            },
    {
        proof {
            use_type_invariant(&*self);
        }
        let found = self.position(&id);
        let mut taken = UtxoSet { entries: Vec::new() };
        core::mem::swap(self, &mut taken);
        let mut entries = taken.entries;
        let ghost before = entries@;
        let previous = match found {
            Some(i) => {
                proof {
                    lemma_entry_in_map(before, i as int);
                }
                let removed = entries.swap_remove(i);
                Some(removed.1)
            },
            None => None,
        };
        let ghost middle = entries@;
        proof {
            lemma_without(before, middle, id@, found);
        }
        entries.push((id, output));
        proof {
            assert(entries@.drop_last() =~= middle);
            lemma_with(middle, entries@, id@, output@);
            assert(entries_map(entries@) =~= entries_map(before).insert(id@, output@));
        }
        *self = UtxoSet { entries };
        previous
    }

    /// Takes the unspent output that `id` names out of the index, if there
    /// is one.
    pub fn remove(&mut self, id: &UtxoId) -> (r: Option<TransactionOutput>)
        ensures
            final(self)@ == old(self)@.remove(id@),
            match r {
                Some(output) => old(self)@.dom().contains(id@) && output@ == old(self)@[id@],
                None => !old(self)@.dom().contains(id@),
            },
    {
        proof {
            use_type_invariant(&*self);
        }
        let found = self.position(id);
        let mut taken = UtxoSet { entries: Vec::new() };
        core::mem::swap(self, &mut taken);
        let mut entries = taken.entries;
        let ghost before = entries@;
        let removed = match found {
            Some(i) => {
                proof {
                    lemma_entry_in_map(before, i as int);
                }
                let removed = entries.swap_remove(i);
                Some(removed.1)
            },
            None => None,
        };
        proof {
            lemma_without(before, entries@, id@, found);
        }
        *self = UtxoSet { entries };
        removed
    }

    /// The total value of the unspent outputs.
    pub fn total_value(&self) -> (r: u128)
        ensures
            r == map_total(self@),
    {
        proof {
            use_type_invariant(self);
            lemma_map_total_empty();
            assert(self.entries@.subrange(0, 0) =~= Seq::empty());
            assert(entries_map(self.entries@.subrange(0, 0)) =~= Map::empty());
        }
        let mut total: u128 = 0;
        let mut i: usize = 0;
        while i < self.entries.len()
            invariant
                i <= self.entries@.len(),
                distinct_keys(self.entries@),
                total == map_total(entries_map(self.entries@.subrange(0, i as int))),
                total <= i * 0xFFFF_FFFF_FFFF_FFFF,
            decreases self.entries@.len() - i,
        {
            proof {
                let shorter = self.entries@.subrange(0, i as int);
                let longer = self.entries@.subrange(0, i as int + 1);
                assert(distinct_keys(longer));
                assert(distinct_keys(shorter));
                lemma_map_size(longer);
                lemma_entry_in_map(longer, i as int);
                lemma_map_total_remove(entries_map(longer), longer[i as int].0@);
                assert(shorter =~= longer.drop_last());
                lemma_without(longer, shorter, longer[i as int].0@, Some(i));
                assert(i * 0xFFFF_FFFF_FFFF_FFFF + 0xFFFF_FFFF_FFFF_FFFF == (i + 1)
                    * 0xFFFF_FFFF_FFFF_FFFF) by (nonlinear_arith);
                assert(i * 0xFFFF_FFFF_FFFF_FFFF <= 0xFFFF_FFFF_FFFF_FFFF * 0xFFFF_FFFF_FFFF_FFFF)
                    by (nonlinear_arith)
                    requires
                        i <= 0xFFFF_FFFF_FFFF_FFFF,
                ;
            }
            total = total + self.entries[i].1.value as u128;
            i += 1;
        }
        assert(self.entries@.subrange(0, self.entries@.len() as int) =~= self.entries@);
        total
    }

    /// The identifiers and outputs, in no particular order.
    pub fn entries(&self) -> (r: &[(UtxoId, TransactionOutput)])
        ensures
            distinct_keys(r@),
            entries_map(r@) == self@,
    {
        proof {
            use_type_invariant(self);
        }
        self.entries.as_slice()
    }
}

/// Removing the entry at `found` by moving the last entry into its place,
/// or nothing where `found` is `None`, removes `key` from the map.
pub proof fn lemma_without(
    before: Seq<(UtxoId, TransactionOutput)>,
    after: Seq<(UtxoId, TransactionOutput)>,
    key: UtxoIdView,
    found: Option<usize>,
)
    requires
        distinct_keys(before),
        match found {
            Some(i) => {
                &&& i < before.len()
                &&& before[i as int].0@ == key
                &&& (after == before.update(i as int, before.last()).drop_last() || (i
                    == before.len() - 1 && after == before.drop_last()))
            },
            None => !has_key(before, key) && after == before,
        },
    ensures
        distinct_keys(after),
        !has_key(after, key),
        entries_map(after) == entries_map(before).remove(key),
{
    match found {
        Some(i) => {
            let n = before.len() as int;
            let i = i as int;
            assert forall|a: int| 0 <= a < after.len() implies exists|b: int|
                0 <= b < n && b != i && #[trigger] after[a] == before[b] by {
                if a == i {
                    assert(after[a] == before[n - 1]);
                } else {
                    assert(after[a] == before[a]);
                }
            }
            assert forall|a: int, b: int| 0 <= a < b < after.len() implies (#[trigger] after[a]).0@
                != (#[trigger] after[b]).0@ by {
                let a0 = if a == i {
                    n - 1
                } else {
                    a
                };
                let b0 = if b == i {
                    n - 1
                } else {
                    b
                };
                assert(after[a] == before[a0] && after[b] == before[b0]);
                if a0 < b0 {
                    assert(before[a0].0@ != before[b0].0@);
                } else {
                    assert(before[b0].0@ != before[a0].0@);
                }
            }
            assert forall|a: int| 0 <= a < after.len() implies (#[trigger] after[a]).0@ != key by {
                let a0 = if a == i {
                    n - 1
                } else {
                    a
                };
                assert(after[a] == before[a0]);
                if a0 < i {
                    assert(before[a0].0@ != before[i].0@);
                } else {
                    assert(before[i].0@ != before[a0].0@);
                }
            }
            assert forall|k: UtxoIdView| has_key(after, k) == (has_key(before, k) && k != key) by {
                if has_key(after, k) {
                    let a = index_of(after, k);
                    let a0 = if a == i {
                        n - 1
                    } else {
                        a
                    };
                    assert(before[a0].0@ == k);
                }
                if has_key(before, k) && k != key {
                    let b = index_of(before, k);
                    if b == n - 1 {
                        assert(after[i].0@ == k);
                    } else {
                        assert(after[b].0@ == k);
                    }
                }
            }
            assert forall|k: UtxoIdView| has_key(after, k) implies entries_map(after)[k]
                == entries_map(before)[k] by {
                let a = index_of(after, k);
                let a0 = if a == i {
                    n - 1
                } else {
                    a
                };
                assert(after[a] == before[a0]);
                lemma_entry_in_map(after, a);
                lemma_entry_in_map(before, a0);
            }
            assert(entries_map(after) =~= entries_map(before).remove(key));
        },
        None => {
            assert(entries_map(after) =~= entries_map(before).remove(key));
        },
    }
}

/// Appending an entry whose identifier is new inserts it into the map.
pub proof fn lemma_with(
    before: Seq<(UtxoId, TransactionOutput)>,
    after: Seq<(UtxoId, TransactionOutput)>,
    key: UtxoIdView,
    output: OutputView,
)
    requires
        distinct_keys(before),
        !has_key(before, key),
        after.len() == before.len() + 1,
        after.drop_last() == before,
        after.last().0@ == key,
        after.last().1@ == output,
    ensures
        distinct_keys(after),
        entries_map(after) == entries_map(before).insert(key, output),
{
    let n = before.len() as int;
    assert forall|a: int| 0 <= a < n implies #[trigger] after[a] == before[a] by {
        assert(after.drop_last()[a] == after[a]);
    }
    assert forall|a: int, b: int| 0 <= a < b < after.len() implies (#[trigger] after[a]).0@ != (
    #[trigger] after[b]).0@ by {
        if b < n {
            assert(before[a].0@ != before[b].0@);
        } else {
            assert(before[a].0@ != key);
        }
    }
    assert forall|k: UtxoIdView| has_key(after, k) == (has_key(before, k) || k == key) by {
        if has_key(after, k) {
            let a = index_of(after, k);
            if a < n {
                assert(before[a].0@ == k);
            }
        }
        if has_key(before, k) {
            let b = index_of(before, k);
            assert(after[b].0@ == k);
        }
        if k == key {
            assert(after[n].0@ == k);
        }
    }
    assert forall|k: UtxoIdView| has_key(after, k) implies entries_map(after)[k] == entries_map(
        before,
    ).insert(key, output)[k] by {
        let a = index_of(after, k);
        lemma_entry_in_map(after, a);
        if a < n {
            lemma_entry_in_map(before, a);
        }
    }
    assert(entries_map(after) =~= entries_map(before).insert(key, output));
}

impl Clone for UtxoSet {
    fn clone(&self) -> (r: Self)
        ensures
            r@ == self@,
    {
        proof {
            use_type_invariant(self);
        }
        let mut entries: Vec<(UtxoId, TransactionOutput)> = Vec::with_capacity(self.entries.len());
        let mut i: usize = 0;
        while i < self.entries.len()
            invariant
                i <= self.entries@.len(),
                entries@.len() == i,
                forall|j: int|
                    0 <= j < i ==> (#[trigger] entries@[j]).0@ == self.entries@[j].0@
                        && entries@[j].1@ == self.entries@[j].1@,
            decreases self.entries@.len() - i,
        {
            entries.push((self.entries[i].0, self.entries[i].1.clone()));
            i += 1;
        }
        proof {
            lemma_same_views(self.entries@, entries@);
        }
        UtxoSet { entries }
    }
}

/// Two lists whose entries agree in their views stand for the same map.
proof fn lemma_same_views(
    a: Seq<(UtxoId, TransactionOutput)>,
    b: Seq<(UtxoId, TransactionOutput)>,
)
    requires
        distinct_keys(a),
        a.len() == b.len(),
        forall|j: int|
            0 <= j < a.len() ==> (#[trigger] b[j]).0@ == a[j].0@ && b[j].1@ == a[j].1@,
    ensures
        distinct_keys(b),
        entries_map(b) == entries_map(a),
{
    assert forall|i: int, j: int| 0 <= i < j < b.len() implies (#[trigger] b[i]).0@ != (
    #[trigger] b[j]).0@ by {
        assert(a[i].0@ != a[j].0@);
    }
    assert forall|k: UtxoIdView| has_key(a, k) == has_key(b, k) by {
        if has_key(a, k) {
            let i = index_of(a, k);
            assert(b[i].0@ == k);
        }
        if has_key(b, k) {
            let i = index_of(b, k);
            assert(a[i].0@ == k);
        }
    }
    assert forall|k: UtxoIdView| has_key(a, k) implies entries_map(a)[k] == entries_map(b)[k] by {
        let i = index_of(a, k);
        assert(b[i].0@ == k);
        lemma_entry_in_map(a, i);
        lemma_entry_in_map(b, i);
    }
    assert(entries_map(b) =~= entries_map(a));
}

/// Whether a script is selected by a pattern: it equals the pattern, or,
/// where `prefix_only` holds, it starts with the pattern.
pub open spec fn script_matches(script: Seq<u8>, pattern: Seq<u8>, prefix_only: bool) -> bool {
    if prefix_only {
        pattern.len() <= script.len() && script.subrange(0, pattern.len() as int) == pattern
    } else {
        script == pattern
    }
}

/// The unspent outputs whose scripts a pattern selects.
pub open spec fn matching(
    utxos: Map<UtxoIdView, OutputView>,
    pattern: Seq<u8>,
    prefix_only: bool,
) -> Map<UtxoIdView, OutputView> {
    Map::new(
        |key: UtxoIdView|
            utxos.dom().contains(key) && script_matches(
                utxos[key].script_pubkey,
                pattern,
                prefix_only,
            ),
        |key: UtxoIdView| utxos[key],
    )
}

/// Whether `script` is selected by `pattern`.
pub fn script_selected(script: &[u8], pattern: &[u8], prefix_only: bool) -> (r: bool)
    ensures
        r == script_matches(script@, pattern@, prefix_only),
{
    if !prefix_only {
        return bytes_equal(script, pattern);
    }
    if pattern.len() > script.len() {
        return false;
    }
    let mut i: usize = 0;
    while i < pattern.len()
        invariant
            i <= pattern@.len(),
            pattern@.len() <= script@.len(),
            forall|j: int| 0 <= j < i ==> script@[j] == pattern@[j],
        decreases pattern@.len() - i,
    {
        if script[i] != pattern[i] {
            assert(script@.subrange(0, pattern@.len() as int)[i as int] != pattern@[i as int]);
            return false;
        }
        i += 1;
    }
    assert(script@.subrange(0, pattern@.len() as int) =~= pattern@);
    true
}

/// The selection from a list that is one entry longer: the entry joins it
/// where its script is selected.
proof fn lemma_matching_step(
    entries: Seq<(UtxoId, TransactionOutput)>,
    i: int,
    pattern: Seq<u8>,
    prefix_only: bool,
)
    requires
        distinct_keys(entries),
        0 <= i < entries.len(),
    ensures
        distinct_keys(entries.subrange(0, i)),
        distinct_keys(entries.subrange(0, i + 1)),
        !entries_map(entries.subrange(0, i)).dom().contains(entries[i].0@),
        !matching(entries_map(entries.subrange(0, i)), pattern, prefix_only).dom().contains(
            entries[i].0@,
        ),
        matching(entries_map(entries.subrange(0, i)), pattern, prefix_only).dom().finite(),
        matching(entries_map(entries.subrange(0, i + 1)), pattern, prefix_only) == if script_matches(
            entries[i].1@.script_pubkey,
            pattern,
            prefix_only,
        ) {
            matching(entries_map(entries.subrange(0, i)), pattern, prefix_only).insert(
                entries[i].0@,
                entries[i].1@,
            )
        } else {
            matching(entries_map(entries.subrange(0, i)), pattern, prefix_only)
        },
{
    let shorter = entries.subrange(0, i);
    let longer = entries.subrange(0, i + 1);
    assert(distinct_keys(shorter));
    assert(distinct_keys(longer));
    assert(longer.drop_last() =~= shorter);
    assert(!has_key(shorter, entries[i].0@)) by {
        if has_key(shorter, entries[i].0@) {
            let j = index_of(shorter, entries[i].0@);
            assert(entries[j].0@ != entries[i].0@);
        }
    }
    lemma_with(shorter, longer, entries[i].0@, entries[i].1@);
    lemma_map_size(shorter);
    let selected = matching(entries_map(shorter), pattern, prefix_only);
    assert(selected.dom().subset_of(entries_map(shorter).dom()));
    vstd::set_lib::lemma_len_subset(selected.dom(), entries_map(shorter).dom());
    let next = matching(entries_map(longer), pattern, prefix_only);
    if script_matches(entries[i].1@.script_pubkey, pattern, prefix_only) {
        assert(next =~= selected.insert(entries[i].0@, entries[i].1@));
    } else {
        assert(next =~= selected);
    }
}

impl UtxoSet {
    /// The unspent outputs whose scripts `pattern` selects, each once, in
    /// no particular order.
    pub fn find_by_script(&self, pattern: &[u8], prefix_only: bool) -> (r: Vec<
        (UtxoId, &TransactionOutput),
    >)
        ensures
            forall|j: int|
                0 <= j < r@.len() ==> {
                    &&& matching(self@, pattern@, prefix_only).dom().contains((#[trigger] r@[j]).0@)
                    &&& r@[j].1@ == self@[r@[j].0@]
                },
            forall|i: int, j: int|
                0 <= i < j < r@.len() ==> (#[trigger] r@[i]).0@ != (#[trigger] r@[j]).0@,
            forall|key: UtxoIdView|
                matching(self@, pattern@, prefix_only).dom().contains(key) ==> exists|j: int|
                    0 <= j < r@.len() && (#[trigger] r@[j]).0@ == key,
    {
        proof {
            use_type_invariant(self);
        }
        let mut found: Vec<(UtxoId, &TransactionOutput)> = Vec::new();
        let mut i: usize = 0;
        while i < self.entries.len()
            invariant
                i <= self.entries@.len(),
                distinct_keys(self.entries@),
                forall|j: int|
                    0 <= j < found@.len() ==> exists|e: int|
                        0 <= e < i && (#[trigger] found@[j]).0@ == self.entries@[e].0@
                            && found@[j].1@ == self.entries@[e].1@ && script_matches(
                            self.entries@[e].1@.script_pubkey,
                            pattern@,
                            prefix_only,
                        ),
                forall|a: int, b: int|
                    0 <= a < b < found@.len() ==> (#[trigger] found@[a]).0@ != (
                    #[trigger] found@[b]).0@,
                forall|e: int|
                    0 <= e < i && script_matches(
                        (#[trigger] self.entries@[e]).1@.script_pubkey,
                        pattern@,
                        prefix_only,
                    ) ==> exists|j: int|
                        0 <= j < found@.len() && (#[trigger] found@[j]).0@ == self.entries@[e].0@,
            decreases self.entries@.len() - i,
        {
            let entry = &self.entries[i];
            if script_selected(entry.1.script_pubkey.data(), pattern, prefix_only) {
                let ghost before = found@;
                found.push((entry.0, &entry.1));
                proof {
                    assert forall|a: int, b: int| 0 <= a < b < found@.len() implies (
                    #[trigger] found@[a]).0@ != (#[trigger] found@[b]).0@ by {
                        if b == found@.len() - 1 {
                            assert(found@[a] == before[a]);
                            let e = choose|e: int|
                                0 <= e < i && before[a].0@ == self.entries@[e].0@;
                            assert(self.entries@[e].0@ != self.entries@[i as int].0@);
                        } else {
                            assert(found@[a] == before[a] && found@[b] == before[b]);
                        }
                    }
                    assert forall|j: int| 0 <= j < found@.len() implies exists|e: int|
                        0 <= e < i + 1 && (#[trigger] found@[j]).0@ == self.entries@[e].0@
                            && found@[j].1@ == self.entries@[e].1@ && script_matches(
                            self.entries@[e].1@.script_pubkey,
                            pattern@,
                            prefix_only,
                        ) by {
                        if j < before.len() {
                            assert(found@[j] == before[j]);
                            let e = choose|e: int|
                                0 <= e < i && before[j].0@ == self.entries@[e].0@ && before[j].1@
                                    == self.entries@[e].1@ && script_matches(
                                    self.entries@[e].1@.script_pubkey,
                                    pattern@,
                                    prefix_only,
                                );
                            assert(0 <= e < i + 1);
                        } else {
                            assert(found@[j].0@ == self.entries@[i as int].0@);
                        }
                    }
                    assert forall|e: int|
                        0 <= e < i + 1 && script_matches(
                            (#[trigger] self.entries@[e]).1@.script_pubkey,
                            pattern@,
                            prefix_only,
                        ) implies exists|j: int|
                        0 <= j < found@.len() && (#[trigger] found@[j]).0@ == self.entries@[e].0@ by {
                        if e < i {
                            let j = choose|j: int|
                                0 <= j < before.len() && (#[trigger] before[j]).0@
                                    == self.entries@[e].0@;
                            assert(found@[j] == before[j]);
                        } else {
                            assert(found@[found@.len() - 1].0@ == self.entries@[e].0@);
                        }
                    }
                }
            }
            i += 1;
        }
        proof {
            assert forall|j: int| 0 <= j < found@.len() implies {
                &&& matching(self@, pattern@, prefix_only).dom().contains((#[trigger] found@[j]).0@)
                &&& found@[j].1@ == self@[found@[j].0@]
            } by {
                let e = choose|e: int|
                    0 <= e < i && found@[j].0@ == self.entries@[e].0@ && found@[j].1@
                        == self.entries@[e].1@ && script_matches(
                        self.entries@[e].1@.script_pubkey,
                        pattern@,
                        prefix_only,
                    );
                lemma_entry_in_map(self.entries@, e);
            }
            assert forall|key: UtxoIdView|
                matching(self@, pattern@, prefix_only).dom().contains(key) implies exists|j: int|
                0 <= j < found@.len() && (#[trigger] found@[j]).0@ == key by {
                let e = index_of(self.entries@, key);
                lemma_entry_in_map(self.entries@, e);
            }
        }
        found
    }

    /// The total value of the unspent outputs whose scripts `pattern`
    /// selects.
    pub fn total_matching(&self, pattern: &[u8], prefix_only: bool) -> (r: u128)
        ensures
            r == map_total(matching(self@, pattern@, prefix_only)),
    {
        proof {
            use_type_invariant(self);
            lemma_map_total_empty();
            assert(self.entries@.subrange(0, 0) =~= Seq::empty());
            assert(matching(entries_map(self.entries@.subrange(0, 0)), pattern@, prefix_only)
                =~= Map::empty());
        }
        let mut total: u128 = 0;
        let mut i: usize = 0;
        while i < self.entries.len()
            invariant
                i <= self.entries@.len(),
                distinct_keys(self.entries@),
                total == map_total(
                    matching(
                        entries_map(self.entries@.subrange(0, i as int)),
                        pattern@,
                        prefix_only,
                    ),
                ),
                total <= i * 0xFFFF_FFFF_FFFF_FFFF,
            decreases self.entries@.len() - i,
        {
            proof {
                lemma_matching_step(self.entries@, i as int, pattern@, prefix_only);
                let selected = matching(
                    entries_map(self.entries@.subrange(0, i as int)),
                    pattern@,
                    prefix_only,
                );
                let key = self.entries@[i as int].0@;
                let value = self.entries@[i as int].1@;
                if script_matches(value.script_pubkey, pattern@, prefix_only) {
                    lemma_map_total_remove(selected.insert(key, value), key);
                    assert(selected.insert(key, value).remove(key) =~= selected);
                }
                assert(i * 0xFFFF_FFFF_FFFF_FFFF + 0xFFFF_FFFF_FFFF_FFFF == (i + 1)
                    * 0xFFFF_FFFF_FFFF_FFFF) by (nonlinear_arith);
                assert(i * 0xFFFF_FFFF_FFFF_FFFF <= 0xFFFF_FFFF_FFFF_FFFF * 0xFFFF_FFFF_FFFF_FFFF)
                    by (nonlinear_arith)
                    requires
                        i <= 0xFFFF_FFFF_FFFF_FFFF,
                ;
            }
            let entry = &self.entries[i];
            if script_selected(entry.1.script_pubkey.data(), pattern, prefix_only) {
                total = total + entry.1.value as u128;
            }
            i += 1;
        }
        assert(self.entries@.subrange(0, self.entries@.len() as int) =~= self.entries@);
        total
    }
}

} // verus!
