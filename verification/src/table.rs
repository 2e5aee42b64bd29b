//! An insertion-ordered association table, the in-memory shape of keyed ledger storage.

use vstd::prelude::*;

verus! {

/// A key that can be compared at run time.
pub trait Key: Sized {
    /// Whether the two keys are the same key.
    fn same(&self, other: &Self) -> (r: bool)
        ensures
            r == (*self == *other),
    ;
}

impl Key for u64 {
    fn same(&self, other: &Self) -> (r: bool) {
        *self == *other
    }
}

impl Key for (u64, crate::address::Address) {
    fn same(&self, other: &Self) -> (r: bool) {
        self.0 == other.0 && self.1 == other.1
    }
}

impl Key for (crate::bytes32::Bytes32, u64) {
    fn same(&self, other: &Self) -> (r: bool) {
        self.0 == other.0 && self.1 == other.1
    }
}

/// A finite map from `K` to `V`: at most one entry per key.
pub struct Table<K: Key, V> {
    entries: Vec<(K, V)>,
}

/// The position of `key` in `entries` is `i`.
spec fn holds_at<K, V>(entries: Seq<(K, V)>, key: K, i: int) -> bool {
    0 <= i < entries.len() && entries[i].0 == key
}

/// The map that a list of entries stands for.
spec fn as_map<K, V>(entries: Seq<(K, V)>) -> Map<K, V> {
    Map::new(
        |key: K| exists|i: int| holds_at(entries, key, i),
        |key: K| entries[choose|i: int| holds_at(entries, key, i)].1,
    )
}

/// No key occurs twice.
spec fn distinct_keys<K, V>(entries: Seq<(K, V)>) -> bool {
    forall|i: int, j: int|
        0 <= i < j < entries.len() ==> (#[trigger] entries[i]).0 != (#[trigger] entries[j]).0
}

impl<K: Key, V> View for Table<K, V> {
    type V = Map<K, V>;

    closed spec fn view(&self) -> Map<K, V> {
        as_map(self.entries@)
    }
}

impl<K: Key, V> Table<K, V> {
    #[verifier::type_invariant]
    spec fn wf(self) -> bool {
        distinct_keys(self.entries@)
    }

    /// A table without entries.
    pub fn new() -> (r: Self)
        ensures
            r@ == Map::<K, V>::empty(),
    {
        let r = Table { entries: Vec::new() };
        assert(r@ =~= Map::<K, V>::empty());
        r
    }

    /// Where `key` is, if it is there.
    fn position(&self, key: &K) -> (r: Option<usize>)
        ensures
            r matches Some(i) ==> holds_at(self.entries@, *key, i as int),
            r is None ==> forall|i: int| !holds_at(self.entries@, *key, i),
    {
        let mut i: usize = 0;
        while i < self.entries.len()
            invariant
                forall|j: int| 0 <= j < i ==> !holds_at(self.entries@, *key, j),
                i <= self.entries.len(),
            decreases self.entries.len() - i,
        {
            if self.entries[i].0.same(key) {
                return Some(i);
            }
            i += 1;
        }
        None
    }

    /// Whether there is an entry for `key`.
    pub fn contains_key(&self, key: &K) -> (r: bool)
        ensures
            r == self@.contains_key(*key),
    {
        match self.position(key) {
            Some(i) => {
                assert(holds_at(self.entries@, *key, i as int));
                true
            },
            None => false,
        }
    }

    /// The value stored for `key`.
    pub fn get(&self, key: &K) -> (r: Option<&V>)
        ensures
            r is Some <==> self@.contains_key(*key),
            r matches Some(v) ==> *v == self@[*key],
    {
        proof {
            use_type_invariant(&*self);
        }
        match self.position(key) {
            Some(i) => {
                proof {
                    lemma_lookup(self.entries@, *key, i as int);
                }
                Some(&self.entries[i].1)
            },
            None => None,
        }
    }

    /// Stores `value` for `key`, in place of whatever was stored for it.
    pub fn insert(&mut self, key: K, value: V)
        ensures
            final(self)@ == old(self)@.insert(key, value),
    {
        proof {
            use_type_invariant(&*self);
        }
        let ghost before = self.entries@;
        let place = self.position(&key);
        let mut entries: Vec<(K, V)> = Vec::new();
        std::mem::swap(&mut entries, &mut self.entries);
        match place {
            Some(i) => {
                entries.set(i, (key, value));
                proof {
                    lemma_replace(before, i as int, key, value);
                }
            },
            None => {
                entries.push((key, value));
                proof {
                    lemma_append(before, key, value);
                }
            },
        }
        self.entries = entries;
    }
}

proof fn lemma_lookup<K, V>(entries: Seq<(K, V)>, key: K, i: int)
    requires
        distinct_keys(entries),
        holds_at(entries, key, i),
    ensures
        as_map(entries).contains_key(key),
        as_map(entries)[key] == entries[i].1,
{
    let j = choose|j: int| holds_at(entries, key, j);
    assert(holds_at(entries, key, j));
    assert(i == j) by {
        if i < j {
            assert(entries[i].0 != entries[j].0);
        } else if j < i {
            assert(entries[j].0 != entries[i].0);
        }
    }
}

proof fn lemma_replace<K, V>(entries: Seq<(K, V)>, i: int, key: K, value: V)
    requires
        distinct_keys(entries),
        holds_at(entries, key, i),
    ensures
        distinct_keys(entries.update(i, (key, value))),
        as_map(entries.update(i, (key, value))) == as_map(entries).insert(key, value),
{
    let after = entries.update(i, (key, value));
    assert forall|a: int, b: int| 0 <= a < b < after.len() implies (#[trigger] after[a]).0
        != (#[trigger] after[b]).0 by {
        assert(entries[a].0 != entries[b].0);
    }
    lemma_same_map(entries, after, i, key, value);
}

proof fn lemma_append<K, V>(entries: Seq<(K, V)>, key: K, value: V)
    requires
        distinct_keys(entries),
        forall|i: int| !holds_at(entries, key, i),
    ensures
        distinct_keys(entries.push((key, value))),
        as_map(entries.push((key, value))) == as_map(entries).insert(key, value),
{
    let after = entries.push((key, value));
    assert forall|a: int, b: int| 0 <= a < b < after.len() implies (#[trigger] after[a]).0
        != (#[trigger] after[b]).0 by {
        assert(!holds_at(entries, key, a));
        if b < entries.len() {
            assert(entries[a].0 != entries[b].0);
        }
    }
    lemma_same_map(entries, after, entries.len() as int, key, value);
}

/// Writing one entry at `at`, and no other, is a map insertion.
proof fn lemma_same_map<K, V>(
    before: Seq<(K, V)>,
    after: Seq<(K, V)>,
    at: int,
    key: K,
    value: V,
)
    requires
        distinct_keys(before),
        distinct_keys(after),
        before.len() <= after.len(),
        0 <= at < after.len(),
        after[at] == (key, value),
        forall|j: int| 0 <= j < before.len() && j != at ==> after[j] == before[j],
        after.len() <= before.len() + 1,
        after.len() > before.len() ==> at == before.len(),
        at < before.len() ==> before[at].0 == key,
    ensures
        as_map(after) == as_map(before).insert(key, value),
{
    let expected = as_map(before).insert(key, value);
    assert forall|k: K| as_map(after).contains_key(k) == expected.contains_key(k) by {
        if k == key {
            assert(holds_at(after, k, at));
        } else {
            if as_map(after).contains_key(k) {
                let j = choose|j: int| holds_at(after, k, j);
                assert(holds_at(before, k, j));
            }
            if as_map(before).contains_key(k) {
                let j = choose|j: int| holds_at(before, k, j);
                assert(holds_at(after, k, j));
            }
        }
    }
    assert forall|k: K| as_map(after).contains_key(k) implies as_map(after)[k]
        == expected[k] by {
        let j = choose|j: int| holds_at(after, k, j);
        lemma_lookup(after, k, j);
        if k != key {
            assert(holds_at(before, k, j));
            lemma_lookup(before, k, j);
        }
    }
    assert(as_map(after) =~= expected);
}

} // verus!
