//! A finite map whose keys are compared by what they stand for.

use vstd::prelude::*;

verus! {

/// A key that can be compared with another by its view.
pub trait TableKey: View + Sized {
    /// Whether the two keys stand for the same value.
    fn same(&self, other: &Self) -> (r: bool)
        ensures
            r == (self@ == other@),
    ;
}

/// A map from `K` to `V`, kept as a list in which no key occurs twice.
#[derive(Debug)]
pub struct Table<K: TableKey, V> {
    entries: Vec<(K, V)>,
}

impl<K: TableKey, V> Table<K, V> {
    /// No key occurs twice.
    #[verifier::type_invariant]
    spec fn distinct(self) -> bool {
        forall|i: int, j: int|
            0 <= i < j < self.entries@.len() ==> (#[trigger] self.entries@[i]).0@ != (
            #[trigger] self.entries@[j]).0@
    }

    spec fn holds(self, i: int, k: K::V) -> bool {
        0 <= i < self.entries@.len() && self.entries@[i].0@ == k
    }

    /// What the table maps each key to.
    pub closed spec fn map(self) -> Map<K::V, V> {
        Map::new(
            |k: K::V| exists|i: int| self.holds(i, k),
            |k: K::V| self.entries@[choose|i: int| self.holds(i, k)].1,
        )
    }

    /// A table holds finitely many keys.
    pub proof fn lemma_finite(self)
        ensures
            self.map().dom().finite(),
    {
        let keys: Seq<K::V> = self.entries@.map_values(|e: (K, V)| e.0@);
        assert forall|k: K::V| #[trigger]
            self.map().dom().contains(k) implies keys.to_set().contains(k) by {
            let i = choose|i: int| self.holds(i, k);
            assert(keys[i] == k);
        }
        vstd::seq_lib::seq_to_set_is_finite(keys);
        vstd::set_lib::lemma_len_subset(self.map().dom(), keys.to_set());
    }

    /// A table without entries.
    pub fn new() -> (r: Self)
        ensures
            r.map() == Map::<K::V, V>::empty(),
    {
        let r = Table { entries: Vec::new() };
        assert forall|k: K::V| !r.map().dom().contains(k) by {
            assert(forall|i: int| !r.holds(i, k));
        }
        assert(r.map() =~= Map::<K::V, V>::empty());
        r
    }

    /// The value of `key`, if it has one.
    pub fn get(&self, key: &K) -> (r: Option<&V>)
        ensures
            r is Some <==> self.map().contains_key(key@),
            r matches Some(v) ==> *v == self.map()[key@],
    {
        proof {
            use_type_invariant(self);
        }
        let mut i: usize = 0;
        while i < self.entries.len()
            invariant
                i <= self.entries@.len(),
                self.distinct(),
                forall|j: int| 0 <= j < i ==> (#[trigger] self.entries@[j]).0@ != key@,
            decreases self.entries@.len() - i,
        {
            if self.entries[i].0.same(key) {
                assert(self.holds(i as int, key@));
                assert(self.map().contains_key(key@));
                return Some(&self.entries[i].1);
            }
            i += 1;
        }
        assert(forall|j: int| !self.holds(j, key@));
        None
    }

    /// Maps `key` to `value`, in place of what it was mapped to before.
    pub fn insert(&mut self, key: K, value: V)
        ensures
            final(self).map() == old(self).map().insert(key@, value),
    {
        proof {
            use_type_invariant(&*self);
        }
        let ghost before = *self;
        let mut entries: Vec<(K, V)> = Vec::new();
        std::mem::swap(&mut entries, &mut self.entries);
        let mut i: usize = 0;
        while i < entries.len() && !entries[i].0.same(&key)
            invariant
                i <= entries@.len(),
                entries@ == before.entries@,
                forall|j: int| 0 <= j < i ==> (#[trigger] entries@[j]).0@ != key@,
            decreases entries@.len() - i,
        {
            i += 1;
        }
        if i < entries.len() {
            entries.set(i, (key, value));
        } else {
            entries.push((key, value));
        }
        let ghost after = Table { entries };
        proof {
            assert(after.holds(i as int, key@));
            assert(after.distinct());
            assert forall|k: K::V| after.map().contains_key(k) == before.map().insert(
                key@,
                value,
            ).contains_key(k) by {
                if k != key@ {
                    if after.map().contains_key(k) {
                        let j = choose|j: int| after.holds(j, k);
                        assert(before.holds(j, k));
                    }
                    if before.map().contains_key(k) {
                        let j = choose|j: int| before.holds(j, k);
                        assert(after.holds(j, k));
                    }
                }
            }
            assert forall|k: K::V| after.map().contains_key(k) implies after.map()[k]
                == before.map().insert(key@, value)[k] by {
                let j = choose|j: int| after.holds(j, k);
                if k != key@ {
                    assert(before.holds(j, k));
                    let h = choose|h: int| before.holds(h, k);
                    assert(h == j);
                }
            }
            assert(after.map() =~= before.map().insert(key@, value));
        }
        self.entries = entries;
    }
}

} // verus!
