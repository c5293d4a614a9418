//! A small association table: a vector of pairs in which no key occurs twice.
use vstd::prelude::*;

verus! {

/// A key that can be compared for equality in executable code.
pub trait TableKey: Sized + Copy {
    /// Tells whether the two keys are the same value.
    fn same(&self, other: &Self) -> (r: bool)
        ensures
            r == (*self == *other),
    ;
}

impl TableKey for u64 {
    fn same(&self, other: &Self) -> (r: bool) {
        *self == *other
    }
}

/// No key occurs at two places of `s`.
pub open spec fn unique_keys<K, V>(s: Seq<(K, V)>) -> bool {
    forall|i: int, j: int| 0 <= i < j < s.len() ==> (#[trigger] s[i]).0 != (#[trigger] s[j]).0
}

/// The map that a sequence of pairs stands for.
pub open spec fn map_of<K, V>(s: Seq<(K, V)>) -> Map<K, V>
    decreases s.len(),
{
    if s.len() == 0 {
        Map::empty()
    } else {
        map_of(s.drop_last()).insert(s.last().0, s.last().1)
    }
}

/// With unique keys every pair of the sequence is an entry of the map, and the map has
/// no other entry.
pub proof fn lemma_map_of<K, V>(s: Seq<(K, V)>)
    requires
        unique_keys(s),
    ensures
        forall|i: int|
            0 <= i < s.len() ==> map_of(s).contains_key((#[trigger] s[i]).0) && map_of(
                s,
            )[s[i].0] == s[i].1,
        forall|k: K|
            #[trigger] map_of(s).contains_key(k) ==> exists|i: int|
                0 <= i < s.len() && (#[trigger] s[i]).0 == k,
        map_of(s).dom().finite(),
        map_of(s).len() == s.len(),
    decreases s.len(),
{
    if s.len() > 0 {
        let rest = s.drop_last();
        assert(unique_keys(rest)) by {
            assert forall|i: int, j: int| 0 <= i < j < rest.len() implies (#[trigger] rest[i]).0 != (
            #[trigger] rest[j]).0 by {
                assert(rest[i] == s[i] && rest[j] == s[j]);
            }
        }
        lemma_map_of(rest);
        assert(!map_of(rest).contains_key(s.last().0)) by {
            if map_of(rest).contains_key(s.last().0) {
                let i = choose|i: int| 0 <= i < rest.len() && (#[trigger] rest[i]).0 == s.last().0;
                assert(s[i] == rest[i]);
                assert(s[i].0 != s[s.len() - 1].0);
            }
        }
        assert forall|i: int| 0 <= i < s.len() implies map_of(s).contains_key((#[trigger] s[i]).0)
            && map_of(s)[s[i].0] == s[i].1 by {
            if i < s.len() - 1 {
                assert(rest[i] == s[i]);
                assert(s[i].0 != s[s.len() - 1].0);
            }
        }
        assert forall|k: K| #[trigger] map_of(s).contains_key(k) implies exists|i: int|
            0 <= i < s.len() && (#[trigger] s[i]).0 == k by {
            if k == s.last().0 {
                assert(s[s.len() - 1].0 == k);
            } else {
                assert(map_of(rest).contains_key(k));
                let i = choose|i: int| 0 <= i < rest.len() && (#[trigger] rest[i]).0 == k;
                assert(s[i] == rest[i]);
            }
        }
    }
}

/// Changing the value at a place of a sequence with unique keys changes the value under its key.
pub proof fn lemma_map_of_update<K, V>(s: Seq<(K, V)>, i: int, value: V)
    requires
        unique_keys(s),
        0 <= i < s.len(),
    ensures
        unique_keys(s.update(i, (s[i].0, value))),
        map_of(s.update(i, (s[i].0, value))) == map_of(s).insert(s[i].0, value),
{
    let after = s.update(i, (s[i].0, value));
    assert forall|a: int, b: int| 0 <= a < b < after.len() implies (#[trigger] after[a]).0 != (
    #[trigger] after[b]).0 by {
        assert(s[a].0 != s[b].0);
        assert(after[a].0 == s[a].0);
        assert(after[b].0 == s[b].0);
    }
    lemma_map_of(s);
    lemma_map_of(after);
    let expected = map_of(s).insert(s[i].0, value);
    assert(map_of(after) =~= expected) by {
        assert forall|k: K| #[trigger] map_of(after).contains_key(k) implies expected.contains_key(
            k,
        ) by {
            let j = choose|j: int| 0 <= j < after.len() && (#[trigger] after[j]).0 == k;
            assert(s[j].0 == after[j].0);
        }
        assert forall|k: K| #[trigger] expected.contains_key(k) implies map_of(after).contains_key(k)
            && map_of(after)[k] == expected[k] by {
            if k == s[i].0 {
                assert(after[i].0 == k);
            } else {
                let j = choose|j: int| 0 <= j < s.len() && (#[trigger] s[j]).0 == k;
                assert(after[j] == s[j]);
            }
        }
    }
}

/// A table of values under distinct keys.
pub struct KeyedTable<K, V> {
    entries: Vec<(K, V)>,
}

impl<K, V> View for KeyedTable<K, V> {
    type V = Map<K, V>;

    closed spec fn view(&self) -> Map<K, V> {
        map_of(self.entries@)
    }
}

impl<K: TableKey, V> KeyedTable<K, V> {
    /// The pairs in the order in which they are stored.
    pub closed spec fn pairs(&self) -> Seq<(K, V)> {
        self.entries@
    }

    /// No key is stored twice.
    pub open spec fn wf(&self) -> bool {
        unique_keys(self.pairs())
    }

    /// The view is the map of the stored pairs.
    pub proof fn lemma_view(&self)
        requires
            self.wf(),
        ensures
            self@ == map_of(self.pairs()),
            self@.dom().finite(),
            self@.len() == self.pairs().len(),
            forall|i: int|
                0 <= i < self.pairs().len() ==> self@.contains_key((#[trigger] self.pairs()[i]).0)
                    && self@[self.pairs()[i].0] == self.pairs()[i].1,
            forall|k: K|
                #[trigger] self@.contains_key(k) ==> exists|i: int|
                    0 <= i < self.pairs().len() && (#[trigger] self.pairs()[i]).0 == k,
    {
        lemma_map_of(self.pairs());
    }

    /// The places of a table fit the machine.
    pub proof fn lemma_len(&self)
        ensures
            self.pairs().len() <= usize::MAX,
    {
        assert(self.entries.len() == self.entries@.len());
    }

    pub fn new() -> (r: Self)
        ensures
            r.wf(),
            r@ == Map::<K, V>::empty(),
            r.pairs() == Seq::<(K, V)>::empty(),
    {
        KeyedTable { entries: Vec::new() }
    }

    pub fn len(&self) -> (r: usize)
        requires
            self.wf(),
        ensures
            r == self@.len(),
            r == self.pairs().len(),
    {
        proof {
            self.lemma_view();
        }
        self.entries.len()
    }

    /// The key stored at place `i`.
    pub fn key_at(&self, i: usize) -> (r: K)
        requires
            i < self.pairs().len(),
        ensures
            r == self.pairs()[i as int].0,
    {
        self.entries[i].0
    }

    /// The value stored at place `i`.
    pub fn value_at(&self, i: usize) -> (r: &V)
        requires
            i < self.pairs().len(),
        ensures
            *r == self.pairs()[i as int].1,
    {
        &self.entries[i].1
    }

    /// The value stored at place `i`, to be changed.
    pub fn value_mut(&mut self, i: usize) -> (r: &mut V)
        requires
            old(self).wf(),
            i < old(self).pairs().len(),
        ensures
            *r == old(self).pairs()[i as int].1,
            final(self).wf(),
            final(self).pairs() == old(self).pairs().update(
                i as int,
                (old(self).pairs()[i as int].0, *final(r)),
            ),
            final(self)@ == old(self)@.insert(old(self).pairs()[i as int].0, *final(r)),
    {
        proof {
            assert forall|value: V| #[trigger]
                map_of(self.pairs().update(i as int, (self.pairs()[i as int].0, value))) == map_of(
                    self.pairs(),
                ).insert(self.pairs()[i as int].0, value) && unique_keys(
                    self.pairs().update(i as int, (self.pairs()[i as int].0, value)),
                ) by {
                lemma_map_of_update(self.pairs(), i as int, value);
            }
        }
        &mut self.entries[i].1
    }

    /// The place of `key`.
    pub fn position(&self, key: &K) -> (r: Option<usize>)
        requires
            self.wf(),
        ensures
            match r {
                Some(i) => i < self.pairs().len() && self.pairs()[i as int].0 == *key
                    && self@.contains_key(*key) && self@[*key] == self.pairs()[i as int].1,
                None => !self@.contains_key(*key),
            },
    {
        proof {
            self.lemma_view();
        }
        let mut i: usize = 0;
        while i < self.entries.len()
            invariant
                i <= self.entries.len(),
                self.wf(),
                self.pairs() == self.entries@,
                forall|j: int| 0 <= j < i ==> (#[trigger] self.pairs()[j]).0 != *key,
            decreases self.entries.len() - i,
        {
            if self.entries[i].0.same(key) {
                proof {
                    self.lemma_view();
                    assert(self.pairs()[i as int].0 == *key);
                }
                return Some(i);
            }
            i += 1;
        }
        proof {
            self.lemma_view();
        }
        None
    }

    pub fn contains_key(&self, key: &K) -> (r: bool)
        requires
            self.wf(),
        ensures
            r == self@.contains_key(*key),
    {
        match self.position(key) {
            Some(_) => true,
            None => false,
        }
    }

    /// Stores `value` under `key`, in place of what was there.
    pub fn insert(&mut self, key: K, value: V)
        requires
            old(self).wf(),
        ensures
            final(self).wf(),
            final(self)@ == old(self)@.insert(key, value),
    {
        match self.position(&key) {
            Some(i) => {
                self.entries.set(i, (key, value));
                proof {
                    lemma_map_of_update(old(self).pairs(), i as int, value);
                    assert(self.pairs() =~= old(self).pairs().update(i as int, (key, value)));
                }
            },
            None => {
                self.push_new(key, value);
            },
        }
    }

    /// Stores a pair whose key is not in the table yet, at the last place.
    pub fn push_new(&mut self, key: K, value: V)
        requires
            old(self).wf(),
            !old(self)@.contains_key(key),
        ensures
            final(self).wf(),
            final(self).pairs() == old(self).pairs().push((key, value)),
            final(self)@ == old(self)@.insert(key, value),
    {
        proof {
            old(self).lemma_view();
        }
        self.entries.push((key, value));
        proof {
            let before = old(self).pairs();
            let after = self.pairs();
            assert(after == before.push((key, value)));
            assert forall|a: int, b: int| 0 <= a < b < after.len() implies (#[trigger] after[a]).0
                != (#[trigger] after[b]).0 by {
                assert(after[a] == before[a]);
                assert(old(self)@.contains_key(before[a].0));
                if b < before.len() {
                    assert(after[b] == before[b]);
                }
            }
            assert(after.drop_last() =~= before);
        }
    }

    /// Takes the pair at place `i` out; the later pairs move up by one.
    pub fn remove_at(&mut self, i: usize) -> (r: (K, V))
        requires
            old(self).wf(),
            i < old(self).pairs().len(),
        ensures
            final(self).wf(),
            r == old(self).pairs()[i as int],
            final(self).pairs() == old(self).pairs().remove(i as int),
            old(self)@.contains_key(r.0),
            old(self)@[r.0] == r.1,
            final(self)@ == old(self)@.remove(r.0),
    {
        let r = self.entries.remove(i);
        proof {
            let before = old(self).pairs();
            let after = self.pairs();
            assert(after == before.remove(i as int));
            assert forall|a: int, b: int| 0 <= a < b < after.len() implies (#[trigger] after[a]).0
                != (#[trigger] after[b]).0 by {
                let a0 = if a < i { a } else { a + 1 };
                let b0 = if b < i { b } else { b + 1 };
                assert(after[a] == before[a0]);
                assert(after[b] == before[b0]);
            }
            self.lemma_view();
            old(self).lemma_view();
            assert(self@ =~= old(self)@.remove(r.0)) by {
                assert forall|k: K| #[trigger] self@.contains_key(k) implies old(self)@.remove(
                    r.0,
                ).contains_key(k) by {
                    let j = choose|j: int| 0 <= j < after.len() && (#[trigger] after[j]).0 == k;
                    let j0 = if j < i { j } else { j + 1 };
                    assert(after[j] == before[j0]);
                    assert(before[j0].0 != before[i as int].0);
                }
                assert forall|k: K| #[trigger] old(self)@.remove(r.0).contains_key(k) implies self@.contains_key(
                k) && self@[k] == old(self)@.remove(r.0)[k] by {
                    let j = choose|j: int| 0 <= j < before.len() && (#[trigger] before[j]).0 == k;
                    let j1 = if j < i { j } else { j - 1 };
                    assert(after[j1] == before[j]);
                }
            }
        }
        r
    }

    /// Takes the entry of `key` out, if there is one.
    pub fn remove(&mut self, key: &K) -> (r: Option<V>)
        requires
            old(self).wf(),
        ensures
            final(self).wf(),
            final(self)@ == old(self)@.remove(*key),
            r == (if old(self)@.contains_key(*key) {
                Some(old(self)@[*key])
            } else {
                None
            }),
    {
        match self.position(key) {
            Some(i) => {
                let pair = self.remove_at(i);
                Some(pair.1)
            },
            None => {
                assert(self@ =~= old(self)@.remove(*key));
                None
            },
        }
    }
}

impl<K: TableKey, V: Copy> KeyedTable<K, V> {
    /// The pair stored at place `i`.
    pub fn at(&self, i: usize) -> (r: (K, V))
        requires
            i < self.pairs().len(),
        ensures
            r == self.pairs()[i as int],
    {
        self.entries[i]
    }

    pub fn get(&self, key: &K) -> (r: Option<V>)
        requires
            self.wf(),
        ensures
            r == (if self@.contains_key(*key) {
                Some(self@[*key])
            } else {
                None
            }),
    {
        match self.position(key) {
            Some(i) => Some(self.entries[i].1),
            None => None,
        }
    }
}

} // verus!
