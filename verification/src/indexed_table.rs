//! A table whose entries are found through a hash index.
use vstd::prelude::*;

use crate::keyed_table::{map_of, unique_keys, KeyedTable, TableKey};

verus! {

/// The concurrent map of `dashmap`.
#[verifier::external_type_specification]
#[verifier::external_body]
#[verifier::reject_recursive_types(K)]
#[verifier::reject_recursive_types(V)]
#[verifier::reject_recursive_types(S)]
pub struct ExDashMap<K, V, S>(dashmap::DashMap<K, V, S>);

/// Which place each key has.
pub type Places = Map<Seq<u64>, u64>;

/// What a map of `dashmap` holds.
pub uninterp spec fn held_places(index: dashmap::DashMap<Vec<u64>, u64>) -> Places;

/// Makes an empty map with `dashmap::DashMap::new`. What is claimed of it: it holds nothing.
#[verifier::external_body]
pub(crate) fn new_index() -> (r: dashmap::DashMap<Vec<u64>, u64>)
    ensures
        held_places(r) == Places::empty(),
{
    dashmap::DashMap::new()
}

/// Puts an entry in with `dashmap::DashMap::insert`. What is claimed of it: the key has the value
/// afterwards, and no other key is affected.
#[verifier::external_body]
pub(crate) fn set_place(index: &mut dashmap::DashMap<Vec<u64>, u64>, key: Vec<u64>, place: u64)
    ensures
        held_places(*final(index)) == held_places(*old(index)).insert(key@, place),
{
    index.insert(key, place);
}

/// Asks for an entry with `dashmap::DashMap::get`. What is claimed of it: it gives what is held of
/// the key, and nothing where nothing is held.
#[verifier::external_body]
pub(crate) fn get_place(index: &dashmap::DashMap<Vec<u64>, u64>, key: &Vec<u64>) -> (r: Option<u64>)
    ensures
        r == (if held_places(*index).contains_key(key@) {
            Some(held_places(*index)[key@])
        } else {
            None
        }),
{
    index.get(key).map(|entry| *entry.value())
}

/// Takes an entry out with `dashmap::DashMap::remove`. What is claimed of it: the key is not held
/// afterwards, and no other key is affected.
#[verifier::external_body]
pub(crate) fn remove_place(index: &mut dashmap::DashMap<Vec<u64>, u64>, key: &Vec<u64>)
    ensures
        held_places(*final(index)) == held_places(*old(index)).remove(key@),
{
    index.remove(key);
}

/// A key that can be written as numbers.
pub trait IndexKey: TableKey {
    spec fn words(self) -> Seq<u64>;

    fn to_words(&self) -> (r: Vec<u64>)
        ensures
            r@ == self.words(),
    ;

    /// No two keys are written alike.
    proof fn lemma_words(a: Self, b: Self)
        ensures
            a.words() == b.words() ==> a == b,
    ;
}

impl IndexKey for u64 {
    open spec fn words(self) -> Seq<u64> {
        seq![self]
    }

    fn to_words(&self) -> (r: Vec<u64>) {
        let mut r: Vec<u64> = Vec::new();
        r.push(*self);
        assert(r@ =~= self.words());
        r
    }

    proof fn lemma_words(a: Self, b: Self) {
        if a.words() == b.words() {
            assert(a.words()[0] == a && b.words()[0] == b);
        }
    }
}

/// The index names the place of every key, and nothing else.
pub open spec fn names_places<K: IndexKey, V>(places: Places, s: Seq<(K, V)>) -> bool {
    &&& forall|i: int|
        0 <= i < s.len() ==> places.contains_key((#[trigger] s[i]).0.words())
            && places[s[i].0.words()] == i
    &&& forall|w: Seq<u64>| #[trigger]
        places.contains_key(w) ==> exists|i: int| 0 <= i < s.len() && (#[trigger] s[i]).0.words() == w
}

/// A table of values under distinct keys, which are found through an index.
pub struct IndexedTable<K, V> {
    table: KeyedTable<K, V>,
    index: dashmap::DashMap<Vec<u64>, u64>,
}

impl<K, V> View for IndexedTable<K, V> {
    type V = Map<K, V>;

    closed spec fn view(&self) -> Map<K, V> {
        self.table@
    }
}

impl<K: IndexKey, V> IndexedTable<K, V> {
    /// The pairs in the order in which they are stored.
    pub closed spec fn pairs(&self) -> Seq<(K, V)> {
        self.table.pairs()
    }

    /// No key is stored twice, and the index is right.
    pub closed spec fn wf(&self) -> bool {
        self.table.wf() && names_places(held_places(self.index), self.table.pairs())
    }

    /// The view is the map of the stored pairs.
    pub proof fn lemma_view(&self)
        requires
            self.wf(),
        ensures
            unique_keys(self.pairs()),
            self@ == map_of(self.pairs()),
            self@.dom().finite(),
            self@.len() == self.pairs().len(),
            forall|i: int|
                0 <= i < self.pairs().len() ==> self@.contains_key((#[trigger] self.pairs()[i]).0)
                    && self@[self.pairs()[i].0] == self.pairs()[i].1,
            forall|k: K|
                #[trigger] self@.contains_key(k) ==> exists|i: int|
                    0 <= i < self.pairs().len() && (#[trigger] self.pairs()[i]).0 == k,
    {
        self.table.lemma_view();
    }

    pub fn new() -> (r: Self)
        ensures
            r.wf(),
            r@ == Map::<K, V>::empty(),
            r.pairs() == Seq::<(K, V)>::empty(),
    {
        IndexedTable { table: KeyedTable::new(), index: new_index() }
    }

    pub fn len(&self) -> (r: usize)
        requires
            self.wf(),
        ensures
            r == self@.len(),
            r == self.pairs().len(),
    {
        self.table.len()
    }

    /// The key stored at place `i`.
    pub fn key_at(&self, i: usize) -> (r: K)
        requires
            i < self.pairs().len(),
        ensures
            r == self.pairs()[i as int].0,
    {
        self.table.key_at(i)
    }

    /// The value stored at place `i`.
    pub fn value_at(&self, i: usize) -> (r: &V)
        requires
            i < self.pairs().len(),
        ensures
            *r == self.pairs()[i as int].1,
    {
        self.table.value_at(i)
    }

    /// The value stored at place `i`, to be changed.
    pub fn value_mut(&mut self, i: usize) -> (r: &mut V)
        requires
            old(self).wf(),
            i < old(self).pairs().len(),
        ensures
            *r == old(self).pairs()[i as int].1,
            final(self).wf(),
            final(self).pairs() == old(self).pairs().update(
                i as int,
                (old(self).pairs()[i as int].0, *final(r)),
            ),
            final(self)@ == old(self)@.insert(old(self).pairs()[i as int].0, *final(r)),
    {
        proof {
            let s = self.table.pairs();
            let places = held_places(self.index);
            assert forall|value: V| #[trigger]
                names_places(places, s.update(i as int, (s[i as int].0, value))) by {
                let after = s.update(i as int, (s[i as int].0, value));
                assert(forall|j: int| 0 <= j < s.len() ==> (#[trigger] after[j]).0 == s[j].0);
                assert forall|w: Seq<u64>| #[trigger] places.contains_key(w) implies exists|j: int|
                    0 <= j < after.len() && (#[trigger] after[j]).0.words() == w by {
                    let j = choose|j: int| 0 <= j < s.len() && (#[trigger] s[j]).0.words() == w;
                    assert(after[j].0.words() == w);
                }
            }
        }
        self.table.value_mut(i)
    }

    /// The place of `key`.
    pub fn position(&self, key: &K) -> (r: Option<usize>)
        requires
            self.wf(),
        ensures
            match r {
                Some(i) => i < self.pairs().len() && self.pairs()[i as int].0 == *key
                    && self@.contains_key(*key) && self@[*key] == self.pairs()[i as int].1,
                None => !self@.contains_key(*key),
            },
    {
        proof {
            self.table.lemma_view();
        }
        let words = key.to_words();
        match get_place(&self.index, &words) {
            Some(place) => {
                proof {
                    let i = choose|i: int|
                        0 <= i < self.pairs().len() && (#[trigger] self.pairs()[i]).0.words()
                            == key.words();
                    K::lemma_words(self.pairs()[i].0, *key);
                    assert(self.pairs()[i].0 == *key && place == i);
                    assert(self.pairs().len() <= usize::MAX) by {
                        self.table.lemma_len();
                    }
                }
                Some(place as usize)
            },
            None => None,
        }
    }

    pub fn contains_key(&self, key: &K) -> (r: bool)
        requires
            self.wf(),
        ensures
            r == self@.contains_key(*key),
    {
        match self.position(key) {
            Some(_) => true,
            None => false,
        }
    }

    /// Stores `value` under `key`, in place of what was there.
    pub fn insert(&mut self, key: K, value: V)
        requires
            old(self).wf(),
        ensures
            final(self).wf(),
            final(self)@ == old(self)@.insert(key, value),
    {
        match self.position(&key) {
            Some(i) => {
                let slot = self.value_mut(i);
                *slot = value;
            },
            None => {
                self.push_new(key, value);
            },
        }
    }

    /// Stores a pair whose key is not in the table yet, at the last place.
    pub fn push_new(&mut self, key: K, value: V)
        requires
            old(self).wf(),
            !old(self)@.contains_key(key),
        ensures
            final(self).wf(),
            final(self).pairs() == old(self).pairs().push((key, value)),
            final(self)@ == old(self)@.insert(key, value),
    {
        let words = key.to_words();
        let place = self.table.len() as u64;
        proof {
            self.table.lemma_view();
            let s = self.table.pairs();
            let before = held_places(self.index);
            assert(!before.contains_key(key.words())) by {
                if before.contains_key(key.words()) {
                    let i = choose|i: int|
                        0 <= i < s.len() && (#[trigger] s[i]).0.words() == key.words();
                    K::lemma_words(s[i].0, key);
                    assert(self.table@.contains_key(s[i].0));
                }
            }
        }
        set_place(&mut self.index, words, place);
        self.table.push_new(key, value);
        proof {
            let s = old(self).table.pairs();
            let after = self.table.pairs();
            let places = held_places(self.index);
            assert forall|i: int| 0 <= i < after.len() implies places.contains_key(
                (#[trigger] after[i]).0.words(),
            ) && places[after[i].0.words()] == i by {
                if i < s.len() {
                    assert(after[i] == s[i]);
                    assert(held_places(old(self).index).contains_key(s[i].0.words()));
                }
            }
            assert forall|w: Seq<u64>| #[trigger] places.contains_key(w) implies exists|i: int|
                0 <= i < after.len() && (#[trigger] after[i]).0.words() == w by {
                if w == key.words() {
                    assert(after[s.len() as int].0.words() == w);
                } else {
                    assert(held_places(old(self).index).contains_key(w));
                    let i = choose|i: int| 0 <= i < s.len() && (#[trigger] s[i]).0.words() == w;
                    assert(after[i] == s[i]);
                }
            }
        }
    }

    /// Takes the pair at place `i` out; the later pairs move up by one.
    pub fn remove_at(&mut self, i: usize) -> (r: (K, V))
        requires
            old(self).wf(),
            i < old(self).pairs().len(),
        ensures
            final(self).wf(),
            r == old(self).pairs()[i as int],
            final(self).pairs() == old(self).pairs().remove(i as int),
            old(self)@.contains_key(r.0),
            old(self)@[r.0] == r.1,
            final(self)@ == old(self)@.remove(r.0),
    {
        let r = self.table.remove_at(i);
        let words = r.0.to_words();
        remove_place(&mut self.index, &words);
        let ghost s = old(self).table.pairs();
        let ghost after = self.table.pairs();
        proof {
            self.table.lemma_view();
            old(self).table.lemma_view();
            let places = held_places(self.index);
            assert forall|w: Seq<u64>| #[trigger] places.contains_key(w) implies exists|k: int|
                0 <= k < after.len() && (#[trigger] after[k]).0.words() == w by {
                let k = choose|k: int| 0 <= k < s.len() && (#[trigger] s[k]).0.words() == w;
                assert(k != i);
                let moved = if k < i {
                    k
                } else {
                    k - 1
                };
                assert(after[moved] == s[k]);
            }
            assert forall|k: int| 0 <= k < after.len() implies places.contains_key(
                (#[trigger] after[k]).0.words(),
            ) && (k < i ==> places[after[k].0.words()] == k) by {
                let came = if k < i {
                    k
                } else {
                    k + 1
                };
                assert(after[k] == s[came]);
                K::lemma_words(s[came].0, r.0);
                assert(s[came].0 != s[i as int].0);
                assert(held_places(old(self).index).contains_key(s[came].0.words()));
            }
        }
        let mut j: usize = i;
        let count = self.table.len();
        while j < count
            invariant
                i <= j <= count,
                self.table.wf(),
                self.table@ == old(self)@.remove(r.0),
                after == self.table.pairs(),
                count == after.len(),
                unique_keys(after),
                forall|k: int|
                    0 <= k < after.len() ==> held_places(self.index).contains_key(
                        (#[trigger] after[k]).0.words(),
                    ) && (k < j ==> held_places(self.index)[after[k].0.words()] == k),
                forall|w: Seq<u64>| #[trigger]
                    held_places(self.index).contains_key(w) ==> exists|k: int|
                        0 <= k < after.len() && (#[trigger] after[k]).0.words() == w,
            decreases count - j,
        {
            let key = self.table.key_at(j);
            let ghost before = held_places(self.index);
            set_place(&mut self.index, key.to_words(), j as u64);
            proof {
                let places = held_places(self.index);
                assert forall|k: int| 0 <= k < after.len() implies places.contains_key(
                    (#[trigger] after[k]).0.words(),
                ) && (k < j + 1 ==> places[after[k].0.words()] == k) by {
                    assert(before.contains_key(after[k].0.words()));
                    K::lemma_words(after[k].0, key);
                    if k != j {
                        assert(after[k].0 != after[j as int].0);
                    }
                }
                assert forall|w: Seq<u64>| #[trigger] places.contains_key(w) implies exists|k: int|
                    0 <= k < after.len() && (#[trigger] after[k]).0.words() == w by {
                    if w == key.words() {
                        assert(after[j as int].0.words() == w);
                    } else {
                        assert(before.contains_key(w));
                    }
                }
            }
            j += 1;
        }
        r
    }

    /// Takes the entry of `key` out, if there is one.
    pub fn remove(&mut self, key: &K) -> (r: Option<V>)
        requires
            old(self).wf(),
        ensures
            final(self).wf(),
            final(self)@ == old(self)@.remove(*key),
            r == (if old(self)@.contains_key(*key) {
                Some(old(self)@[*key])
            } else {
                None
            }),
    {
        match self.position(key) {
            Some(i) => {
                let pair = self.remove_at(i);
                Some(pair.1)
            },
            None => {
                assert(self@ =~= old(self)@.remove(*key));
                None
            },
        }
    }
}

impl<K: IndexKey, V: Copy> IndexedTable<K, V> {
    /// The pair stored at place `i`.
    pub fn at(&self, i: usize) -> (r: (K, V))
        requires
            i < self.pairs().len(),
        ensures
            r == self.pairs()[i as int],
    {
        self.table.at(i)
    }

    pub fn get(&self, key: &K) -> (r: Option<V>)
        requires
            self.wf(),
        ensures
            r == (if self@.contains_key(*key) {
                Some(self@[*key])
            } else {
                None
            }),
    {
        match self.position(key) {
            Some(i) => Some(self.table.at(i).1),
            None => None,
        }
    }
}

} // verus!
