//! A small dictionary that finds keys by linear search, stored as two
//! compact sequences, one of keys and one of values.

use vstd::prelude::*;

use crate::compact::{Compact, Region};
use crate::compact_vec::{lemma_plain_content, CompactVec};

verus! {

/// No key occurs in two entries.
pub open spec fn distinct_keys<K, V>(entries: Seq<(K, V)>) -> bool {
    forall|i: int, j: int|
        0 <= i < j < entries.len() ==> (#[trigger] entries[i]).0 != (#[trigger] entries[j]).0
}

/// Some entry has the key `key`.
pub open spec fn has_key<K, V>(entries: Seq<(K, V)>, key: K) -> bool {
    exists|i: int| 0 <= i < entries.len() && (#[trigger] entries[i]).0 == key
}

/// The place of the entry with key `key`, if there is one.
pub open spec fn position_of<K, V>(entries: Seq<(K, V)>, key: K) -> Option<int> {
    if has_key(entries, key) {
        Some(choose|i: int| 0 <= i < entries.len() && (#[trigger] entries[i]).0 == key)
    } else {
        None
    }
}

/// The value stored under `key`, if there is one.
pub open spec fn value_of<K, V>(entries: Seq<(K, V)>, key: K) -> Option<V> {
    match position_of(entries, key) {
        Some(i) => Some(entries[i].1),
        None => None,
    }
}

/// `entries` with the entries at `i` and `j` exchanged.
pub open spec fn swapped<A>(entries: Seq<A>, i: int, j: int) -> Seq<A> {
    entries.update(i, entries[j]).update(j, entries[i])
}

/// `entries` after `value` was stored under `key`: an entry with that key
/// keeps its place and gets the new value, else a new entry goes to the end.
pub open spec fn with_entry<K, V>(entries: Seq<(K, V)>, key: K, value: V) -> Seq<(K, V)> {
    match position_of(entries, key) {
        Some(i) => entries.update(i, (key, value)),
        None => entries.push((key, value)),
    }
}

/// `entries` without the entry for `key`; the others keep their order.
pub open spec fn without_key<K, V>(entries: Seq<(K, V)>, key: K) -> Seq<(K, V)> {
    match position_of(entries, key) {
        Some(i) => entries.remove(i),
        None => entries,
    }
}

/// `entries` after the entry for `key` changed places with the first entry.
pub open spec fn promoted_to_front<K, V>(entries: Seq<(K, V)>, key: K) -> Seq<(K, V)> {
    match position_of(entries, key) {
        Some(i) => swapped(entries, 0, i),
        None => entries,
    }
}

/// `entries` after the entry for `key` changed places with the entry before
/// it; an entry that is already first stays where it is.
pub open spec fn promoted_one_left<K, V>(entries: Seq<(K, V)>, key: K) -> Seq<(K, V)> {
    match position_of(entries, key) {
        Some(i) => if i > 0 {
            swapped(entries, i - 1, i)
        } else {
            entries
        },
        None => entries,
    }
}

/// Among distinct keys, the entry that holds `key` is at the place that
/// `position_of` names.
pub proof fn lemma_position_of<K, V>(entries: Seq<(K, V)>, key: K, i: int)
    requires
        distinct_keys(entries),
        0 <= i < entries.len(),
        entries[i].0 == key,
    ensures
        position_of(entries, key) == Some(i),
        value_of(entries, key) == Some(entries[i].1),
{
}

/// A key that no entry holds has no place.
pub proof fn lemma_position_of_absent<K, V>(entries: Seq<(K, V)>, key: K)
    requires
        forall|i: int| 0 <= i < entries.len() ==> (#[trigger] entries[i]).0 != key,
    ensures
        position_of(entries, key) is None,
        value_of(entries, key) is None,
{
}

/// Storing a value under a key keeps the keys distinct, and a lookup of that
/// key directly afterwards finds that value.
pub proof fn lemma_insert_then_get<K, V>(entries: Seq<(K, V)>, key: K, value: V)
    requires
        distinct_keys(entries),
    ensures
        distinct_keys(with_entry(entries, key, value)),
        value_of(with_entry(entries, key, value), key) == Some(value),
{
    let after = with_entry(entries, key, value);
    match position_of(entries, key) {
        Some(i) => {
            assert forall|a: int, b: int| 0 <= a < b < after.len() implies (#[trigger] after[a]).0
                != (#[trigger] after[b]).0 by {
                assert(after[a].0 == entries[a].0);
                assert(after[b].0 == entries[b].0);
            }
            lemma_position_of(after, key, i);
        },
        None => {
            assert forall|a: int, b: int| 0 <= a < b < after.len() implies (#[trigger] after[a]).0
                != (#[trigger] after[b]).0 by {
                assert(after[a] == entries[a]);
                if b < entries.len() {
                    assert(after[b] == entries[b]);
                }
            }
            lemma_position_of(after, key, entries.len() as int);
        },
    }
}

/// Removing a key keeps the keys distinct, and a lookup of that key directly
/// afterwards finds nothing.
pub proof fn lemma_remove_then_get<K, V>(entries: Seq<(K, V)>, key: K)
    requires
        distinct_keys(entries),
    ensures
        distinct_keys(without_key(entries, key)),
        value_of(without_key(entries, key), key) is None,
{
    let after = without_key(entries, key);
    match position_of(entries, key) {
        Some(i) => {
            assert forall|a: int, b: int| 0 <= a < b < after.len() implies (#[trigger] after[a]).0
                != (#[trigger] after[b]).0 by {
                let from_a = if a < i {
                    a
                } else {
                    a + 1
                };
                let from_b = if b < i {
                    b
                } else {
                    b + 1
                };
                assert(after[a] == entries[from_a]);
                assert(after[b] == entries[from_b]);
            }
            assert forall|a: int| 0 <= a < after.len() implies (#[trigger] after[a]).0 != key by {
                let from_a = if a < i {
                    a
                } else {
                    a + 1
                };
                assert(after[a] == entries[from_a]);
                if from_a < i {
                    assert(entries[from_a].0 != entries[i].0);
                } else {
                    assert(entries[i].0 != entries[from_a].0);
                }
            }
            lemma_position_of_absent(after, key);
        },
        None => {},
    }
}

/// A most-recently-used lookup of a stored key brings its entry to the
/// front and leaves the entries distinct; a second such lookup of the same
/// key changes nothing.
pub proof fn lemma_promoted_to_front<K, V>(entries: Seq<(K, V)>, key: K)
    requires
        distinct_keys(entries),
        has_key(entries, key),
    ensures
        distinct_keys(promoted_to_front(entries, key)),
        position_of(promoted_to_front(entries, key), key) == Some(0int),
        promoted_to_front(entries, key)[0] == entries[position_of(entries, key).unwrap()],
        promoted_to_front(promoted_to_front(entries, key), key) == promoted_to_front(entries, key),
{
    let i = position_of(entries, key).unwrap();
    let after = promoted_to_front(entries, key);
    lemma_swapped_distinct(entries, 0, i);
    lemma_position_of(after, key, 0);
    assert(swapped(after, 0, 0) =~= after);
}

/// A most-frequently-used lookup leaves an entry at the front where it is
/// and moves any other one exactly one place to the front, exchanging it
/// with its neighbour; the entries stay distinct.
pub proof fn lemma_promoted_one_left<K, V>(entries: Seq<(K, V)>, key: K)
    requires
        distinct_keys(entries),
        has_key(entries, key),
    ensures
        distinct_keys(promoted_one_left(entries, key)),
        position_of(entries, key) == Some(0int) ==> promoted_one_left(entries, key) == entries,
        position_of(entries, key).unwrap() > 0 ==> {
            let i = position_of(entries, key).unwrap();
            let after = promoted_one_left(entries, key);
            &&& position_of(after, key) == Some(i - 1)
            &&& after[i - 1] == entries[i]
            &&& after[i] == entries[i - 1]
            &&& forall|j: int|
                0 <= j < entries.len() && j != i && j != i - 1 ==> #[trigger] after[j]
                    == entries[j]
        },
{
    let i = position_of(entries, key).unwrap();
    let after = promoted_one_left(entries, key);
    if i > 0 {
        lemma_swapped_distinct(entries, i - 1, i);
        lemma_position_of(after, key, i - 1);
    }
}

/// A dictionary of entries with pairwise different keys, searched front to
/// back.
///
/// Entries stay in the order in which their keys were first inserted, except
/// where a promoting lookup moves one towards the front.
pub struct CompactDict<K, V> {
    keys: CompactVec<K>,
    values: CompactVec<V>,
}

impl<K, V> CompactDict<K, V> {
    /// The sequence that holds the keys.
    pub closed spec fn spec_key_store(&self) -> CompactVec<K> {
        self.keys
    }

    /// The sequence that holds the values.
    pub closed spec fn spec_value_store(&self) -> CompactVec<V> {
        self.values
    }

    /// The keys, in storage order.
    pub open spec fn spec_keys(&self) -> Seq<K> {
        self.spec_key_store()@
    }

    /// The values, each at the place of its key.
    pub open spec fn spec_values(&self) -> Seq<V> {
        self.spec_value_store()@
    }

    /// Both sequences have the capacity and storage of those of `other`.
    pub open spec fn spec_same_storage(&self, other: &Self) -> bool {
        &&& self.spec_key_store().spec_same_storage(&other.spec_key_store())
        &&& self.spec_value_store().spec_same_storage(&other.spec_value_store())
    }
}

impl<K, V> View for CompactDict<K, V> {
    type V = Seq<(K, V)>;

    /// The entries, in storage order.
    open spec fn view(&self) -> Seq<(K, V)> {
        Seq::new(self.spec_keys().len(), |i: int| (self.spec_keys()[i], self.spec_values()[i]))
    }
}

impl<K: Copy + PartialEq, V: Compact> CompactDict<K, V> {
    /// Create new, empty dictionary
    pub fn new() -> (r: Self)
        ensures
            r.wf(),
            r@ == Seq::<(K, V)>::empty(),
            r.spec_is_still_compact(),
            r.spec_key_store().spec_capacity() == 0,
            r.spec_value_store().spec_capacity() == 0,
    {
        let r = CompactDict { keys: CompactVec::new(), values: CompactVec::new() };
        assert(r@ =~= Seq::<(K, V)>::empty());
        r
    }

    /// Amount of entries in the dictionary
    pub fn len(&self) -> (r: usize)
        ensures
            r == self@.len(),
    {
        self.keys.len()
    }

    /// Is the dictionary empty?
    pub fn is_empty(&self) -> (r: bool)
        ensures
            r == (self@.len() == 0),
    {
        self.keys.is_empty()
    }

    /// The place of `query` among the keys.
    fn find(&self, query: K) -> (r: Option<usize>)
        requires
            self.wf(),
            vstd::laws_eq::obeys_concrete_eq::<K>(),
        ensures
            match r {
                Some(i) => position_of(self@, query) == Some(i as int) && i < self@.len()
                    && self@[i as int].0 == query,
                None => position_of(self@, query) is None,
            },
    {
        let mut i: usize = 0;
        while i < self.keys.len()
            invariant
                self.wf(),
                vstd::laws_eq::obeys_concrete_eq::<K>(),
                i <= self@.len(),
                forall|j: int| 0 <= j < i ==> (#[trigger] self@[j]).0 != query,
            decreases self@.len() - i,
        {
            let found = *self.keys.get(i) == query;
            proof {
                reveal(vstd::laws_eq::obeys_concrete_eq);
            }
            if found {
                proof {
                    lemma_position_of(self@, query, i as int);
                }
                return Some(i);
            }
            i += 1;
        }
        proof {
            lemma_position_of_absent(self@, query);
        }
        None
    }

    /// Look up the value for key `query`, if it exists
    pub fn get(&self, query: K) -> (r: Option<&V>)
        requires
            self.wf(),
            vstd::laws_eq::obeys_concrete_eq::<K>(),
        ensures
            r == match value_of(self@, query) {
                Some(value) => Some(&value),
                None => None,
            },
    {
        match self.find(query) {
            Some(i) => Some(self.values.get(i)),
            None => None,
        }
    }

    /// Lookup up the value for key `query`, if it exists, but also swap the entry
    /// to the beginning of the key/value vectors, so a repeated lookup for that item will be faster
    pub fn get_mru(&mut self, query: K) -> (r: Option<&V>)
        requires
            old(self).wf(),
            vstd::laws_eq::obeys_concrete_eq::<K>(),
        ensures
            final(self).wf(),
            final(self)@ == promoted_to_front(old(self)@, query),
            final(self).spec_same_storage(old(self)),
            r == match value_of(old(self)@, query) {
                Some(value) => Some(&value),
                None => None,
            },
    {
        match self.find(query) {
            Some(i) => {
                self.keys.swap(0, i);
                self.values.swap(0, i);
                proof {
                    assert(self@ =~= swapped(old(self)@, 0, i as int));
                    lemma_swapped_distinct(old(self)@, 0, i as int);
                }
                Some(self.values.get(0))
            },
            None => None,
        }
    }

    /// Lookup up the value for key `query`, if it exists, but also swap the entry
    /// one index towards the beginning of the key/value vectors, so frequently repeated lookups
    /// for that item will be faster
    pub fn get_mfu(&mut self, query: K) -> (r: Option<&V>)
        requires
            old(self).wf(),
            vstd::laws_eq::obeys_concrete_eq::<K>(),
        ensures
            final(self).wf(),
            final(self)@ == promoted_one_left(old(self)@, query),
            final(self).spec_same_storage(old(self)),
            r == match value_of(old(self)@, query) {
                Some(value) => Some(&value),
                None => None,
            },
    {
        match self.find(query) {
            Some(i) => {
                if i > 0 {
                    self.keys.swap(i - 1, i);
                    self.values.swap(i - 1, i);
                    proof {
                        assert(self@ =~= swapped(old(self)@, i - 1, i as int));
                        lemma_swapped_distinct(old(self)@, i - 1, i as int);
                    }
                    Some(self.values.get(i - 1))
                } else {
                    Some(self.values.get(0))
                }
            },
            None => None,
        }
    }

    /// Does the dictionary contain a value for `query`?
    pub fn contains_key(&self, query: K) -> (r: bool)
        requires
            self.wf(),
            vstd::laws_eq::obeys_concrete_eq::<K>(),
        ensures
            r == has_key(self@, query),
    {
        self.find(query).is_some()
    }

    /// Insert new value at key `query` and return the previous value at that key, if any existed
    pub fn insert(&mut self, query: K, new_value: V) -> (r: Option<V>)
        requires
            old(self).wf(),
            new_value.wf(),
            vstd::laws_eq::obeys_concrete_eq::<K>(),
            old(self)@.len() < usize::MAX,
        ensures
            final(self).wf(),
            final(self)@ == with_entry(old(self)@, query, new_value),
            r == value_of(old(self)@, query),
            has_key(old(self)@, query) ==> final(self).spec_same_storage(old(self)),
            !has_key(old(self)@, query) ==> {
                &&& final(self).spec_key_store().spec_grown_from(&old(self).spec_key_store())
                &&& final(self).spec_value_store().spec_grown_from(&old(self).spec_value_store())
            },
    {
        match self.find(query) {
            Some(i) => {
                let old_val = self.values.set(i, new_value);
                proof {
                    assert(self@ =~= old(self)@.update(i as int, (query, new_value)));
                }
                Some(old_val)
            },
            None => {
                self.keys.push(query);
                self.values.push(new_value);
                proof {
                    assert(self@ =~= old(self)@.push((query, new_value)));
                }
                None
            },
        }
    }

    /// Remove value at key `query` and return it, if it existed
    pub fn remove(&mut self, query: K) -> (r: Option<V>)
        requires
            old(self).wf(),
            vstd::laws_eq::obeys_concrete_eq::<K>(),
        ensures
            final(self).wf(),
            final(self)@ == without_key(old(self)@, query),
            final(self).spec_same_storage(old(self)),
            r == value_of(old(self)@, query),
            r matches Some(value) ==> value.wf(),
    {
        match self.find(query) {
            Some(i) => {
                self.keys.remove(i);
                let old_val = self.values.remove(i);
                proof {
                    assert(self@ =~= old(self)@.remove(i as int));
                }
                Some(old_val)
            },
            None => None,
        }
    }

    /// All keys in the dictionary, in storage order
    pub fn keys(&self) -> (r: &[K])
        ensures
            r@ == self.spec_keys(),
    {
        self.keys.as_slice()
    }

    /// All values in the dictionary, each at the place of its key
    pub fn values(&self) -> (r: &[V])
        ensures
            r@ == self.spec_values(),
    {
        self.values.as_slice()
    }

    /// All values in the dictionary, for writing. Keys, capacities and
    /// storage stay as they are. What is written has to be well-formed.
    pub fn values_mut(&mut self) -> (r: &mut [V])
        requires
            old(self).wf(),
        ensures
            r@ == old(self).spec_values(),
            final(self).spec_values() == final(r)@,
            final(self).spec_key_store() == old(self).spec_key_store(),
            final(self).spec_same_storage(old(self)),
    {
        self.values.as_mut_slice()
    }

    /// All key-value pairs in the dictionary, in storage order
    pub fn pairs(&self) -> (r: Vec<(&K, &V)>)
        requires
            self.wf(),
        ensures
            r@.len() == self@.len(),
            forall|i: int|
                0 <= i < self@.len() ==> *(#[trigger] r@[i]).0 == self@[i].0 && *r@[i].1
                    == self@[i].1,
    {
        let mut r: Vec<(&K, &V)> = Vec::new();
        let mut i: usize = 0;
        while i < self.keys.len()
            invariant
                self.wf(),
                i <= self@.len(),
                r@.len() == i,
                forall|j: int|
                    0 <= j < i ==> *(#[trigger] r@[j]).0 == self@[j].0 && *r@[j].1 == self@[j].1,
            decreases self@.len() - i,
        {
            r.push((self.keys.get(i), self.values.get(i)));
            i += 1;
        }
        r
    }
}

/// `entries` after each pair of `pairs` was stored in turn, first to last.
pub open spec fn with_entries<K, V>(entries: Seq<(K, V)>, pairs: Seq<(K, V)>) -> Seq<(K, V)>
    decreases pairs.len(),
{
    if pairs.len() == 0 {
        entries
    } else {
        with_entry(with_entries(entries, pairs.drop_last()), pairs.last().0, pairs.last().1)
    }
}

impl<K: Copy + PartialEq, V: Compact> CompactDict<K, V> {
    /// Construct a compact dictionary from key-value pairs, stored first to
    /// last; of two pairs with the same key the later one gives the value
    pub fn from_iter(pairs: Vec<(K, V)>) -> (r: Self)
        requires
            vstd::laws_eq::obeys_concrete_eq::<K>(),
            forall|i: int| 0 <= i < pairs@.len() ==> (#[trigger] pairs@[i]).1.wf(),
        ensures
            r.wf(),
            r@ == with_entries(Seq::<(K, V)>::empty(), pairs@),
    {
        let mut dict = Self::new();
        proof {
            assert(pairs@.len() == pairs.len());
        }
        dict.extend(pairs);
        dict
    }

    /// Extend a compact dictionary by key-value pairs, stored first to last
    pub fn extend(&mut self, pairs: Vec<(K, V)>)
        requires
            old(self).wf(),
            vstd::laws_eq::obeys_concrete_eq::<K>(),
            forall|i: int| 0 <= i < pairs@.len() ==> (#[trigger] pairs@[i]).1.wf(),
            old(self)@.len() + pairs@.len() <= usize::MAX,
        ensures
            final(self).wf(),
            final(self)@ == with_entries(old(self)@, pairs@),
    {
        let ghost all = pairs@;
        proof {
            assert(all.take(0) =~= Seq::<(K, V)>::empty());
        }
        for pair in it: pairs
            invariant
                self.wf(),
                vstd::laws_eq::obeys_concrete_eq::<K>(),
                it.seq() == all,
                forall|i: int| 0 <= i < all.len() ==> (#[trigger] all[i]).1.wf(),
                old(self)@.len() + all.len() <= usize::MAX,
                self@.len() <= old(self)@.len() + it.index(),
                self@ == with_entries(old(self)@, all.take(it.index() as int)),
        {
            let ghost done = it.index() as int;
            proof {
                assert(all.take(done + 1).drop_last() =~= all.take(done));
            }
            let (key, value) = pair;
            self.insert(key, value);
        }
        proof {
            assert(all.take(all.len() as int) =~= all);
        }
    }
}

impl<K: Copy + PartialEq, V: Compact> Default for CompactDict<K, V> {
    fn default() -> (r: Self)
        ensures
            r.wf(),
            r@ == Seq::<(K, V)>::empty(),
    {
        CompactDict::new()
    }
}

impl<K: Copy + PartialEq, I: Compact> CompactDict<K, CompactVec<I>> {
    /// Push a value onto the `CompactVec` at the key `query`; a key that is
    /// not stored yet gets a new one that holds only `item`
    pub fn push_at(&mut self, query: K, item: I)
        requires
            old(self).wf(),
            item.wf(),
            vstd::laws_eq::obeys_concrete_eq::<K>(),
            old(self)@.len() < usize::MAX,
            value_of(old(self)@, query) matches Some(group) ==> group@.len() < usize::MAX,
        ensures
            final(self).wf(),
            match position_of(old(self)@, query) {
                Some(i) => {
                    &&& final(self)@.len() == old(self)@.len()
                    &&& forall|j: int|
                        0 <= j < old(self)@.len() && j != i ==> final(self)@[j] == old(self)@[j]
                    &&& final(self)@[i].0 == query
                    &&& final(self)@[i].1@ == old(self)@[i].1@.push(item)
                    &&& final(self)@[i].1.spec_grown_from(&old(self)@[i].1)
                    &&& final(self).spec_same_storage(old(self))
                },
                None => {
                    &&& final(self)@.len() == old(self)@.len() + 1
                    &&& final(self)@.drop_last() == old(self)@
                    &&& final(self)@.last().0 == query
                    &&& final(self)@.last().1@ == seq![item]
                    &&& final(self)@.last().1.spec_capacity() == 1
                    &&& !final(self)@.last().1.spec_is_embedded()
                    &&& final(self).spec_key_store().spec_grown_from(&old(self).spec_key_store())
                    &&& final(self).spec_value_store().spec_grown_from(
                        &old(self).spec_value_store(),
                    )
                },
            },
    {
        match self.find(query) {
            Some(i) => {
                self.values.get_mut(i).push(item);
                proof {
                    assert forall|a: int, b: int| 0 <= a < b < self@.len() implies (
                    #[trigger] self@[a]).0 != (#[trigger] self@[b]).0 by {
                        assert(self@[a].0 == old(self)@[a].0);
                        assert(self@[b].0 == old(self)@[b].0);
                    }
                }
            },
            None => {
                self.keys.push(query);
                let mut vec = CompactVec::new();
                vec.push(item);
                self.values.push(vec);
                proof {
                    assert(self@.drop_last() =~= old(self)@);
                    assert forall|a: int, b: int| 0 <= a < b < self@.len() implies (
                    #[trigger] self@[a]).0 != (#[trigger] self@[b]).0 by {
                        assert(self@[a] == old(self)@[a]);
                        if b < old(self)@.len() {
                            assert(self@[b] == old(self)@[b]);
                        }
                    }
                }
            },
        }
    }

    /// The elements of the `CompactVec` at the key `query`, none if the key
    /// is not stored
    pub fn get_iter(&self, query: K) -> (r: &[I])
        requires
            self.wf(),
            vstd::laws_eq::obeys_concrete_eq::<K>(),
        ensures
            r@ == match value_of(self@, query) {
                Some(group) => group@,
                None => Seq::<I>::empty(),
            },
    {
        match self.get(query) {
            Some(group) => group.as_slice(),
            None => &[],
        }
    }

    /// Remove the `CompactVec` at the key `query` and hand out its elements (if it existed)
    pub fn remove_iter(&mut self, query: K) -> (r: Vec<I>)
        requires
            old(self).wf(),
            vstd::laws_eq::obeys_concrete_eq::<K>(),
        ensures
            final(self).wf(),
            final(self)@ == without_key(old(self)@, query),
            final(self).spec_same_storage(old(self)),
            r@ == match value_of(old(self)@, query) {
                Some(group) => group@,
                None => Seq::<I>::empty(),
            },
    {
        match self.remove(query) {
            Some(group) => group.into_vec(),
            None => Vec::new(),
        }
    }
}

/// Exchanging two entries keeps the keys distinct.
pub proof fn lemma_swapped_distinct<K, V>(entries: Seq<(K, V)>, i: int, j: int)
    requires
        distinct_keys(entries),
        0 <= i < entries.len(),
        0 <= j < entries.len(),
    ensures
        distinct_keys(swapped(entries, i, j)),
{
    let after = swapped(entries, i, j);
    assert forall|a: int, b: int| 0 <= a < b < after.len() implies (#[trigger] after[a]).0 != (
    #[trigger] after[b]).0 by {
        let from_a = if a == i {
            j
        } else if a == j {
            i
        } else {
            a
        };
        let from_b = if b == i {
            j
        } else if b == j {
            i
        } else {
            b
        };
        assert(after[a] == entries[from_a]);
        assert(after[b] == entries[from_b]);
        if from_a < from_b {
            assert(entries[from_a].0 != entries[from_b].0);
        } else {
            assert(entries[from_b].0 != entries[from_a].0);
        }
    }
}

impl<K: Copy, V: Compact> Compact for CompactDict<K, V> {
    type Content = Seq<(K, V::Content)>;

    open spec fn wf(&self) -> bool {
        &&& self.spec_key_store().wf()
        &&& self.spec_value_store().wf()
        &&& self.spec_keys().len() == self.spec_values().len()
        &&& distinct_keys(self@)
    }

    open spec fn content(&self) -> Seq<(K, V::Content)> {
        Seq::new(self@.len(), |i: int| (self@[i].0, self@[i].1.content()))
    }

    open spec fn spec_is_still_compact(&self) -> bool {
        self.spec_key_store().spec_is_still_compact()
            && self.spec_value_store().spec_is_still_compact()
    }

    open spec fn spec_is_independent(&self) -> bool {
        self.spec_key_store().spec_is_independent()
            && self.spec_value_store().spec_is_independent()
    }

    open spec fn spec_dynamic_size_bytes(&self) -> nat {
        self.spec_key_store().spec_dynamic_size_bytes()
            + self.spec_value_store().spec_dynamic_size_bytes()
    }

    open spec fn spec_laid_out_at(&self, start: int) -> bool {
        &&& self.spec_key_store().spec_laid_out_at(start)
        &&& self.spec_value_store().spec_laid_out_at(
            start + self.spec_key_store().spec_dynamic_size_bytes(),
        )
    }

    fn is_still_compact(&self) -> (r: bool) {
        self.keys.is_still_compact() && self.values.is_still_compact()
    }

    fn dynamic_size_bytes(&self) -> (r: usize) {
        self.keys.dynamic_size_bytes() + self.values.dynamic_size_bytes()
    }

    fn compact_from(&mut self, source: &Self, region: &mut Region) {
        self.keys.compact_from(&source.keys, region);
        self.values.compact_from(&source.values, region);
        proof {
            lemma_same_entries(*self, *source);
        }
    }

    fn decompact(&self) -> (r: Self) {
        let r = CompactDict { keys: self.keys.decompact(), values: self.values.decompact() };
        proof {
            lemma_same_entries(r, *self);
        }
        r
    }
}

/// A dictionary whose key sequence and value sequence have the content of
/// those of a well-formed dictionary is well-formed and has the same content.
proof fn lemma_same_entries<K: Copy, V: Compact>(a: CompactDict<K, V>, b: CompactDict<K, V>)
    requires
        b.wf(),
        a.keys.wf(),
        a.values.wf(),
        a.keys.content() == b.keys.content(),
        a.values.content() == b.values.content(),
    ensures
        a.wf(),
        a.content() == b.content(),
{
    lemma_plain_content(a.keys);
    lemma_plain_content(b.keys);
    assert(a.values@.len() == a.values.content().len());
    assert(b.values@.len() == b.values.content().len());
    assert forall|i: int, j: int| 0 <= i < j < a@.len() implies (#[trigger] a@[i]).0 != (
    #[trigger] a@[j]).0 by {
        assert(b@[i].0 == a@[i].0);
        assert(b@[j].0 == a@[j].0);
    }
    assert forall|i: int| 0 <= i < a@.len() implies a.content()[i] == b.content()[i] by {
        assert(a.values.content()[i] == a@[i].1.content());
        assert(b.values.content()[i] == b@[i].1.content());
    }
    assert(a.content() =~= b.content());
}

} // verus!
