//! A growable sequence whose elements are stored embedded in the owner's
//! region while they fit, and in a heap block of their own afterwards.

use vstd::prelude::*;

use crate::compact::{Compact, Region};
use crate::pointer_to_maybe_compact::PointerToMaybeCompact;

verus! {

/// Sum of the dynamic sizes of `items`.
pub open spec fn dynamic_size_of_items<T: Compact>(items: Seq<T>) -> nat
    decreases items.len(),
{
    if items.len() == 0 {
        0
    } else {
        dynamic_size_of_items(items.drop_last()) + items.last().spec_dynamic_size_bytes()
    }
}

/// The capacity that a sequence of capacity `cap` grows to when it is full:
/// one slot for an empty one, else twice as many, as far as the machine
/// allows.
pub open spec fn grown_capacity(cap: nat) -> nat {
    if cap == 0 {
        1
    } else if 2 * cap <= usize::MAX {
        2 * cap
    } else {
        usize::MAX as nat
    }
}

/// Capacity and storage of a sequence after one element was added to `len`
/// elements with capacity `cap` and storage `ptr`: unchanged where there was
/// room, else grown by one tier and moved to the heap.
pub open spec fn storage_after_push(len: nat, cap: nat, ptr: PointerToMaybeCompact) -> (
    nat,
    PointerToMaybeCompact,
) {
    if len < cap {
        (cap, ptr)
    } else {
        (grown_capacity(cap), PointerToMaybeCompact::Spilled)
    }
}

/// Capacity and storage of a sequence after `count` elements were added one
/// by one to `len` elements with capacity `cap` and storage `ptr`.
pub open spec fn storage_after_pushes(
    len: nat,
    cap: nat,
    ptr: PointerToMaybeCompact,
    count: nat,
) -> (nat, PointerToMaybeCompact)
    decreases count,
{
    if count == 0 {
        (cap, ptr)
    } else {
        let before = storage_after_pushes(len, cap, ptr, (count - 1) as nat);
        storage_after_push((len + count - 1) as nat, before.0, before.1)
    }
}

/// An empty embedded sequence stays embedded, with its capacity, for as many
/// elements as it has room for, and is spilled from the next element on: the
/// one element more than the embedded capacity is the only one that moves
/// the sequence.
pub proof fn lemma_spills_with_the_first_element_too_many(cap: nat, offset: usize, count: nat)
    ensures
        count <= cap ==> storage_after_pushes(
            0,
            cap,
            PointerToMaybeCompact::Embedded { offset },
            count,
        ) == (cap, PointerToMaybeCompact::Embedded { offset }),
        count > cap ==> storage_after_pushes(
            0,
            cap,
            PointerToMaybeCompact::Embedded { offset },
            count,
        ).1 == PointerToMaybeCompact::Spilled,
    decreases count,
{
    if count > 0 {
        lemma_spills_with_the_first_element_too_many(cap, offset, (count - 1) as nat);
    }
}

/// A spilled sequence stays spilled, whatever is added.
pub proof fn lemma_spilled_stays_spilled(len: nat, cap: nat, count: nat)
    ensures
        storage_after_pushes(len, cap, PointerToMaybeCompact::Spilled, count).1
            == PointerToMaybeCompact::Spilled,
    decreases count,
{
    if count > 0 {
        lemma_spilled_stays_spilled(len, cap, (count - 1) as nat);
    }
}

/// The capacity that a sequence of capacity `cap` has grown to, tier by
/// tier, when it has room for `needed` elements.
pub open spec fn grown_to_fit(cap: nat, needed: nat) -> nat
    decreases usize::MAX - cap,
{
    if cap >= needed || cap >= usize::MAX {
        cap
    } else {
        grown_to_fit(grown_capacity(cap), needed)
    }
}

/// Growing to fit one element more is growing to fit, and then by one tier
/// if that is not enough.
pub proof fn lemma_grown_to_fit_one_more(cap: nat, needed: nat)
    requires
        cap <= usize::MAX,
        needed < usize::MAX,
    ensures
        cap <= grown_to_fit(cap, needed) <= usize::MAX,
        needed <= grown_to_fit(cap, needed),
        grown_to_fit(cap, needed + 1) == if grown_to_fit(cap, needed) > needed {
            grown_to_fit(cap, needed)
        } else {
            grown_capacity(grown_to_fit(cap, needed))
        },
    decreases usize::MAX - cap,
{
    if cap < needed {
        lemma_grown_to_fit_one_more(grown_capacity(cap), needed);
    } else if cap == needed {
        assert(grown_to_fit(grown_capacity(cap), needed + 1) == grown_capacity(cap));
    }
}

/// Adding elements at once gives the capacity and storage that adding them
/// one by one gives.
pub proof fn lemma_pushes_grow_to_fit(len: nat, cap: nat, ptr: PointerToMaybeCompact, count: nat)
    requires
        len <= cap <= usize::MAX,
        len + count <= usize::MAX,
    ensures
        storage_after_pushes(len, cap, ptr, count) == (
            grown_to_fit(cap, len + count),
            if len + count <= cap {
                ptr
            } else {
                PointerToMaybeCompact::Spilled
            },
        ),
    decreases count,
{
    if count > 0 {
        lemma_pushes_grow_to_fit(len, cap, ptr, (count - 1) as nat);
        lemma_grown_to_fit_one_more(cap, (len + count - 1) as nat);
    }
}

/// The sum over a prefix never exceeds the sum over the whole, and grows by
/// the dynamic size of each item that joins the prefix.
pub proof fn lemma_dynamic_size_prefix<T: Compact>(items: Seq<T>, n: int)
    requires
        0 <= n <= items.len(),
    ensures
        dynamic_size_of_items(items.take(n)) <= dynamic_size_of_items(items),
        n < items.len() ==> dynamic_size_of_items(items.take(n + 1)) == dynamic_size_of_items(
            items.take(n),
        ) + items[n].spec_dynamic_size_bytes(),
    decreases items.len() - n,
{
    if n < items.len() {
        assert(items.take(n + 1).drop_last() =~= items.take(n));
        lemma_dynamic_size_prefix(items, n + 1);
    } else {
        assert(items.take(n) =~= items);
    }
}

/// A growable sequence with a reserved capacity.
///
/// A sequence starts out embedded. When an element is added to a full
/// sequence the storage grows and moves to the heap; from then on the
/// sequence stays spilled until it is compacted into a region again.
pub struct CompactVec<T> {
    items: Vec<T>,
    cap: usize,
    ptr: PointerToMaybeCompact,
}

impl<T> View for CompactVec<T> {
    type V = Seq<T>;

    closed spec fn view(&self) -> Seq<T> {
        self.items@
    }
}

impl<T> CompactVec<T> {
    /// Number of elements that fit without growing.
    pub closed spec fn spec_capacity(&self) -> nat {
        self.cap as nat
    }

    /// Where the elements are stored.
    pub closed spec fn spec_ptr(&self) -> PointerToMaybeCompact {
        self.ptr
    }

    /// The elements are stored in the owner's region.
    pub open spec fn spec_is_embedded(&self) -> bool {
        self.spec_ptr() is Embedded
    }

    /// Capacity and storage are those of `other`.
    pub open spec fn spec_same_storage(&self, other: &Self) -> bool {
        &&& self.spec_capacity() == other.spec_capacity()
        &&& self.spec_ptr() == other.spec_ptr()
    }

    /// Capacity and storage are what adding one element makes of those of
    /// `before`: unchanged where there was room, else grown by one tier and
    /// moved to the heap.
    pub open spec fn spec_grown_from(&self, before: &Self) -> bool {
        (self.spec_capacity(), self.spec_ptr()) == storage_after_push(
            before@.len(),
            before.spec_capacity(),
            before.spec_ptr(),
        )
    }
}

impl<T: Compact> CompactVec<T> {
    /// An empty sequence without any storage. It counts as embedded, with
    /// room for no element.
    pub fn new() -> (r: Self)
        ensures
            r.wf(),
            r@ == Seq::<T>::empty(),
            r.spec_capacity() == 0,
            r.spec_ptr() == (PointerToMaybeCompact::Embedded { offset: 0 }),
    {
        CompactVec { items: Vec::new(), cap: 0, ptr: PointerToMaybeCompact::new_compact(0) }
    }

    /// An empty sequence with heap storage for `cap` elements.
    pub fn with_capacity(cap: usize) -> (r: Self)
        ensures
            r.wf(),
            r@ == Seq::<T>::empty(),
            r.spec_capacity() == cap,
            r.spec_ptr() == PointerToMaybeCompact::Spilled,
    {
        CompactVec { items: Vec::with_capacity(cap), cap, ptr: PointerToMaybeCompact::new_free() }
    }

    pub fn len(&self) -> (r: usize)
        ensures
            r == self@.len(),
    {
        self.items.len()
    }

    pub fn is_empty(&self) -> (r: bool)
        ensures
            r == (self@.len() == 0),
    {
        self.items.len() == 0
    }

    pub fn capacity(&self) -> (r: usize)
        ensures
            r == self.spec_capacity(),
    {
        self.cap
    }

    /// Whether the elements are stored in the owner's region.
    pub fn is_embedded(&self) -> (r: bool)
        ensures
            r == self.spec_is_embedded(),
    {
        self.ptr.is_compact()
    }

    /// Where the elements are stored.
    pub fn pointer(&self) -> (r: PointerToMaybeCompact)
        ensures
            r == self.spec_ptr(),
    {
        self.ptr
    }

    /// The element at `index`.
    pub fn get(&self, index: usize) -> (r: &T)
        requires
            index < self@.len(),
        ensures
            *r == self@[index as int],
    {
        &self.items[index]
    }

    /// The element at `index`, for writing.
    pub fn get_mut(&mut self, index: usize) -> (r: &mut T)
        requires
            index < old(self)@.len(),
        ensures
            *r == old(self)@[index as int],
            final(self)@ == old(self)@.update(index as int, *final(r)),
            final(self).spec_same_storage(old(self)),
    {
        &mut self.items[index]
    }

    /// Replaces the element at `index` and returns the one that was there.
    pub fn set(&mut self, index: usize, value: T) -> (r: T)
        requires
            index < old(self)@.len(),
        ensures
            r == old(self)@[index as int],
            final(self)@ == old(self)@.update(index as int, value),
            final(self).spec_same_storage(old(self)),
    {
        let mut value = value;
        core::mem::swap(&mut self.items[index], &mut value);
        value
    }

    /// All elements, in order.
    pub fn as_slice(&self) -> (r: &[T])
        ensures
            r@ == self@,
    {
        self.items.as_slice()
    }

    /// All elements, in order, for writing.
    pub fn as_mut_slice(&mut self) -> (r: &mut [T])
        ensures
            r@ == old(self)@,
            final(self)@ == final(r)@,
            final(self).spec_same_storage(old(self)),
    {
        self.items.as_mut_slice()
    }
}

impl<T: Compact> CompactVec<T> {
    /// Moves the elements to a new heap block of the next capacity tier and
    /// gives up the storage that they were in.
    fn double_buf(&mut self)
        requires
            old(self).wf(),
        ensures
            final(self).wf(),
            final(self)@ == old(self)@,
            final(self).spec_capacity() == grown_capacity(old(self).spec_capacity()),
            final(self).spec_ptr() == PointerToMaybeCompact::Spilled,
    {
        let new_cap: usize = if self.cap == 0 {
            1
        } else if self.cap <= usize::MAX / 2 {
            self.cap * 2
        } else {
            usize::MAX
        };
        let mut block: Vec<T> = Vec::with_capacity(new_cap);
        block.append(&mut self.items);
        self.items = block;
        self.cap = new_cap;
        self.ptr.set_to_free();
    }

    /// Appends `value`. A full sequence grows first, which moves it to the
    /// heap.
    pub fn push(&mut self, value: T)
        requires
            old(self).wf(),
            value.wf(),
            old(self)@.len() < usize::MAX,
        ensures
            final(self).wf(),
            final(self)@ == old(self)@.push(value),
            final(self).spec_grown_from(old(self)),
    {
        if self.items.len() == self.cap {
            self.double_buf();
        }
        self.items.push(value);
    }

    /// Removes and returns the last element, if there is one. Capacity and
    /// storage stay as they are.
    pub fn pop(&mut self) -> (r: Option<T>)
        requires
            old(self).wf(),
        ensures
            final(self).wf(),
            final(self).spec_same_storage(old(self)),
            old(self)@.len() == 0 ==> r is None && final(self)@ == old(self)@,
            old(self)@.len() > 0 ==> r == Some(old(self)@.last()) && final(self)@ == old(self)@.drop_last(),
            r matches Some(value) ==> value.wf(),
    {
        self.items.pop()
    }

    /// Inserts `value` at `index` and shifts the elements from there on one
    /// place to the back. A full sequence grows first, which moves it to the
    /// heap.
    pub fn insert(&mut self, index: usize, value: T)
        requires
            old(self).wf(),
            value.wf(),
            index <= old(self)@.len(),
            old(self)@.len() < usize::MAX,
        ensures
            final(self).wf(),
            final(self)@ == old(self)@.insert(index as int, value),
            final(self).spec_grown_from(old(self)),
    {
        if self.items.len() == self.cap {
            self.double_buf();
        }
        self.items.insert(index, value);
    }

    /// Removes and returns the element at `index` and shifts the elements
    /// behind it one place to the front. Capacity and storage stay as they
    /// are.
    pub fn remove(&mut self, index: usize) -> (r: T)
        requires
            old(self).wf(),
            index < old(self)@.len(),
        ensures
            final(self).wf(),
            r == old(self)@[index as int],
            r.wf(),
            final(self)@ == old(self)@.remove(index as int),
            final(self).spec_same_storage(old(self)),
    {
        self.items.remove(index)
    }

    /// Exchanges the elements at `i` and `j`.
    pub fn swap(&mut self, i: usize, j: usize)
        requires
            old(self).wf(),
            i < old(self)@.len(),
            j < old(self)@.len(),
        ensures
            final(self).wf(),
            final(self)@ == old(self)@.update(i as int, old(self)@[j as int]).update(
                j as int,
                old(self)@[i as int],
            ),
            final(self).spec_same_storage(old(self)),
    {
        if i != j {
            let (low, high) = if i < j {
                (i, j)
            } else {
                (j, i)
            };
            let (front, back) = self.items.as_mut_slice().split_at_mut(high);
            core::mem::swap(&mut front[low], &mut back[0]);
        }
        assert(self@ =~= old(self)@.update(i as int, old(self)@[j as int]).update(
            j as int,
            old(self)@[i as int],
        ));
    }

    /// Removes all elements. Capacity and storage stay as they are.
    pub fn clear(&mut self)
        requires
            old(self).wf(),
        ensures
            final(self).wf(),
            final(self)@ == Seq::<T>::empty(),
            final(self).spec_same_storage(old(self)),
    {
        self.items.clear();
    }

    /// Appends the elements of `values` in order. Capacity and storage
    /// become what adding the elements one by one makes them.
    pub fn extend(&mut self, values: Vec<T>)
        requires
            old(self).wf(),
            forall|i: int| 0 <= i < values@.len() ==> (#[trigger] values@[i]).wf(),
            old(self)@.len() + values@.len() <= usize::MAX,
        ensures
            final(self).wf(),
            final(self)@ == old(self)@ + values@,
            (final(self).spec_capacity(), final(self).spec_ptr()) == storage_after_pushes(
                old(self)@.len(),
                old(self).spec_capacity(),
                old(self).spec_ptr(),
                values@.len(),
            ),
    {
        let mut values = values;
        let needed = self.items.len() + values.len();
        proof {
            lemma_pushes_grow_to_fit(
                self@.len(),
                self.spec_capacity(),
                self.spec_ptr(),
                values@.len(),
            );
        }
        while self.cap < needed
            invariant
                self.wf(),
                self@ == old(self)@,
                needed == old(self)@.len() + values@.len(),
                self.spec_capacity() >= old(self).spec_capacity(),
                grown_to_fit(self.spec_capacity(), needed as nat) == grown_to_fit(
                    old(self).spec_capacity(),
                    needed as nat,
                ),
                self.spec_ptr() == if self.spec_capacity() == old(self).spec_capacity() {
                    old(self).spec_ptr()
                } else {
                    PointerToMaybeCompact::Spilled
                },
                self.spec_capacity() > old(self).spec_capacity() ==> needed > old(self).spec_capacity(),
            decreases usize::MAX - self.cap,
        {
            self.double_buf();
        }
        self.items.append(&mut values);
    }

    /// The elements, in order, as an ordinary vector.
    pub fn into_vec(self) -> (r: Vec<T>)
        ensures
            r@ == self@,
    {
        self.items
    }

    /// A spilled sequence that holds the elements of `values` in order.
    pub fn from_vec(values: Vec<T>) -> (r: Self)
        requires
            forall|i: int| 0 <= i < values@.len() ==> (#[trigger] values@[i]).wf(),
        ensures
            r.wf(),
            r@ == values@,
            r.spec_capacity() == values@.len(),
            r.spec_ptr() == PointerToMaybeCompact::Spilled,
    {
        let cap = values.len();
        CompactVec { items: values, cap, ptr: PointerToMaybeCompact::new_free() }
    }
}

impl<T: Compact> Default for CompactVec<T> {
    fn default() -> (r: Self)
        ensures
            r.wf(),
            r@ == Seq::<T>::empty(),
            r.spec_capacity() == 0,
            r.spec_ptr() == (PointerToMaybeCompact::Embedded { offset: 0 }),
    {
        CompactVec::new()
    }
}

impl<T: Compact + PartialEq> CompactVec<T> {
    /// Whether some element equals `value`.
    pub fn contains(&self, value: &T) -> (r: bool)
        requires
            vstd::laws_eq::obeys_concrete_eq::<T>(),
        ensures
            r == self@.contains(*value),
    {
        let mut i: usize = 0;
        while i < self.items.len()
            invariant
                i <= self@.len(),
                vstd::laws_eq::obeys_concrete_eq::<T>(),
                forall|j: int| 0 <= j < i ==> self@[j] != *value,
            decreases self@.len() - i,
        {
            let found = self.items[i] == *value;
            proof {
                reveal(vstd::laws_eq::obeys_concrete_eq);
            }
            if found {
                return true;
            }
            i += 1;
        }
        false
    }
}

impl<T: Compact> Compact for CompactVec<T> {
    type Content = Seq<T::Content>;

    open spec fn wf(&self) -> bool {
        &&& self@.len() <= self.spec_capacity() <= usize::MAX
        &&& forall|i: int| 0 <= i < self@.len() ==> (#[trigger] self@[i]).wf()
    }

    open spec fn content(&self) -> Seq<T::Content> {
        Seq::new(self@.len(), |i: int| self@[i].content())
    }

    open spec fn spec_is_still_compact(&self) -> bool {
        &&& self.spec_is_embedded()
        &&& forall|i: int| 0 <= i < self@.len() ==> (#[trigger] self@[i]).spec_is_still_compact()
    }

    open spec fn spec_is_independent(&self) -> bool {
        &&& !self.spec_is_embedded()
        &&& forall|i: int| 0 <= i < self@.len() ==> (#[trigger] self@[i]).spec_is_independent()
    }

    open spec fn spec_dynamic_size_bytes(&self) -> nat {
        self.spec_capacity() * vstd::layout::size_of::<T>() + dynamic_size_of_items(self@)
    }

    open spec fn spec_laid_out_at(&self, start: int) -> bool {
        &&& self.spec_ptr() == (PointerToMaybeCompact::Embedded { offset: start as usize })
        &&& 0 <= start <= usize::MAX
        &&& forall|i: int|
            0 <= i < self@.len() ==> (#[trigger] self@[i]).spec_laid_out_at(
                start + self.spec_capacity() * vstd::layout::size_of::<T>()
                    + dynamic_size_of_items(self@.take(i)),
            )
    }

    fn is_still_compact(&self) -> (r: bool) {
        if !self.ptr.is_compact() {
            return false;
        }
        let mut i: usize = 0;
        while i < self.items.len()
            invariant
                self.wf(),
                i <= self@.len(),
                forall|j: int| 0 <= j < i ==> (#[trigger] self@[j]).spec_is_still_compact(),
            decreases self@.len() - i,
        {
            if !self.items[i].is_still_compact() {
                return false;
            }
            i += 1;
        }
        true
    }

    fn dynamic_size_bytes(&self) -> (r: usize) {
        let mut total: usize = self.cap * core::mem::size_of::<T>();
        let mut i: usize = 0;
        proof {
            assert(self@.take(0) =~= Seq::<T>::empty());
        }
        while i < self.items.len()
            invariant
                self.wf(),
                self.spec_dynamic_size_bytes() <= usize::MAX,
                i <= self@.len(),
                total == self.spec_capacity() * vstd::layout::size_of::<T>()
                    + dynamic_size_of_items(self@.take(i as int)),
            decreases self@.len() - i,
        {
            proof {
                lemma_dynamic_size_prefix(self@, i as int);
                lemma_dynamic_size_prefix(self@, i as int + 1);
            }
            total = total + self.items[i].dynamic_size_bytes();
            i += 1;
        }
        proof {
            assert(self@.take(i as int) =~= self@);
        }
        total
    }

    fn compact_from(&mut self, source: &Self, region: &mut Region)
        ensures
            final(self)@.len() == source@.len(),
            final(self).spec_capacity() == source.spec_capacity(),
    {
        let ghost start = region.spec_used() as int;
        let ghost room = region.spec_remaining();
        let ghost own = source.spec_capacity() * vstd::layout::size_of::<T>();
        let offset = region.reserve(source.cap * core::mem::size_of::<T>());
        let mut items: Vec<T> = Vec::with_capacity(source.cap);
        let mut i: usize = 0;
        proof {
            assert(source@.take(0) =~= Seq::<T>::empty());
        }
        while i < source.items.len()
            invariant
                source.wf(),
                i <= source@.len(),
                items@.len() == i,
                source.spec_dynamic_size_bytes() <= room,
                region.spec_used() == start + own + dynamic_size_of_items(source@.take(i as int)),
                region.spec_remaining() == room - own - dynamic_size_of_items(
                    source@.take(i as int),
                ),
                own == source.spec_capacity() * vstd::layout::size_of::<T>(),
                forall|j: int|
                    0 <= j < i ==> {
                        &&& (#[trigger] items@[j]).wf()
                        &&& items@[j].content() == source@[j].content()
                        &&& items@[j].spec_is_still_compact()
                        &&& items@[j].spec_dynamic_size_bytes()
                            == source@[j].spec_dynamic_size_bytes()
                        &&& items@[j].spec_laid_out_at(
                            start + own + dynamic_size_of_items(source@.take(j)),
                        )
                    },
            decreases source@.len() - i,
        {
            proof {
                lemma_dynamic_size_prefix(source@, i as int);
                lemma_dynamic_size_prefix(source@, i as int + 1);
            }
            let mut item = source.items[i].decompact();
            item.compact_from(&source.items[i], region);
            items.push(item);
            i += 1;
        }
        self.items = items;
        self.cap = source.cap;
        self.ptr.set_to_compact(offset);
        proof {
            assert(source@.take(i as int) =~= source@);
            assert(self.content() =~= source.content());
            lemma_dynamic_size_same(self@, source@);
            assert forall|j: int| 0 <= j < self@.len() implies (#[trigger] self@[j]).spec_laid_out_at(
                start + self.spec_capacity() * vstd::layout::size_of::<T>()
                    + dynamic_size_of_items(self@.take(j)),
            ) by {
                lemma_dynamic_size_same(self@.take(j), source@.take(j));
            }
        }
    }

    fn decompact(&self) -> (r: Self)
        ensures
            r@.len() == self@.len(),
            r.spec_capacity() == self.spec_capacity(),
    {
        let mut items: Vec<T> = Vec::with_capacity(self.cap);
        let mut i: usize = 0;
        while i < self.items.len()
            invariant
                self.wf(),
                i <= self@.len(),
                items@.len() == i,
                forall|j: int|
                    0 <= j < i ==> {
                        &&& (#[trigger] items@[j]).wf()
                        &&& items@[j].content() == self@[j].content()
                        &&& items@[j].spec_is_independent()
                    },
            decreases self@.len() - i,
        {
            items.push(self.items[i].decompact());
            i += 1;
        }
        let r = CompactVec { items, cap: self.cap, ptr: PointerToMaybeCompact::new_free() };
        proof {
            assert(r.content() =~= self.content());
        }
        r
    }
}

/// The content of a sequence of plain values is the sequence itself.
pub proof fn lemma_plain_content<T: Copy>(items: CompactVec<T>)
    ensures
        items.content() == items@,
{
    assert(items.content() =~= items@);
}

/// Sequences whose items agree in dynamic size, one by one, have the same
/// total.
pub proof fn lemma_dynamic_size_same<T: Compact>(a: Seq<T>, b: Seq<T>)
    requires
        a.len() == b.len(),
        forall|i: int|
            0 <= i < a.len() ==> (#[trigger] a[i]).spec_dynamic_size_bytes()
                == b[i].spec_dynamic_size_bytes(),
    ensures
        dynamic_size_of_items(a) == dynamic_size_of_items(b),
    decreases a.len(),
{
    if a.len() > 0 {
        lemma_dynamic_size_same(a.drop_last(), b.drop_last());
    }
}

} // verus!
