//! Storage for items of similar size: queues of fixed-size slots that are
//! kept in chunks, one queue per size class.

use vstd::prelude::*;

verus! {

/// Slot size of size class `class` over the base size `base`: the base size
/// doubled `class` times.
pub open spec fn slot_size_of(base: nat, class: nat) -> nat
    decreases class,
{
    if class == 0 {
        base
    } else {
        2 * slot_size_of(base, (class - 1) as nat)
    }
}

/// The smallest size class whose slots hold `size` bytes.
pub open spec fn class_of(base: nat, size: nat) -> nat
    decreases
            (if size > base {
                size - base
            } else {
                0
            }),
{
    if size <= base || base == 0 {
        0
    } else {
        1 + class_of((2 * base) as nat, size)
    }
}

/// The class over the doubled base, seen from the base itself.
pub proof fn lemma_slot_size_shift(base: nat, class: nat)
    ensures
        slot_size_of(2 * base, class) == slot_size_of(base, class + 1),
    decreases class,
{
    reveal_with_fuel(slot_size_of, 2);
    if class > 0 {
        lemma_slot_size_shift(base, (class - 1) as nat);
    }
}

/// Slot sizes grow with the class.
pub proof fn lemma_slot_size_monotonic(base: nat, low: nat, high: nat)
    requires
        low <= high,
    ensures
        slot_size_of(base, low) <= slot_size_of(base, high),
    decreases high,
{
    if low < high {
        lemma_slot_size_monotonic(base, low, (high - 1) as nat);
    }
}

/// The class chosen for a size has slots that hold it, and every smaller
/// class has slots that are too small.
pub proof fn lemma_class_of_is_smallest_fit(base: nat, size: nat)
    requires
        base > 0,
    ensures
        size <= slot_size_of(base, class_of(base, size)),
        forall|class: nat| class < class_of(base, size) ==> slot_size_of(base, class) < size,
    decreases
            (if size > base {
                size - base
            } else {
                0
            }),
{
    if size > base {
        lemma_class_of_is_smallest_fit(2 * base, size);
        lemma_slot_size_shift(base, class_of(2 * base, size));
        assert forall|class: nat| class < class_of(base, size) implies slot_size_of(base, class)
            < size by {
            if class > 0 {
                lemma_slot_size_shift(base, (class - 1) as nat);
            }
        }
    }
}

/// A pool of chunks of one fixed size in bytes.
#[derive(Clone, Copy, Debug)]
pub struct MemChunker {
    chunk_size: usize,
}

impl MemChunker {
    pub closed spec fn spec_chunk_size(&self) -> usize {
        self.chunk_size
    }

    /// A pool of chunks of `chunk_size` bytes each.
    pub fn new(chunk_size: usize) -> (r: Self)
        ensures
            r.spec_chunk_size() == chunk_size,
    {
        MemChunker { chunk_size }
    }

    pub fn chunk_size(&self) -> (r: usize)
        ensures
            r == self.spec_chunk_size(),
    {
        self.chunk_size
    }

    /// A pool for one size class, with chunks of the same size.
    pub fn child(&self) -> (r: Self)
        ensures
            r.spec_chunk_size() == self.spec_chunk_size(),
    {
        MemChunker { chunk_size: self.chunk_size }
    }

    /// A fresh chunk with room for `slots` items, none of them in use.
    pub fn create_chunk<T>(&self, slots: usize) -> (r: Chunk<T>)
        ensures
            r@ == Seq::<T>::empty(),
            r.spec_slots() == slots,
    {
        Chunk { items: Vec::with_capacity(slots), slots }
    }
}

/// A chunk of a pool: a fixed number of slots, used from the first one on.
pub struct Chunk<T> {
    items: Vec<T>,
    slots: usize,
}

impl<T> View for Chunk<T> {
    type V = Seq<T>;

    /// The items in the slots that are in use, in slot order.
    closed spec fn view(&self) -> Seq<T> {
        self.items@
    }
}

impl<T> Chunk<T> {
    /// Number of slots of the chunk, in use or not.
    pub closed spec fn spec_slots(&self) -> usize {
        self.slots
    }

    pub fn slots(&self) -> (r: usize)
        ensures
            r == self.spec_slots(),
    {
        self.slots
    }

    /// Number of slots in use.
    pub fn len(&self) -> (r: usize)
        ensures
            r == self@.len(),
    {
        self.items.len()
    }

    /// Whether no slot is left.
    pub fn is_full(&self) -> (r: bool)
        ensures
            r == (self@.len() >= self.spec_slots()),
    {
        self.items.len() >= self.slots
    }

    /// Puts `item` into the first slot that is not in use.
    pub fn push(&mut self, item: T)
        requires
            old(self)@.len() < old(self).spec_slots(),
        ensures
            final(self)@ == old(self)@.push(item),
            final(self).spec_slots() == old(self).spec_slots(),
    {
        self.items.push(item);
    }

    /// Takes the item out of the last slot that is in use.
    pub fn pop(&mut self) -> (r: Option<T>)
        ensures
            final(self).spec_slots() == old(self).spec_slots(),
            old(self)@.len() == 0 ==> r is None && final(self)@ == old(self)@,
            old(self)@.len() > 0 ==> r == Some(old(self)@.last()) && final(self)@ == old(self)@.drop_last(),
    {
        self.items.pop()
    }
}

/// The items of `chunks`, chunk after chunk.
pub open spec fn items_of<T>(chunks: Seq<Chunk<T>>) -> Seq<T>
    decreases chunks.len(),
{
    if chunks.len() == 0 {
        Seq::empty()
    } else {
        items_of(chunks.drop_last()) + chunks.last()@
    }
}

/// A queue of slots of one size. The slots are kept in chunks that are
/// taken from the pool when the last chunk is full and given up as soon as
/// they hold no item.
///
/// The write cursor is the number of slots in use. An item is written at the
/// write cursor and taken from directly below it, so the item written last
/// is read first.
pub struct SizedChunkedQueue<T> {
    chunker: MemChunker,
    chunks: Vec<Chunk<T>>,
    slot_size: usize,
    slots_per_chunk: usize,
    write_index: usize,
}

impl<T> View for SizedChunkedQueue<T> {
    type V = Seq<T>;

    /// The pending items, oldest first.
    closed spec fn view(&self) -> Seq<T> {
        items_of(self.chunks@)
    }
}

impl<T> SizedChunkedQueue<T> {
    /// Every chunk has as many slots as a chunk of the pool holds of this
    /// size, every chunk holds an item, none holds more than its slots, and
    /// all but the last are full.
    pub closed spec fn wf(&self) -> bool {
        &&& self.slots_per_chunk >= 1
        &&& self.slot_size >= 1
        &&& self.slots_per_chunk == self.chunker.spec_chunk_size() / self.slot_size
        &&& self.write_index == items_of(self.chunks@).len()
        &&& forall|c: int|
            0 <= c < self.chunks@.len() ==> (#[trigger] self.chunks@[c]).spec_slots()
                == self.slots_per_chunk
        &&& forall|c: int|
            0 <= c < self.chunks@.len() ==> 1 <= (#[trigger] self.chunks@[c])@.len()
                <= self.slots_per_chunk
        &&& forall|c: int|
            0 <= c < self.chunks@.len() - 1 ==> (#[trigger] self.chunks@[c])@.len()
                == self.slots_per_chunk
    }

    /// Bytes per slot.
    pub closed spec fn spec_slot_size(&self) -> usize {
        self.slot_size
    }

    /// Bytes per chunk.
    pub closed spec fn spec_chunk_size(&self) -> usize {
        self.chunker.spec_chunk_size()
    }

    /// Slots per chunk.
    pub open spec fn spec_slots_per_chunk(&self) -> nat {
        (self.spec_chunk_size() / self.spec_slot_size()) as nat
    }

    /// Chunks that the queue holds at the moment.
    pub closed spec fn spec_chunks(&self) -> nat {
        self.chunks@.len()
    }

    /// An empty queue of slots of `slot_size` bytes, with chunks from
    /// `chunker`.
    pub fn new(chunker: MemChunker, slot_size: usize) -> (r: Self)
        requires
            1 <= slot_size <= chunker.spec_chunk_size(),
        ensures
            r.wf(),
            r@ == Seq::<T>::empty(),
            r.spec_slot_size() == slot_size,
            r.spec_chunk_size() == chunker.spec_chunk_size(),
            r.spec_chunks() == 0,
    {
        let slots_per_chunk = chunker.chunk_size() / slot_size;
        assert(slots_per_chunk >= 1) by (nonlinear_arith)
            requires
                1 <= slot_size <= chunker.spec_chunk_size(),
                slots_per_chunk == chunker.spec_chunk_size() / slot_size,
        ;
        SizedChunkedQueue { chunker, chunks: Vec::new(), slot_size, slots_per_chunk, write_index: 0 }
    }

    /// Number of pending items.
    pub fn len(&self) -> (r: usize)
        requires
            self.wf(),
        ensures
            r == self@.len(),
    {
        self.write_index
    }

    pub fn is_empty(&self) -> (r: bool)
        requires
            self.wf(),
        ensures
            r == (self@.len() == 0),
    {
        self.write_index == 0
    }

    pub fn slot_size(&self) -> (r: usize)
        ensures
            r == self.spec_slot_size(),
    {
        self.slot_size
    }

    /// Number of chunks that the queue holds.
    pub fn chunks(&self) -> (r: usize)
        ensures
            r == self.spec_chunks(),
    {
        self.chunks.len()
    }

    /// Writes `item` into the slot at the write cursor. Takes a new chunk
    /// from the pool if all slots of the chunks at hand are in use.
    pub fn enqueue(&mut self, item: T)
        requires
            old(self).wf(),
            old(self)@.len() < usize::MAX,
        ensures
            final(self).wf(),
            final(self)@ == old(self)@.push(item),
            final(self).spec_slot_size() == old(self).spec_slot_size(),
            final(self).spec_chunk_size() == old(self).spec_chunk_size(),
            final(self).spec_chunks() == chunks_needed(
                final(self)@.len(),
                final(self).spec_slots_per_chunk(),
            ),
    {
        proof {
            self.lemma_chunks_needed();
        }
        let n = self.chunks.len();
        if n == 0 || self.chunks[n - 1].is_full() {
            let mut chunk = self.chunker.create_chunk(self.slots_per_chunk);
            chunk.push(item);
            self.chunks.push(chunk);
            proof {
                assert(self.chunks@.drop_last() =~= old(self).chunks@);
                assert(items_of(self.chunks@) =~= old(self)@.push(item));
            }
        } else {
            self.chunks[n - 1].push(item);
            proof {
                assert(self.chunks@.drop_last() =~= old(self).chunks@.drop_last());
                assert(items_of(self.chunks@) =~= old(self)@.push(item));
            }
        }
        self.write_index = self.write_index + 1;
        proof {
            self.lemma_chunks_needed();
        }
    }

    /// Takes the item directly below the write cursor, the one written
    /// last, and gives up the last chunk if this was its only item.
    pub fn dequeue(&mut self) -> (r: Option<T>)
        requires
            old(self).wf(),
        ensures
            final(self).wf(),
            final(self).spec_slot_size() == old(self).spec_slot_size(),
            final(self).spec_chunk_size() == old(self).spec_chunk_size(),
            old(self)@.len() == 0 ==> r is None && final(self)@ == old(self)@,
            old(self)@.len() > 0 ==> r == Some(old(self)@.last()) && final(self)@ == old(self)@.drop_last(),
            final(self).spec_chunks() == chunks_needed(
                final(self)@.len(),
                final(self).spec_slots_per_chunk(),
            ),
    {
        proof {
            self.lemma_chunks_needed();
        }
        let n = self.chunks.len();
        if n == 0 {
            return None;
        }
        let item = self.chunks[n - 1].pop();
        if self.chunks[n - 1].len() == 0 {
            self.chunks.pop();
            proof {
                assert(self.chunks@ =~= old(self).chunks@.drop_last());
                assert(old(self).chunks@.last()@ =~= seq![item.unwrap()]);
                assert(items_of(self.chunks@) =~= old(self)@.drop_last());
            }
        } else {
            proof {
                assert(self.chunks@.drop_last() =~= old(self).chunks@.drop_last());
                assert(items_of(self.chunks@) =~= old(self)@.drop_last());
            }
        }
        self.write_index = self.write_index - 1;
        proof {
            self.lemma_chunks_needed();
        }
        item
    }

    /// A well-formed queue holds exactly as many chunks as its items need.
    proof fn lemma_chunks_needed(&self)
        requires
            self.wf(),
        ensures
            self.spec_chunks() == chunks_needed(self@.len(), self.spec_slots_per_chunk()),
            self.spec_slots_per_chunk() == self.slots_per_chunk,
            self.chunks@.len() > 0 ==> self@.len() == (self.chunks@.len() - 1)
                * self.slots_per_chunk + self.chunks@.last()@.len(),
            self.chunks@.len() == 0 ==> self@.len() == 0,
    {
        lemma_items_of_full_chunks(self.chunks@, self.slots_per_chunk as nat);
        let n = self.chunks@.len() as int;
        let spc = self.slots_per_chunk as int;
        if n == 0 {
            assert((0 + spc - 1) / spc == 0) by (nonlinear_arith)
                requires
                    spc >= 1,
            ;
        }
        if n > 0 {
            let last = self.chunks@.last()@.len() as int;
            let len = self@.len() as int;
            assert(len == (n - 1) * spc + last);
            assert((len + spc - 1) / spc == n) by (nonlinear_arith)
                requires
                    len == (n - 1) * spc + last,
                    1 <= last <= spc,
                    n >= 1,
            ;
        }
    }
}

/// Chunks of `slots_per_chunk` slots that `items` items fill, the last one
/// perhaps only in part.
pub open spec fn chunks_needed(items: nat, slots_per_chunk: nat) -> nat {
    if slots_per_chunk == 0 {
        0
    } else {
        ((items + slots_per_chunk - 1) / (slots_per_chunk as int)) as nat
    }
}

/// Chunks of which all but the last are full hold as many items as the full
/// ones have slots, and those of the last.
proof fn lemma_items_of_full_chunks<T>(chunks: Seq<Chunk<T>>, slots_per_chunk: nat)
    requires
        forall|c: int| 0 <= c < chunks.len() - 1 ==> (#[trigger] chunks[c])@.len() == slots_per_chunk,
    ensures
        chunks.len() == 0 ==> items_of(chunks).len() == 0,
        chunks.len() > 0 ==> items_of(chunks).len() == (chunks.len() - 1) * slots_per_chunk
            + chunks.last()@.len(),
    decreases chunks.len(),
{
    if chunks.len() > 1 {
        let front = chunks.drop_last();
        assert forall|c: int| 0 <= c < front.len() - 1 implies (#[trigger] front[c])@.len()
            == slots_per_chunk by {
            assert(front[c] == chunks[c]);
        }
        lemma_items_of_full_chunks(front, slots_per_chunk);
        assert(front.last() == chunks[chunks.len() - 2]);
        assert((chunks.len() - 2) * slots_per_chunk + slots_per_chunk == (chunks.len() - 1)
            * slots_per_chunk) by (nonlinear_arith);
    } else if chunks.len() == 1 {
        assert(items_of(chunks.drop_last()) =~= Seq::<T>::empty());
    }
}

/// With a base of at least one byte, the slots of a class have more bytes
/// than the class has predecessors.
pub proof fn lemma_slot_size_exceeds_class(base: nat, class: nat)
    requires
        base >= 1,
    ensures
        slot_size_of(base, class) > class,
    decreases class,
{
    if class > 0 {
        lemma_slot_size_exceeds_class(base, (class - 1) as nat);
    }
}

/// `classes`, filled up with empty classes to at least `count` classes.
pub open spec fn extended<T>(classes: Seq<Seq<T>>, count: nat) -> Seq<Seq<T>> {
    Seq::new(
        if classes.len() >= count {
            classes.len()
        } else {
            count
        },
        |c: int|
            if c < classes.len() {
                classes[c]
            } else {
                Seq::empty()
            },
    )
}

/// One queue per size class. Class `c` has slots of the base size doubled
/// `c` times; classes are added, smallest first, when an item needs them.
pub struct MultiSized<T> {
    chunker: MemChunker,
    base_size: usize,
    collections: Vec<SizedChunkedQueue<T>>,
}

impl<T> View for MultiSized<T> {
    type V = Seq<Seq<T>>;

    /// The pending items of each class, oldest first.
    open spec fn view(&self) -> Seq<Seq<T>> {
        Seq::new(self.spec_collections().len(), |c: int| self.spec_collections()[c]@)
    }
}

impl<T> MultiSized<T> {
    /// Slot size of the smallest class.
    pub closed spec fn spec_base_size(&self) -> usize {
        self.base_size
    }

    /// Bytes per chunk, in every class.
    pub closed spec fn spec_chunk_size(&self) -> usize {
        self.chunker.spec_chunk_size()
    }

    /// The queues, smallest class first.
    pub closed spec fn spec_collections(&self) -> Seq<SizedChunkedQueue<T>> {
        self.collections@
    }

    /// The class that holds items of `size` bytes.
    pub open spec fn spec_class_of(&self, size: nat) -> nat {
        class_of(self.spec_base_size() as nat, size)
    }

    /// Slot size of class `class`.
    pub open spec fn spec_slot_size_of(&self, class: nat) -> nat {
        slot_size_of(self.spec_base_size() as nat, class)
    }

    /// The base size is at least one byte, and every queue is well-formed
    /// and has the slot size of its class and chunks from the common pool.
    pub open spec fn wf(&self) -> bool {
        &&& self.spec_base_size() >= 1
        &&& forall|c: int|
            0 <= c < self.spec_collections().len() ==> {
                &&& (#[trigger] self.spec_collections()[c]).wf()
                &&& self.spec_collections()[c].spec_slot_size() == self.spec_slot_size_of(c as nat)
                &&& self.spec_collections()[c].spec_chunk_size() == self.spec_chunk_size()
            }
    }

    /// No classes yet; the first will have slots of `base_size` bytes.
    pub fn new(chunker: MemChunker, base_size: usize) -> (r: Self)
        requires
            base_size >= 1,
        ensures
            r.wf(),
            r@ == Seq::<Seq<T>>::empty(),
            r.spec_base_size() == base_size,
            r.spec_chunk_size() == chunker.spec_chunk_size(),
    {
        let r = MultiSized { chunker, base_size, collections: Vec::new() };
        assert(r@ =~= Seq::<Seq<T>>::empty());
        r
    }

    /// Number of classes in use.
    pub fn len(&self) -> (r: usize)
        ensures
            r == self@.len(),
    {
        self.collections.len()
    }

    /// The queue of class `class`.
    pub fn get(&self, class: usize) -> (r: &SizedChunkedQueue<T>)
        requires
            self.wf(),
            class < self@.len(),
        ensures
            *r == self.spec_collections()[class as int],
    {
        &self.collections[class]
    }

    /// The queue of class `class`, for writing.
    pub fn get_mut(&mut self, class: usize) -> (r: &mut SizedChunkedQueue<T>)
        requires
            old(self).wf(),
            class < old(self)@.len(),
        ensures
            *r == old(self).spec_collections()[class as int],
            final(self).spec_collections() == old(self).spec_collections().update(
                class as int,
                *final(r),
            ),
            final(self).spec_base_size() == old(self).spec_base_size(),
            final(self).spec_chunk_size() == old(self).spec_chunk_size(),
    {
        &mut self.collections[class]
    }

    /// The smallest class whose slots hold `size` bytes.
    pub fn size_to_index(&self, size: usize) -> (r: usize)
        requires
            self.wf(),
            self.spec_slot_size_of(self.spec_class_of(size as nat)) <= usize::MAX,
        ensures
            r == self.spec_class_of(size as nat),
    {
        let ghost base = self.base_size as nat;
        let ghost class = class_of(base, size as nat);
        let mut index: usize = 0;
        let mut slot: usize = self.base_size;
        while slot < size
            invariant
                base == self.base_size,
                base >= 1,
                class == class_of(base, size as nat),
                slot_size_of(base, class) <= usize::MAX,
                slot == slot_size_of(base, index as nat),
                slot >= 1,
                class == index + class_of(slot as nat, size as nat),
            decreases class - index,
        {
            proof {
                lemma_slot_size_monotonic(base, (index + 1) as nat, class);
                lemma_slot_size_exceeds_class(base, (index + 1) as nat);
            }
            slot = slot * 2;
            index = index + 1;
        }
        index
    }

    /// The queue for items of `size` bytes. Adds the classes up to that one
    /// if they are not in use yet.
    pub fn sized_for_mut(&mut self, size: usize) -> (r: &mut SizedChunkedQueue<T>)
        requires
            old(self).wf(),
            old(self).spec_slot_size_of(old(self).spec_class_of(size as nat)) <= old(self).spec_chunk_size(),
        ensures
            r.wf(),
            r@ == extended(old(self)@, old(self).spec_class_of(size as nat) + 1)[old(self).spec_class_of(size as nat) as int],
            r.spec_slot_size() == old(self).spec_slot_size_of(old(self).spec_class_of(size as nat)),
            r.spec_chunk_size() == old(self).spec_chunk_size(),
            final(self).spec_base_size() == old(self).spec_base_size(),
            final(self).spec_chunk_size() == old(self).spec_chunk_size(),
            final(self)@ =~= extended(old(self)@, old(self).spec_class_of(size as nat) + 1).update(
                old(self).spec_class_of(size as nat) as int,
                final(r)@,
            ),
            final(r).wf() && final(r).spec_slot_size() == r.spec_slot_size() && final(r).spec_chunk_size() == r.spec_chunk_size() ==> final(self).wf(),
    {
        let ghost base = self.base_size as nat;
        let index = self.size_to_index(size);
        proof {
            assert(self@ =~= extended(old(self)@, self@.len()));
        }
        while self.collections.len() <= index
            invariant
                self.wf(),
                base == self.base_size,
                self.base_size == old(self).base_size,
                self.chunker == old(self).chunker,
                slot_size_of(base, index as nat) <= self.chunker.spec_chunk_size(),
                old(self)@.len() <= self@.len(),
                self@.len() == old(self)@.len() || self@.len() <= index + 1,
                self@ == extended(old(self)@, self@.len()),
            decreases index + 1 - self.collections@.len(),
        {
            let new_index = self.collections.len();
            proof {
                lemma_slot_size_monotonic(base, new_index as nat, index as nat);
                lemma_slot_size_exceeds_class(base, new_index as nat);
            }
            let slot_size = if new_index == 0 {
                self.base_size
            } else {
                self.collections[new_index - 1].slot_size() * 2
            };
            let ghost before = self@;
            self.collections.push(SizedChunkedQueue::new(self.chunker.child(), slot_size));
            proof {
                assert forall|c: int| 0 <= c < self@.len() implies #[trigger] self@[c] == extended(
                    old(self)@,
                    self@.len(),
                )[c] by {
                    if c < before.len() {
                        assert(self@[c] == before[c]);
                    }
                }
                assert(self@ =~= extended(old(self)@, self@.len()));
            }
        }
        proof {
            assert(self@ =~= extended(old(self)@, (index + 1) as nat));
        }
        &mut self.collections[index]
    }
}

} // verus!
