//! The messages that wait for the actors of one type, stored compactly in
//! slots of a fitting size class.

use vstd::prelude::*;

use crate::chunked::{extended, MemChunker, MultiSized};
use crate::compact::{compact_behind_from, spec_total_size_bytes, total_size_bytes, Compact};
use crate::messaging::{Message, Packet};

verus! {

/// Chunk size in bytes, each chunk of messages
pub const CHUNK_SIZE: usize = 4096 * 4096 * 4;

/// The most messages that one drain takes from one size class.
pub const MAX_MESSAGES_AT_ONCE: usize = 500;

/// Number of messages that a drain takes from a size class with `pending`
/// messages.
pub open spec fn batch_size(pending: nat) -> nat {
    if pending > MAX_MESSAGES_AT_ONCE {
        MAX_MESSAGES_AT_ONCE as nat
    } else {
        pending
    }
}

/// Class and count at which a drain goes on from class `index` with `left`
/// messages still to take there: it stays where messages are left, else it
/// goes down to the next class of which it takes any. Below class 0 nothing
/// is left.
pub open spec fn settled<P>(pending: Seq<Seq<P>>, index: nat, left: nat) -> (nat, nat)
    decreases index,
{
    if left > 0 {
        (index, left)
    } else if index == 0 {
        (0, 0)
    } else {
        settled(pending, (index - 1) as nat, batch_size(pending[index - 1].len()))
    }
}

/// The newest `count` of `items`, the newest first.
pub open spec fn newest_first<P>(items: Seq<P>, count: nat) -> Seq<P> {
    items.skip(items.len() - count).reverse()
}

/// What a drain yields from the size classes below `index`: from the
/// highest class down, of each class its batch, the newest message first.
pub open spec fn drained_below<P>(pending: Seq<Seq<P>>, index: nat) -> Seq<P>
    decreases index,
{
    if index == 0 {
        Seq::empty()
    } else {
        newest_first(pending[index - 1], batch_size(pending[index - 1].len())) + drained_below(
            pending,
            (index - 1) as nat,
        )
    }
}

/// What a drain yields from now on when `left` messages are still to be
/// taken from class `index`.
pub open spec fn drained_from<P>(pending: Seq<Seq<P>>, index: nat, left: nat) -> Seq<P> {
    if left > 0 {
        newest_first(pending[index as int], left) + drained_below(pending, index)
    } else {
        drained_below(pending, index)
    }
}

/// What a whole drain leaves of each size class: the messages that are
/// older than its batch.
pub open spec fn kept<P>(pending: Seq<Seq<P>>) -> Seq<Seq<P>> {
    Seq::new(
        pending.len(),
        |c: int| pending[c].take(pending[c].len() - batch_size(pending[c].len())),
    )
}

/// The messages of the size classes below `index`, class after class.
pub open spec fn messages_below<P>(pending: Seq<Seq<P>>, index: nat) -> Seq<P>
    decreases index,
{
    if index == 0 {
        Seq::empty()
    } else {
        messages_below(pending, (index - 1) as nat) + pending[index - 1]
    }
}

/// What a drain yields below a size class does not depend on that class or
/// on the classes above it.
pub proof fn lemma_drained_below_unchanged<P>(
    pending: Seq<Seq<P>>,
    changed: Seq<Seq<P>>,
    index: nat,
)
    requires
        index <= pending.len(),
        index <= changed.len(),
        forall|c: int| 0 <= c < index ==> pending[c] == changed[c],
    ensures
        drained_below(pending, index) == drained_below(changed, index),
    decreases index,
{
    if index > 0 {
        lemma_drained_below_unchanged(pending, changed, (index - 1) as nat);
    }
}

/// Going on to the class at which the drain settles does not change what
/// the drain yields.
pub proof fn lemma_settled_drains_the_same<P>(pending: Seq<Seq<P>>, index: nat, left: nat)
    requires
        index <= pending.len(),
    ensures
        ({
            let (at, count) = settled(pending, index, left);
            &&& drained_from(pending, index, left) == drained_from(pending, at, count)
            &&& at <= index
            &&& left > 0 ==> at == index && count == left
            &&& left == 0 && count > 0 ==> at < index && count == batch_size(pending[at as int].len())
        }),
    decreases index,
{
    if left == 0 && index > 0 {
        let count = batch_size(pending[index - 1].len());
        lemma_settled_drains_the_same(pending, (index - 1) as nat, count);
        if count == 0 {
            assert(newest_first(pending[index - 1], 0) =~= Seq::<P>::empty());
            assert(drained_below(pending, index) =~= drained_below(pending, (index - 1) as nat));
        }
    }
}

/// Each step of a drain takes what the drain as a whole yields first: a
/// drain that finds nothing yields nothing, and one that finds a message
/// yields that message and then what the drain yields from the state that
/// the step leaves.
pub proof fn lemma_next_follows_drain<P>(pending: Seq<Seq<P>>, index: nat, left: nat)
    requires
        index <= pending.len(),
        left > 0 ==> index < pending.len() && left <= pending[index as int].len(),
    ensures
        ({
            let (at, count) = settled(pending, index, left);
            &&& count == 0 ==> drained_from(pending, index, left) == Seq::<P>::empty()
            &&& count > 0 ==> drained_from(pending, index, left) == seq![
                pending[at as int].last(),
            ] + drained_from(
                pending.update(at as int, pending[at as int].drop_last()),
                at,
                (count - 1) as nat,
            )
        }),
{
    lemma_settled_drains_the_same(pending, index, left);
    let (at, count) = settled(pending, index, left);
    if count == 0 {
        lemma_settled_is_final(pending, index, left);
    } else {
        let items = pending[at as int];
        let after = pending.update(at as int, items.drop_last());
        lemma_drained_below_unchanged(pending, after, at);
        assert(newest_first(items, count) =~= seq![items.last()] + newest_first(
            items.drop_last(),
            (count - 1) as nat,
        ));
        if count == 1 {
            assert(newest_first(items.drop_last(), 0) =~= Seq::<P>::empty());
        }
        assert(drained_from(pending, at, count) =~= seq![items.last()] + drained_from(
            after,
            at,
            (count - 1) as nat,
        ));
    }
}

/// A drain settles with nothing to take only below the lowest class.
pub proof fn lemma_settled_is_final<P>(pending: Seq<Seq<P>>, index: nat, left: nat)
    ensures
        settled(pending, index, left).1 == 0 ==> settled(pending, index, left).0 == 0,
    decreases index,
{
    if left == 0 && index > 0 {
        lemma_settled_is_final(pending, (index - 1) as nat, batch_size(pending[index - 1].len()));
    }
}

/// A whole drain yields each message of each batch exactly once: what it
/// yields and what it leaves are together the messages that were pending.
/// Where no size class holds more than a batch, the drain yields every
/// pending message exactly once and leaves none.
pub proof fn lemma_drain_yields_each_once<P>(pending: Seq<Seq<P>>, index: nat)
    requires
        index <= pending.len(),
    ensures
        drained_below(pending, index).to_multiset().add(
            messages_below(kept(pending), index).to_multiset(),
        ) == messages_below(pending, index).to_multiset(),
        (forall|c: int| 0 <= c < index ==> (#[trigger] pending[c]).len() <= MAX_MESSAGES_AT_ONCE)
            ==> drained_below(pending, index).to_multiset() == messages_below(
            pending,
            index,
        ).to_multiset() && messages_below(kept(pending), index) == Seq::<P>::empty(),
    decreases index,
{
    if index > 0 {
        let below = (index - 1) as nat;
        lemma_drain_yields_each_once(pending, below);
        let items = pending[index - 1];
        let count = batch_size(items.len());
        let taken = items.skip(items.len() - count);
        let left = items.take(items.len() - count);
        assert(kept(pending)[index - 1] == left);
        assert(left + taken =~= items);
        taken.lemma_reverse_to_multiset();
        vstd::seq_lib::lemma_multiset_commutative(left, taken);
        vstd::seq_lib::lemma_multiset_commutative(
            newest_first(items, count),
            drained_below(pending, below),
        );
        vstd::seq_lib::lemma_multiset_commutative(messages_below(kept(pending), below), left);
        vstd::seq_lib::lemma_multiset_commutative(messages_below(pending, below), items);
        assert(drained_below(pending, index).to_multiset().add(
            messages_below(kept(pending), index).to_multiset(),
        ) =~= messages_below(pending, index).to_multiset());
        if forall|c: int| 0 <= c < index ==> (#[trigger] pending[c]).len() <= MAX_MESSAGES_AT_ONCE {
            assert(pending[index - 1].len() <= MAX_MESSAGES_AT_ONCE);
            assert(left =~= Seq::<P>::empty());
            assert(taken =~= items);
            assert(messages_below(kept(pending), index) =~= Seq::<P>::empty());
            assert(drained_below(pending, index).to_multiset() =~= messages_below(
                pending,
                index,
            ).to_multiset());
        }
    } else {
        vstd::seq_lib::lemma_multiset_commutative(Seq::<P>::empty(), Seq::<P>::empty());
        assert(Seq::<P>::empty() + Seq::<P>::empty() =~= Seq::<P>::empty());
    }
}

/// Every stored packet is a compact copy that fits into a slot of its size
/// class, with its dynamic part directly behind its fixed-size part.
pub open spec fn stored_compactly<M: Message>(queues: &MultiSized<Packet<M>>) -> bool {
    &&& queues.wf()
    &&& forall|c: int, i: int|
        0 <= c < queues@.len() && 0 <= i < queues@[c].len() ==> {
            let packet = #[trigger] queues@[c][i];
            &&& packet.wf()
            &&& packet.spec_is_still_compact()
            &&& packet.spec_laid_out_at(vstd::layout::size_of::<Packet<M>>() as int)
            &&& spec_total_size_bytes(&packet) <= queues.spec_slot_size_of(c as nat)
        }
}

/// Stores the messages for the actors of one type until they are drained
pub struct Inbox<M> {
    queues: MultiSized<Packet<M>>,
}

impl<M> Inbox<M> {
    /// The queues of the size classes, smallest class first.
    pub closed spec fn spec_queues(&self) -> MultiSized<Packet<M>> {
        self.queues
    }
}

impl<M> View for Inbox<M> {
    type V = Seq<Seq<Packet<M>>>;

    /// The waiting packets of each size class, in the order in which they
    /// were put.
    open spec fn view(&self) -> Seq<Seq<Packet<M>>> {
        self.spec_queues()@
    }
}

impl<M: Message> Inbox<M> {
    /// The packets are stored compactly in queues that are in order.
    pub open spec fn wf(&self) -> bool {
        stored_compactly(&self.spec_queues())
    }

    /// Slot size of the smallest size class.
    pub open spec fn spec_base_size(&self) -> usize {
        self.spec_queues().spec_base_size()
    }

    /// Bytes per chunk.
    pub open spec fn spec_chunk_size(&self) -> usize {
        self.spec_queues().spec_chunk_size()
    }

    /// The size class of packets of `size` bytes.
    pub open spec fn spec_class_of(&self, size: nat) -> nat {
        self.spec_queues().spec_class_of(size)
    }

    /// Slot size of size class `class`.
    pub open spec fn spec_slot_size_of(&self, class: nat) -> nat {
        self.spec_queues().spec_slot_size_of(class)
    }

    /// Number of packets that wait in size class `class`.
    pub open spec fn spec_pending_in(&self, class: nat) -> nat {
        if class < self@.len() {
            self@[class as int].len()
        } else {
            0
        }
    }

    /// Create new inbox for a given type
    pub fn new() -> (r: Self)
        ensures
            r.wf(),
            r@ == Seq::<Seq<Packet<M>>>::empty(),
            r.spec_base_size() == M::spec_typical_size(),
            r.spec_chunk_size() == CHUNK_SIZE,
    {
        let chunker = MemChunker::new(CHUNK_SIZE);
        Inbox { queues: MultiSized::new(chunker, M::typical_size()) }
    }

    /// An inbox whose smallest size class has slots of `typical_size` bytes
    /// and whose chunks have `chunk_size` bytes.
    pub fn with_sizes(typical_size: usize, chunk_size: usize) -> (r: Self)
        requires
            typical_size >= 1,
        ensures
            r.wf(),
            r@ == Seq::<Seq<Packet<M>>>::empty(),
            r.spec_base_size() == typical_size,
            r.spec_chunk_size() == chunk_size,
    {
        let chunker = MemChunker::new(chunk_size);
        Inbox { queues: MultiSized::new(chunker, typical_size) }
    }

    /// The queues of the size classes, smallest class first.
    pub fn queues(&self) -> (r: &MultiSized<Packet<M>>)
        ensures
            *r == self.spec_queues(),
    {
        &self.queues
    }

    /// Place a new message in the Inbox: a compact copy of `package` goes
    /// into the next slot of the smallest size class that holds it.
    pub fn put(&mut self, package: Packet<M>)
        requires
            old(self).wf(),
            package.wf(),
            old(self).spec_slot_size_of(old(self).spec_class_of(spec_total_size_bytes(&package)))
                <= old(self).spec_chunk_size(),
            old(self).spec_pending_in(old(self).spec_class_of(spec_total_size_bytes(&package)))
                < usize::MAX,
        ensures
            final(self).wf(),
            final(self).spec_base_size() == old(self).spec_base_size(),
            final(self).spec_chunk_size() == old(self).spec_chunk_size(),
            ({
                let class = old(self).spec_class_of(spec_total_size_bytes(&package)) as int;
                let before = extended(old(self)@, (class + 1) as nat);
                &&& final(self)@.len() == before.len()
                &&& forall|c: int|
                    0 <= c < before.len() && c != class ==> #[trigger] final(self)@[c] == before[c]
                &&& final(self)@[class].len() == before[class].len() + 1
                &&& final(self)@[class].drop_last() == before[class]
                &&& final(self)@[class].last().content() == package.content()
            }),
    {
        proof {
            crate::chunked::lemma_class_of_is_smallest_fit(
                self.spec_base_size() as nat,
                spec_total_size_bytes(&package),
            );
        }
        let required_size = total_size_bytes(&package);
        let ghost class = self.spec_class_of(required_size as nat) as int;
        let ghost before = extended(self@, (class + 1) as nat);
        let queue = self.queues.sized_for_mut(required_size);
        let mut stored = package.decompact();
        compact_behind_from(&mut stored, &package, queue.slot_size());
        queue.enqueue(stored);
        proof {
            assert(self@[class] == before[class].push(stored));
            assert(self@[class].drop_last() =~= before[class]);
            assert forall|c: int, i: int|
                0 <= c < self@.len() && 0 <= i < self@[c].len() implies {
                let packet = #[trigger] self@[c][i];
                &&& packet.wf()
                &&& packet.spec_is_still_compact()
                &&& packet.spec_laid_out_at(vstd::layout::size_of::<Packet<M>>() as int)
                &&& spec_total_size_bytes(&packet) <= self.queues.spec_slot_size_of(c as nat)
            } by {
                if c == class {
                    if i < before[c].len() {
                        assert(self@[c][i] == before[c][i]);
                    }
                } else {
                    assert(self@[c] == before[c]);
                }
                if c < old(self)@.len() && i < old(self)@[c].len() {
                    assert(before[c][i] == old(self)@[c][i]);
                }
            }
        }
    }

    /// Create an iterator which iterates through all messages and deletes them
    pub fn empty(&mut self) -> (it: InboxIterator<'_, M>)
        requires
            old(self).wf(),
        ensures
            it.wf(),
            *it.spec_queues() == old(self).spec_queues(),
            it.spec_index() == old(self)@.len(),
            it.spec_left() == 0,
            final(self).spec_queues() == *final(it.spec_queues()),
    {
        // one higher than last index, first next() will init messages left
        let start_queue_index = self.queues.len();
        InboxIterator {
            queues: &mut self.queues,
            current_sized_queue_index: start_queue_index,
            messages_in_sized_queue_left: 0,
        }
    }
}

/// once created, reads all messages that are there roughly at the point of creation
/// that means that once it terminates there might already be new messages in the inbox
pub struct InboxIterator<'a, M> {
    queues: &'a mut MultiSized<Packet<M>>,
    current_sized_queue_index: usize,
    messages_in_sized_queue_left: usize,
}

impl<'a, M: Message> InboxIterator<'a, M> {
    /// The queues of the inbox that is drained.
    pub closed spec fn spec_queues(&self) -> &'a mut MultiSized<Packet<M>> {
        self.queues
    }

    /// The packets that wait in the inbox at this point, by size class.
    pub open spec fn pending(&self) -> Seq<Seq<Packet<M>>> {
        self.spec_queues()@
    }

    /// The size class that is drained at the moment; the classes from this
    /// one on have had their turn.
    pub closed spec fn spec_index(&self) -> nat {
        self.current_sized_queue_index as nat
    }

    /// Messages still to take from the current size class.
    pub closed spec fn spec_left(&self) -> nat {
        self.messages_in_sized_queue_left as nat
    }

    /// The packets are stored as an inbox stores them, and the current
    /// size class holds the messages that are still to be taken from it.
    pub open spec fn wf(&self) -> bool {
        &&& stored_compactly(self.spec_queues())
        &&& self.spec_index() <= self.pending().len()
        &&& self.spec_left() > 0 ==> {
            &&& self.spec_index() < self.pending().len()
            &&& self.spec_left() <= self.pending()[self.spec_index() as int].len()
        }
    }

    /// Once the iterator is not used any more, the inbox is left with what
    /// is pending then.
    pub proof fn lemma_finished(self)
        requires
            has_resolved(self),
        ensures
            *final(self.spec_queues()) == *self.spec_queues(),
    {
    }

    /// The next message, if the drain is not over: the newest one that is
    /// left of the current batch, or else of the batch of the next lower
    /// size class that holds any message.
    pub fn next(&mut self) -> (r: Option<Packet<M>>)
        requires
            old(self).wf(),
        ensures
            final(self).wf(),
            *final(final(self).spec_queues()) == *final(old(self).spec_queues()),
            final(self).spec_queues().spec_base_size() == old(self).spec_queues().spec_base_size(),
            final(self).spec_queues().spec_chunk_size() == old(self).spec_queues().spec_chunk_size(),
            ({
                let (index, left) = settled(
                    old(self).pending(),
                    old(self).spec_index(),
                    old(self).spec_left(),
                );
                &&& final(self).spec_index() == index
                &&& left == 0 ==> {
                    &&& r is None
                    &&& final(self).spec_left() == 0
                    &&& final(self).pending() == old(self).pending()
                }
                &&& left > 0 ==> {
                    &&& r == Some(old(self).pending()[index as int].last())
                    &&& final(self).spec_left() == left - 1
                    &&& final(self).pending() == old(self).pending().update(
                        index as int,
                        old(self).pending()[index as int].drop_last(),
                    )
                }
            }),
            r matches Some(packet) ==> packet.wf() && packet.spec_is_still_compact(),
    {
        while self.messages_in_sized_queue_left == 0
            invariant
                self.wf(),
                self.queues == old(self).queues,
                settled(self.pending(), self.spec_index(), self.spec_left()) == settled(
                    old(self).pending(),
                    old(self).spec_index(),
                    old(self).spec_left(),
                ),
            decreases self.current_sized_queue_index,
        {
            // Sized queue empty
            if self.current_sized_queue_index == 0 {
                // Completely empty
                return None;
            }
            // Get index of the next sized queue
            self.current_sized_queue_index -= 1;
            let in_queue = self.queues.get(self.current_sized_queue_index).len();
            self.messages_in_sized_queue_left = if in_queue > MAX_MESSAGES_AT_ONCE {
                MAX_MESSAGES_AT_ONCE
            } else {
                in_queue
            };
        }
        let ghost before = self.queues@;
        let ghost index = self.current_sized_queue_index as int;
        let message = self.queues.get_mut(self.current_sized_queue_index).dequeue();
        self.messages_in_sized_queue_left -= 1;
        proof {
            assert(self.queues@ =~= before.update(index, before[index].drop_last()));
            assert forall|c: int, i: int|
                0 <= c < self.queues@.len() && 0 <= i < self.queues@[c].len() implies {
                let packet = #[trigger] self.queues@[c][i];
                &&& packet.wf()
                &&& packet.spec_is_still_compact()
                &&& packet.spec_laid_out_at(vstd::layout::size_of::<Packet<M>>() as int)
                &&& spec_total_size_bytes(&packet) <= self.queues.spec_slot_size_of(c as nat)
            } by {
                assert(self.queues@[c][i] == before[c][i]);
            }
            assert(before[index].last() == before[index][before[index].len() - 1]);
        }
        message
    }
}

} // verus!
