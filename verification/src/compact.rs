//! The contract of a value that can be stored compactly, and the cursor that
//! hands out the bytes of a destination region.

use vstd::prelude::*;

verus! {

/// A write cursor over a destination region of fixed capacity.
///
/// Every reservation is a fresh range directly behind the previous one, so
/// ranges handed out never overlap, and the cursor records how many bytes
/// have been given away in total.
pub struct Region {
    used: usize,
    remaining: usize,
}

impl Region {
    #[verifier::type_invariant]
    spec fn inv(&self) -> bool {
        self.used + self.remaining <= usize::MAX
    }

    /// Bytes handed out so far; also the offset of the next reservation.
    pub closed spec fn spec_used(&self) -> usize {
        self.used
    }

    /// Bytes that can still be reserved.
    pub closed spec fn spec_remaining(&self) -> usize {
        self.remaining
    }

    /// Total bytes of the region.
    pub open spec fn spec_capacity(&self) -> nat {
        (self.spec_used() + self.spec_remaining()) as nat
    }

    /// An untouched region of `capacity` bytes.
    pub fn new(capacity: usize) -> (r: Self)
        ensures
            r.spec_used() == 0,
            r.spec_remaining() == capacity,
    {
        Region { used: 0, remaining: capacity }
    }

    /// A region of `capacity` bytes whose first `header` bytes are taken by
    /// the fixed-size part of the value that will be written into it.
    pub fn behind_header(capacity: usize, header: usize) -> (r: Self)
        requires
            header <= capacity,
        ensures
            r.spec_used() == header,
            r.spec_remaining() == capacity - header,
    {
        Region { used: header, remaining: capacity - header }
    }

    pub fn capacity(&self) -> (r: usize)
        ensures
            r == self.spec_capacity(),
    {
        proof {
            use_type_invariant(self);
        }
        self.used + self.remaining
    }

    pub fn used(&self) -> (r: usize)
        ensures
            r == self.spec_used(),
    {
        self.used
    }

    pub fn remaining(&self) -> (r: usize)
        ensures
            r == self.spec_remaining(),
    {
        self.remaining
    }

    /// Reserves the next `bytes` bytes and returns the offset at which they
    /// start.
    pub fn reserve(&mut self, bytes: usize) -> (offset: usize)
        requires
            bytes <= old(self).spec_remaining(),
        ensures
            offset == old(self).spec_used(),
            final(self).spec_used() == old(self).spec_used() + bytes,
            final(self).spec_remaining() == old(self).spec_remaining() - bytes,
    {
        proof {
            use_type_invariant(&*self);
        }
        let offset = self.used;
        let used = self.used + bytes;
        let remaining = self.remaining - bytes;
        *self = Region { used, remaining };
        offset
    }
}

/// A value that knows how much variable-length payload it owns and can
/// rebuild itself, payload included, inside a region supplied by the caller.
pub trait Compact: Sized {
    /// What a field-by-field comparison of two values observes: the stored
    /// data without capacities and storage locations.
    type Content;

    /// The value's own invariant.
    spec fn wf(&self) -> bool;

    spec fn content(&self) -> Self::Content;

    /// Every dynamic part of the value is stored in the value's own region.
    spec fn spec_is_still_compact(&self) -> bool;

    /// No dynamic part of the value is stored in a region: each has a heap
    /// block of its own.
    spec fn spec_is_independent(&self) -> bool;

    /// Bytes of variable-length payload that the value owns, nested payloads
    /// included.
    spec fn spec_dynamic_size_bytes(&self) -> nat;

    /// The dynamic parts of the value fill the region from offset `start` on
    /// without gaps: first the value's own payload, then that of each nested
    /// part in turn.
    spec fn spec_laid_out_at(&self, start: int) -> bool;

    fn is_still_compact(&self) -> (r: bool)
        requires
            self.wf(),
        ensures
            r == self.spec_is_still_compact(),
    ;

    fn dynamic_size_bytes(&self) -> (r: usize)
        requires
            self.wf(),
            self.spec_dynamic_size_bytes() <= usize::MAX,
        ensures
            r == self.spec_dynamic_size_bytes(),
    ;

    /// Makes `self` a compact copy of `source` whose dynamic parts occupy
    /// the next `source.dynamic_size_bytes()` bytes of `region`.
    fn compact_from(&mut self, source: &Self, region: &mut Region)
        requires
            old(self).wf(),
            source.wf(),
            source.spec_dynamic_size_bytes() <= old(region).spec_remaining(),
        ensures
            final(self).wf(),
            final(self).content() == source.content(),
            final(self).spec_is_still_compact(),
            final(self).spec_laid_out_at(old(region).spec_used() as int),
            final(self).spec_dynamic_size_bytes() == source.spec_dynamic_size_bytes(),
            final(region).spec_used() == old(region).spec_used()
                + source.spec_dynamic_size_bytes(),
            final(region).spec_remaining() == old(region).spec_remaining()
                - source.spec_dynamic_size_bytes(),
    ;

    /// An owned copy that does not depend on any region.
    fn decompact(&self) -> (r: Self)
        requires
            self.wf(),
        ensures
            r.wf(),
            r.content() == self.content(),
            r.spec_is_independent(),
    ;
}

/// Bytes of the fixed-size part of `value` together with its dynamic
/// payload.
pub open spec fn spec_total_size_bytes<T: Compact>(value: &T) -> nat {
    vstd::layout::size_of::<T>() + value.spec_dynamic_size_bytes()
}

/// Bytes of the fixed-size part of `value` together with its dynamic
/// payload.
pub fn total_size_bytes<T: Compact>(value: &T) -> (r: usize)
    requires
        value.wf(),
        spec_total_size_bytes(value) <= usize::MAX,
    ensures
        r == spec_total_size_bytes(value),
{
    value.dynamic_size_bytes() + core::mem::size_of::<T>()
}

/// Makes `target` a compact copy of `source` inside a slot of `room` bytes,
/// with the dynamic parts directly behind the fixed-size part.
pub fn compact_behind_from<T: Compact>(target: &mut T, source: &T, room: usize)
    requires
        old(target).wf(),
        source.wf(),
        spec_total_size_bytes(source) <= room,
    ensures
        is_compact_copy(*final(target), *source, vstd::layout::size_of::<T>() as int),
{
    let mut region = Region::behind_header(room, core::mem::size_of::<T>());
    target.compact_from(source, &mut region);
}

/// What `compact_from` makes of `source` at offset `start` of a region:
/// `copy` holds the same content in the same number of bytes, all of it
/// inside that region.
pub open spec fn is_compact_copy<T: Compact>(copy: T, source: T, start: int) -> bool {
    &&& copy.wf()
    &&& copy.content() == source.content()
    &&& copy.spec_is_still_compact()
    &&& copy.spec_laid_out_at(start)
    &&& copy.spec_dynamic_size_bytes() == source.spec_dynamic_size_bytes()
}

/// What `decompact` makes of `source`: `owned` holds the same content and
/// depends on no region.
pub open spec fn is_decompacted<T: Compact>(owned: T, source: T) -> bool {
    &&& owned.wf()
    &&& owned.content() == source.content()
    &&& owned.spec_is_independent()
}

/// Decompacting a value, or decompacting a compact copy of it, gives an
/// owned value with the content of that value.
pub proof fn lemma_round_trip<T: Compact>(source: T, copy: T, restored: T, start: int)
    requires
        is_compact_copy(copy, source, start),
        is_decompacted(restored, copy) || is_decompacted(restored, source),
    ensures
        restored.content() == source.content(),
        restored.wf(),
        restored.spec_is_independent(),
{
}

/// A value that can be copied bit by bit owns no dynamic payload: it is
/// always compact, and copying it is all that compaction has to do.
impl<T: Copy> Compact for T {
    type Content = T;

    open spec fn wf(&self) -> bool {
        true
    }

    open spec fn content(&self) -> T {
        *self
    }

    open spec fn spec_is_still_compact(&self) -> bool {
        true
    }

    open spec fn spec_is_independent(&self) -> bool {
        true
    }

    open spec fn spec_dynamic_size_bytes(&self) -> nat {
        0
    }

    open spec fn spec_laid_out_at(&self, start: int) -> bool {
        true
    }

    fn is_still_compact(&self) -> (r: bool) {
        true
    }

    fn dynamic_size_bytes(&self) -> (r: usize) {
        0
    }

    fn compact_from(&mut self, source: &Self, region: &mut Region) {
        *self = *source;
    }

    fn decompact(&self) -> (r: Self) {
        *self
    }
}

} // verus!
