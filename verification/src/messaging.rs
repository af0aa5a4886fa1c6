//! What actors send to each other.

use vstd::prelude::*;

use vstd::std_specs::cmp::PartialEqSpecImpl;

use crate::compact::{Compact, Region};

verus! {

/// Names one actor: its type, the generation of the slot that it lives in,
/// and the slot.
#[derive(Clone, Copy, Debug, Eq, Hash)]
pub struct ID {
    pub type_id: u16,
    pub version: u8,
    pub instance_id: u32,
}

impl PartialEq for ID {
    fn eq(&self, other: &Self) -> (r: bool) {
        self.type_id == other.type_id && self.version == other.version && self.instance_id
            == other.instance_id
    }
}

impl PartialEqSpecImpl for ID {
    open spec fn obeys_eq_spec() -> bool {
        true
    }

    open spec fn eq_spec(&self, other: &Self) -> bool {
        self.type_id == other.type_id && self.version == other.version && self.instance_id
            == other.instance_id
    }
}

/// Two IDs compare equal exactly if they are the same ID.
pub proof fn lemma_id_equality()
    ensures
        vstd::laws_eq::obeys_concrete_eq::<ID>(),
{
    reveal(vstd::laws_eq::obeys_concrete_eq);
}

impl ID {
    pub fn new(type_id: u16, instance_id: u32, version: u8) -> (r: Self)
        ensures
            r == (ID { type_id, version, instance_id }),
    {
        ID { type_id, version, instance_id }
    }
}

/// A value that can be sent to an actor.
pub trait Message: Compact {
    /// Size in bytes that a stored message of this type usually has; the
    /// slot size of the smallest size class of an inbox for this type.
    spec fn spec_typical_size() -> usize;

    fn typical_size() -> (r: usize)
        ensures
            r == Self::spec_typical_size(),
            r >= 1,
    ;
}

/// Every compact-aware value is a message. Its packet without any dynamic
/// payload is its typical size.
impl<T: Compact> Message for T {
    open spec fn spec_typical_size() -> usize {
        if vstd::layout::size_of::<Packet<T>>() as usize == 0 {
            1
        } else {
            vstd::layout::size_of::<Packet<T>>() as usize
        }
    }

    fn typical_size() -> (r: usize) {
        let size = core::mem::size_of::<Packet<T>>();
        if size == 0 {
            1
        } else {
            size
        }
    }
}

/// A message together with the actor that is to get it.
pub struct Packet<M> {
    pub recipient_id: Option<ID>,
    pub message: M,
}

impl<M: Compact> Compact for Packet<M> {
    type Content = (Option<ID>, M::Content);

    open spec fn wf(&self) -> bool {
        self.message.wf()
    }

    open spec fn content(&self) -> (Option<ID>, M::Content) {
        (self.recipient_id, self.message.content())
    }

    open spec fn spec_is_still_compact(&self) -> bool {
        self.message.spec_is_still_compact()
    }

    open spec fn spec_is_independent(&self) -> bool {
        self.message.spec_is_independent()
    }

    open spec fn spec_dynamic_size_bytes(&self) -> nat {
        self.message.spec_dynamic_size_bytes()
    }

    open spec fn spec_laid_out_at(&self, start: int) -> bool {
        self.message.spec_laid_out_at(start)
    }

    fn is_still_compact(&self) -> (r: bool) {
        self.recipient_id.is_still_compact() && self.message.is_still_compact()
    }

    fn dynamic_size_bytes(&self) -> (r: usize) {
        self.recipient_id.dynamic_size_bytes() + self.message.dynamic_size_bytes()
    }

    fn compact_from(&mut self, source: &Self, region: &mut Region) {
        self.recipient_id.compact_from(&source.recipient_id, region);
        self.message.compact_from(&source.message, region);
    }

    fn decompact(&self) -> (r: Self) {
        Packet { recipient_id: self.recipient_id.decompact(), message: self.message.decompact() }
    }
}

} // verus!
