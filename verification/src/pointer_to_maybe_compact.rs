//! Where the dynamic payload of a value lives.

use vstd::prelude::*;

verus! {

/// Location of a payload: either inside the region that also holds the
/// owning value, or in a heap block that the owner holds alone.
///
/// The tag is part of the value, so the owner always knows which mode it is
/// in without consulting anything else.
#[derive(Clone, Copy, Debug, PartialEq, Eq, Structural)]
pub enum PointerToMaybeCompact {
    /// The payload starts `offset` bytes into the enclosing region.
    Embedded { offset: usize },
    /// The payload has its own heap block.
    Spilled,
}

impl PointerToMaybeCompact {
    /// A pointer to embedded storage at `offset`.
    pub fn new_compact(offset: usize) -> (r: Self)
        ensures
            r == (PointerToMaybeCompact::Embedded { offset }),
    {
        PointerToMaybeCompact::Embedded { offset }
    }

    /// A pointer to spilled storage.
    pub fn new_free() -> (r: Self)
        ensures
            r == PointerToMaybeCompact::Spilled,
    {
        PointerToMaybeCompact::Spilled
    }

    /// Whether the payload is stored in the enclosing region.
    pub fn is_compact(&self) -> (r: bool)
        ensures
            r == (*self is Embedded),
    {
        match self {
            PointerToMaybeCompact::Embedded { .. } => true,
            PointerToMaybeCompact::Spilled => false,
        }
    }

    /// The offset of embedded storage; `None` for spilled storage.
    pub fn offset(&self) -> (r: Option<usize>)
        ensures
            r == (match *self {
                PointerToMaybeCompact::Embedded { offset } => Some(offset),
                PointerToMaybeCompact::Spilled => None,
            }),
    {
        match self {
            PointerToMaybeCompact::Embedded { offset } => Some(*offset),
            PointerToMaybeCompact::Spilled => None,
        }
    }

    /// Points this at embedded storage at `offset`.
    pub fn set_to_compact(&mut self, offset: usize)
        ensures
            *final(self) == (PointerToMaybeCompact::Embedded { offset }),
    {
        *self = PointerToMaybeCompact::Embedded { offset };
    }

    /// Points this at spilled storage.
    pub fn set_to_free(&mut self)
        ensures
            *final(self) == PointerToMaybeCompact::Spilled,
    {
        *self = PointerToMaybeCompact::Spilled;
    }
}

} // verus!
