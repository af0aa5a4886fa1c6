//! The storage substrate of an actor runtime, verified with Verus.
//!
//! Actor state and messages are values that can be laid out compactly in
//! one contiguous region: [`Compact`] is their contract, [`CompactVec`] and
//! [`CompactDict`] are the containers built on it, and [`Inbox`] stores the
//! messages for the actors of one type in slots of a fitting size class.
//! The modules `pathfinding`, `stroke_canvas` and `ui` hold the decisions of
//! actors that keep their state in these containers.

pub mod chunked;
pub mod compact;
pub mod compact_dict;
pub mod compact_vec;
pub mod inbox;
pub mod messaging;
pub mod pathfinding;
pub mod pointer_to_maybe_compact;
pub mod stroke_canvas;
pub mod ui;

pub use compact::{Compact, Region};
pub use compact_dict::CompactDict;
pub use compact_vec::CompactVec;
pub use inbox::{Inbox, InboxIterator};
pub use messaging::{Message, Packet, ID};
pub use pointer_to_maybe_compact::PointerToMaybeCompact;
