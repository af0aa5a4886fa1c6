//! The landmark protocol by which the lanes of a road network learn routes:
//! what a lane knows, and what it changes and sends when it is built,
//! connected, ticked or told something by a neighbour.
//!
//! A distance is kept as the bit pattern of the number that the caller
//! works with. This module stores distances and hands them out; it never
//! compares or adds them.

use vstd::prelude::*;
use vstd::std_specs::cmp::PartialEqSpecImpl;

use crate::compact::{Compact, Region};
use crate::compact_dict::{
    distinct_keys, lemma_position_of_absent, promoted_to_front, value_of, with_entry, without_key,
    CompactDict,
};
use crate::compact_vec::CompactVec;
use crate::messaging::{lemma_id_equality, ID};

verus! {

/// A lane that can be routed to, together with the landmark of its
/// neighbourhood.
#[derive(Copy, Clone, Eq, Debug)]
pub struct Destination {
    pub landmark: ID,
    pub node: ID,
}

impl PartialEq for Destination {
    fn eq(&self, other: &Self) -> (r: bool) {
        self.landmark == other.landmark && self.node == other.node
    }
}

impl PartialEqSpecImpl for Destination {
    open spec fn obeys_eq_spec() -> bool {
        true
    }

    open spec fn eq_spec(&self, other: &Self) -> bool {
        self.landmark == other.landmark && self.node == other.node
    }
}

/// Two destinations compare equal exactly if they are the same destination.
pub proof fn lemma_destination_equality()
    ensures
        vstd::laws_eq::obeys_concrete_eq::<Destination>(),
{
    reveal(vstd::laws_eq::obeys_concrete_eq);
}

impl Destination {
    /// The destination that is the landmark `landmark` itself.
    pub fn landmark(landmark: ID) -> (r: Self)
        ensures
            r == (Destination { landmark, node: landmark }),
    {
        Destination { landmark: landmark, node: landmark }
    }

    pub fn is_landmark(&self) -> (r: bool)
        ensures
            r == (self.landmark == self.node),
    {
        self.landmark == self.node
    }

    pub fn landmark_destination(&self) -> (r: Self)
        ensures
            r == (Destination { landmark: self.landmark, node: self.landmark }),
    {
        Self::landmark(self.landmark)
    }
}

/// What a lane knows about one route.
#[derive(Copy, Clone, Debug)]
pub struct RoutingInfo {
    /// Place of the interaction through which the route leaves the lane.
    pub outgoing_idx: u8,
    /// Bit pattern of the distance to the destination.
    pub distance: u32,
    pub distance_hops: u8,
    pub learned_from: ID,
    pub fresh: bool,
}

/// How two lanes overlap.
#[derive(Copy, Clone, Debug)]
pub enum OverlapKind {
    Parallel,
    Transfer,
    Conflicting,
}

/// What a partner lane is to a lane.
#[derive(Copy, Clone, Debug)]
pub enum InteractionKind {
    Overlap { kind: OverlapKind },
    Next,
    Previous,
}

/// A connection of a lane to a partner lane.
#[derive(Copy, Clone, Debug)]
pub struct Interaction {
    pub partner_lane: ID,
    pub kind: InteractionKind,
}

impl Interaction {
    /// Cars can go on from the lane to the partner.
    pub open spec fn spec_leads_on(&self) -> bool {
        match self.kind {
            InteractionKind::Overlap { kind: OverlapKind::Transfer } => true,
            InteractionKind::Next => true,
            _ => false,
        }
    }

    /// Cars can come to the lane from the partner.
    pub open spec fn spec_leads_here(&self) -> bool {
        match self.kind {
            InteractionKind::Overlap { kind: OverlapKind::Transfer } => true,
            InteractionKind::Previous => true,
            _ => false,
        }
    }

    /// The partner is reached by changing lanes.
    pub open spec fn spec_is_transfer(&self) -> bool {
        self.kind matches InteractionKind::Overlap { kind: OverlapKind::Transfer }
    }

    pub fn leads_on(&self) -> (r: bool)
        ensures
            r == self.spec_leads_on(),
    {
        match self.kind {
            InteractionKind::Overlap { kind: OverlapKind::Transfer } => true,
            InteractionKind::Next => true,
            _ => false,
        }
    }

    pub fn leads_here(&self) -> (r: bool)
        ensures
            r == self.spec_leads_here(),
    {
        match self.kind {
            InteractionKind::Overlap { kind: OverlapKind::Transfer } => true,
            InteractionKind::Previous => true,
            _ => false,
        }
    }

    pub fn is_transfer(&self) -> (r: bool)
        ensures
            r == self.spec_is_transfer(),
    {
        match self.kind {
            InteractionKind::Overlap { kind: OverlapKind::Transfer } => true,
            _ => false,
        }
    }
}

/// Ticks that a lane waits after a change before it tells its neighbours.
pub const ROUTING_TIMEOUT_AFTER_CHANGE: u16 = 15;

/// Lanes that must lead to a lane for it to make itself a landmark.
pub const MIN_LANDMARK_INCOMING: usize = 3;

/// Hops from a landmark up to which lanes join it and routes are kept.
pub const IDEAL_LANDMARK_RADIUS: u8 = 3;

/// What a lane knows, as plain values.
pub struct Knowledge {
    pub as_destination: Option<Destination>,
    pub hops_from_landmark: u8,
    pub learned_landmark_from: Option<ID>,
    pub routes: Seq<(Destination, RoutingInfo)>,
    pub routes_changed: bool,
    pub tell_to_forget_next_tick: Seq<Destination>,
    pub query_routes_next_tick: bool,
    pub routing_timeout: u16,
}

/// What a lane knows about its place in the network and about routes.
pub struct PathfindingInfo {
    pub as_destination: Option<Destination>,
    pub hops_from_landmark: u8,
    pub learned_landmark_from: Option<ID>,
    pub routes: CompactDict<Destination, RoutingInfo>,
    pub routes_changed: bool,
    pub tell_to_forget_next_tick: CompactVec<Destination>,
    pub query_routes_next_tick: bool,
    pub routing_timeout: u16,
}

impl View for PathfindingInfo {
    type V = Knowledge;

    open spec fn view(&self) -> Knowledge {
        Knowledge {
            as_destination: self.as_destination,
            hops_from_landmark: self.hops_from_landmark,
            learned_landmark_from: self.learned_landmark_from,
            routes: self.routes@,
            routes_changed: self.routes_changed,
            tell_to_forget_next_tick: self.tell_to_forget_next_tick@,
            query_routes_next_tick: self.query_routes_next_tick,
            routing_timeout: self.routing_timeout,
        }
    }
}

impl Compact for PathfindingInfo {
    type Content = Knowledge;

    open spec fn wf(&self) -> bool {
        self.routes.wf() && self.tell_to_forget_next_tick.wf()
    }

    open spec fn content(&self) -> Knowledge {
        Knowledge {
            as_destination: self.as_destination,
            hops_from_landmark: self.hops_from_landmark,
            learned_landmark_from: self.learned_landmark_from,
            routes: self.routes.content(),
            routes_changed: self.routes_changed,
            tell_to_forget_next_tick: self.tell_to_forget_next_tick.content(),
            query_routes_next_tick: self.query_routes_next_tick,
            routing_timeout: self.routing_timeout,
        }
    }

    open spec fn spec_is_still_compact(&self) -> bool {
        self.routes.spec_is_still_compact() && self.tell_to_forget_next_tick.spec_is_still_compact()
    }

    open spec fn spec_is_independent(&self) -> bool {
        self.routes.spec_is_independent() && self.tell_to_forget_next_tick.spec_is_independent()
    }

    open spec fn spec_dynamic_size_bytes(&self) -> nat {
        self.routes.spec_dynamic_size_bytes()
            + self.tell_to_forget_next_tick.spec_dynamic_size_bytes()
    }

    open spec fn spec_laid_out_at(&self, start: int) -> bool {
        &&& self.routes.spec_laid_out_at(start)
        &&& self.tell_to_forget_next_tick.spec_laid_out_at(
            start + self.routes.spec_dynamic_size_bytes(),
        )
    }

    fn is_still_compact(&self) -> (r: bool) {
        self.as_destination.is_still_compact() && self.hops_from_landmark.is_still_compact()
            && self.learned_landmark_from.is_still_compact() && self.routes.is_still_compact()
            && self.routes_changed.is_still_compact()
            && self.tell_to_forget_next_tick.is_still_compact()
            && self.query_routes_next_tick.is_still_compact()
            && self.routing_timeout.is_still_compact()
    }

    fn dynamic_size_bytes(&self) -> (r: usize) {
        self.as_destination.dynamic_size_bytes() + self.hops_from_landmark.dynamic_size_bytes()
            + self.learned_landmark_from.dynamic_size_bytes() + self.routes.dynamic_size_bytes()
            + self.routes_changed.dynamic_size_bytes()
            + self.tell_to_forget_next_tick.dynamic_size_bytes()
            + self.query_routes_next_tick.dynamic_size_bytes()
            + self.routing_timeout.dynamic_size_bytes()
    }

    fn compact_from(&mut self, source: &Self, region: &mut Region) {
        self.as_destination.compact_from(&source.as_destination, region);
        self.hops_from_landmark.compact_from(&source.hops_from_landmark, region);
        self.learned_landmark_from.compact_from(&source.learned_landmark_from, region);
        self.routes.compact_from(&source.routes, region);
        self.routes_changed.compact_from(&source.routes_changed, region);
        self.tell_to_forget_next_tick.compact_from(&source.tell_to_forget_next_tick, region);
        self.query_routes_next_tick.compact_from(&source.query_routes_next_tick, region);
        self.routing_timeout.compact_from(&source.routing_timeout, region);
    }

    fn decompact(&self) -> (r: Self) {
        PathfindingInfo {
            as_destination: self.as_destination.decompact(),
            hops_from_landmark: self.hops_from_landmark.decompact(),
            learned_landmark_from: self.learned_landmark_from.decompact(),
            routes: self.routes.decompact(),
            routes_changed: self.routes_changed.decompact(),
            tell_to_forget_next_tick: self.tell_to_forget_next_tick.decompact(),
            query_routes_next_tick: self.query_routes_next_tick.decompact(),
            routing_timeout: self.routing_timeout.decompact(),
        }
    }
}

/// The lanes that cars can go on to, in the order of the interactions.
pub open spec fn spec_successors(interactions: Seq<Interaction>) -> Seq<ID> {
    interactions.filter(|i: Interaction| i.spec_leads_on()).map_values(
        |i: Interaction| i.partner_lane,
    )
}

/// The lanes that cars can come from among the first `count` interactions,
/// in their order: of each the place of its interaction, cut to eight bits,
/// the lane, and whether it is reached by changing lanes.
pub open spec fn spec_predecessors(interactions: Seq<Interaction>, count: nat) -> Seq<
    (u8, ID, bool),
>
    decreases count,
{
    if count == 0 || count > interactions.len() {
        Seq::empty()
    } else {
        let before = spec_predecessors(interactions, (count - 1) as nat);
        let interaction = interactions[count - 1];
        if interaction.spec_leads_here() {
            before.push(
                (
                    ((count - 1) % 256) as u8,
                    interaction.partner_lane,
                    interaction.spec_is_transfer(),
                ),
            )
        } else {
            before
        }
    }
}

/// The lanes that cars can go on to from a lane with `interactions`.
pub fn successors(interactions: &[Interaction]) -> (r: Vec<ID>)
    ensures
        r@ == spec_successors(interactions@),
{
    let mut r: Vec<ID> = Vec::new();
    let mut i: usize = 0;
    let ghost leads_on = |i: Interaction| i.spec_leads_on();
    let ghost partner = |i: Interaction| i.partner_lane;
    proof {
        assert(interactions@.take(0) =~= Seq::<Interaction>::empty());
        assert(interactions@.take(0).filter(leads_on) =~= Seq::<Interaction>::empty());
    }
    while i < interactions.len()
        invariant
            i <= interactions@.len(),
            leads_on == |i: Interaction| i.spec_leads_on(),
            partner == |i: Interaction| i.partner_lane,
            r@ == interactions@.take(i as int).filter(leads_on).map_values(partner),
        decreases interactions@.len() - i,
    {
        proof {
            assert(interactions@.take(i + 1).drop_last() =~= interactions@.take(i as int));
            reveal(Seq::filter);
        }
        if interactions[i].leads_on() {
            r.push(interactions[i].partner_lane);
            proof {
                assert(r@ =~= interactions@.take(i + 1).filter(leads_on).map_values(partner));
            }
        }
        i += 1;
    }
    proof {
        assert(interactions@.take(i as int) =~= interactions@);
    }
    r
}

/// The lanes that cars can come to a lane with `interactions` from.
pub fn predecessors(interactions: &[Interaction]) -> (r: Vec<(u8, ID, bool)>)
    ensures
        r@ == spec_predecessors(interactions@, interactions@.len()),
{
    let mut r: Vec<(u8, ID, bool)> = Vec::new();
    let mut i: usize = 0;
    while i < interactions.len()
        invariant
            i <= interactions@.len(),
            r@ == spec_predecessors(interactions@, i as nat),
        decreases interactions@.len() - i,
    {
        if interactions[i].leads_here() {
            r.push(((i % 256) as u8, interactions[i].partner_lane, interactions[i].is_transfer()));
        }
        i += 1;
    }
    r
}

/// Invites a lane to join the landmark of the sender.
#[derive(Copy, Clone, Debug)]
pub struct JoinLandmark {
    pub from: ID,
    pub join_as: Destination,
    pub hops_from_landmark: u8,
}

/// Asks a lane for the routes that it knows.
#[derive(Copy, Clone, Debug)]
pub struct QueryRoutes {
    pub requester: ID,
    pub is_transfer: bool,
}

/// Tells a lane which destinations can no longer be reached through the
/// sender.
pub struct ForgetRoutes {
    pub forget: CompactVec<Destination>,
    pub from: ID,
}

/// Asks a lane which destination it is.
#[derive(Copy, Clone, Debug)]
pub struct QueryAsDestination {
    pub requester: ID,
}

/// Tells which destination a lane is.
#[derive(Copy, Clone, Debug)]
pub struct TellAsDestination {
    pub id: ID,
    pub as_destination: Option<Destination>,
}

impl Compact for ForgetRoutes {
    type Content = (Seq<Destination>, ID);

    open spec fn wf(&self) -> bool {
        self.forget.wf()
    }

    open spec fn content(&self) -> (Seq<Destination>, ID) {
        (self.forget.content(), self.from)
    }

    open spec fn spec_is_still_compact(&self) -> bool {
        self.forget.spec_is_still_compact()
    }

    open spec fn spec_is_independent(&self) -> bool {
        self.forget.spec_is_independent()
    }

    open spec fn spec_dynamic_size_bytes(&self) -> nat {
        self.forget.spec_dynamic_size_bytes()
    }

    open spec fn spec_laid_out_at(&self, start: int) -> bool {
        self.forget.spec_laid_out_at(start)
    }

    fn is_still_compact(&self) -> (r: bool) {
        self.forget.is_still_compact() && self.from.is_still_compact()
    }

    fn dynamic_size_bytes(&self) -> (r: usize) {
        self.forget.dynamic_size_bytes() + self.from.dynamic_size_bytes()
    }

    fn compact_from(&mut self, source: &Self, region: &mut Region) {
        self.forget.compact_from(&source.forget, region);
        self.from.compact_from(&source.from, region);
    }

    fn decompact(&self) -> (r: Self) {
        ForgetRoutes { forget: self.forget.decompact(), from: self.from.decompact() }
    }
}

/// A message that a lane sends, with the lane that is to get it.
pub enum Outgoing {
    JoinLandmark(ID, JoinLandmark),
    QueryRoutes(ID, QueryRoutes),
    ForgetRoutes(ID, ForgetRoutes),
    /// The routes of the sender are to be shared with the lane; the flag
    /// says whether that lane is reached by changing lanes.
    ShareRoutes(ID, bool),
}

/// A sent message as plain values.
pub enum Sent {
    JoinLandmark(ID, JoinLandmark),
    QueryRoutes(ID, QueryRoutes),
    ForgetRoutes { to: ID, forget: Seq<Destination>, from: ID },
    ShareRoutes(ID, bool),
}

impl View for Outgoing {
    type V = Sent;

    open spec fn view(&self) -> Sent {
        match *self {
            Outgoing::JoinLandmark(to, message) => Sent::JoinLandmark(to, message),
            Outgoing::QueryRoutes(to, message) => Sent::QueryRoutes(to, message),
            Outgoing::ForgetRoutes(to, message) => Sent::ForgetRoutes {
                to,
                forget: message.forget@,
                from: message.from,
            },
            Outgoing::ShareRoutes(to, is_transfer) => Sent::ShareRoutes(to, is_transfer),
        }
    }
}

/// The messages of `sent` as plain values.
pub open spec fn sent_views(sent: Seq<Outgoing>) -> Seq<Sent> {
    sent.map_values(|message: Outgoing| message@)
}

/// A lane that is no destination yet makes itself a landmark if it is on no
/// intersection and enough lanes lead to it.
pub open spec fn elects_itself(
    known: Knowledge,
    on_intersection: bool,
    interactions: Seq<Interaction>,
) -> bool {
    &&& known.as_destination is None
    &&& !on_intersection
    &&& spec_predecessors(interactions, interactions.len()).len() >= MIN_LANDMARK_INCOMING
}

/// What a lane knows when it has just become the landmark `id`.
pub open spec fn as_new_landmark(id: ID) -> Knowledge {
    Knowledge {
        as_destination: Some(Destination { landmark: id, node: id }),
        hops_from_landmark: 0,
        learned_landmark_from: Some(id),
        routes: Seq::empty(),
        routes_changed: true,
        tell_to_forget_next_tick: Seq::empty(),
        query_routes_next_tick: false,
        routing_timeout: ROUTING_TIMEOUT_AFTER_CHANGE,
    }
}

/// What a lane knows in the first half of a tick, after it has considered
/// to make itself a landmark.
pub open spec fn after_election(
    known: Knowledge,
    id: ID,
    on_intersection: bool,
    interactions: Seq<Interaction>,
) -> Knowledge {
    if elects_itself(known, on_intersection, interactions) {
        as_new_landmark(id)
    } else {
        known
    }
}

/// `routes` with no route marked as fresh.
pub open spec fn all_stale(routes: Seq<(Destination, RoutingInfo)>) -> Seq<
    (Destination, RoutingInfo),
> {
    routes.map_values(
        |entry: (Destination, RoutingInfo)|
            (entry.0, RoutingInfo { fresh: false, ..entry.1 }),
    )
}

/// What a lane knows after a tick.
pub open spec fn ticked(
    known: Knowledge,
    id: ID,
    on_intersection: bool,
    interactions: Seq<Interaction>,
) -> Knowledge {
    let now = after_election(known, id, on_intersection, interactions);
    if now.routing_timeout > 0 {
        Knowledge { routing_timeout: (now.routing_timeout - 1) as u16, ..now }
    } else {
        Knowledge {
            routes: if now.routes_changed {
                all_stale(now.routes)
            } else {
                now.routes
            },
            routes_changed: false,
            tell_to_forget_next_tick: Seq::empty(),
            query_routes_next_tick: false,
            ..now
        }
    }
}

/// The invitations that a lane that is the destination `own` sends to the
/// lanes that cars can go on to.
pub open spec fn invitations(id: ID, own: Destination, hops: u8, successors: Seq<ID>) -> Seq<
    Sent,
> {
    successors.map_values(
        |successor: ID|
            Sent::JoinLandmark(
                successor,
                JoinLandmark {
                    from: id,
                    join_as: Destination { landmark: own.landmark, node: successor },
                    hops_from_landmark: (hops + 1) as u8,
                },
            ),
    )
}

/// The queries that a lane sends to the lanes that cars can go on to.
pub open spec fn queries(id: ID, successors: Seq<ID>) -> Seq<Sent> {
    successors.map_values(
        |successor: ID|
            Sent::QueryRoutes(successor, QueryRoutes { requester: id, is_transfer: false }),
    )
}

/// The lists of forgotten destinations that a lane sends to the lanes that
/// cars can come from.
pub open spec fn forgets(id: ID, forget: Seq<Destination>, predecessors: Seq<(u8, ID, bool)>) -> Seq<
    Sent,
> {
    predecessors.map_values(
        |predecessor: (u8, ID, bool)| Sent::ForgetRoutes { to: predecessor.1, forget, from: id },
    )
}

/// The requests to share its routes that a lane makes for the lanes that
/// cars can come from.
pub open spec fn shares(predecessors: Seq<(u8, ID, bool)>) -> Seq<Sent> {
    predecessors.map_values(
        |predecessor: (u8, ID, bool)| Sent::ShareRoutes(predecessor.1, predecessor.2),
    )
}

/// What a lane sends in a tick: invitations if it is a destination; then,
/// if it does not wait, queries if it is to ask, what to forget if there is
/// any, and its routes if they have changed.
pub open spec fn tick_sends(
    known: Knowledge,
    id: ID,
    on_intersection: bool,
    interactions: Seq<Interaction>,
) -> Seq<Sent> {
    let now = after_election(known, id, on_intersection, interactions);
    let successors = spec_successors(interactions);
    let predecessors = spec_predecessors(interactions, interactions.len());
    let first = match known.as_destination {
        Some(own) => invitations(id, own, known.hops_from_landmark, successors),
        None => Seq::empty(),
    };
    if now.routing_timeout > 0 {
        first
    } else {
        first + (if now.query_routes_next_tick {
            queries(id, successors)
        } else {
            Seq::empty()
        }) + (if now.tell_to_forget_next_tick.len() > 0 {
            forgets(id, now.tell_to_forget_next_tick, predecessors)
        } else {
            Seq::empty()
        }) + (if now.routes_changed {
            shares(predecessors)
        } else {
            Seq::empty()
        })
    }
}

/// A lane that was built is no destination yet.
pub fn on_build(info: &mut PathfindingInfo)
    ensures
        final(info)@ == (Knowledge { as_destination: None, ..old(info)@ }),
        final(info).routes == old(info).routes,
        final(info).tell_to_forget_next_tick == old(info).tell_to_forget_next_tick,
{
    info.as_destination = None;
}

/// A lane that was connected to another waits before it tells its
/// neighbours anything.
pub fn on_connect(info: &mut PathfindingInfo)
    ensures
        final(info)@ == (Knowledge {
            routing_timeout: ROUTING_TIMEOUT_AFTER_CHANGE,
            ..old(info)@
        }),
        final(info).routes == old(info).routes,
        final(info).tell_to_forget_next_tick == old(info).tell_to_forget_next_tick,
{
    info.routing_timeout = ROUTING_TIMEOUT_AFTER_CHANGE;
}

/// A lane that lost the connection to `disconnected_id` drops the routes
/// that it learned from that lane, and will ask for routes and share its
/// own.
pub fn on_disconnect(info: &mut PathfindingInfo, disconnected_id: ID)
    requires
        old(info).wf(),
    ensures
        final(info).wf(),
        final(info)@ == (Knowledge {
            routes: old(info)@.routes.filter(
                |entry: (Destination, RoutingInfo)| entry.1.learned_from != disconnected_id,
            ),
            routes_changed: true,
            query_routes_next_tick: true,
            ..old(info)@
        }),
        final(info).tell_to_forget_next_tick == old(info).tell_to_forget_next_tick,
{
    let ghost all = info.routes@;
    let ghost keep = |entry: (Destination, RoutingInfo)| entry.1.learned_from != disconnected_id;
    let mut new_routes: CompactDict<Destination, RoutingInfo> = CompactDict::new();
    let pairs = info.routes.pairs();
    let mut i: usize = 0;
    proof {
        lemma_destination_equality();
        lemma_id_equality();
        assert(all.take(0) =~= Seq::<(Destination, RoutingInfo)>::empty());
        assert(all.take(0).filter(keep) =~= Seq::<(Destination, RoutingInfo)>::empty());
    }
    while i < pairs.len()
        invariant
            i <= pairs@.len(),
            pairs@.len() == all.len(),
            forall|j: int|
                0 <= j < all.len() ==> *(#[trigger] pairs@[j]).0 == all[j].0 && *pairs@[j].1
                    == all[j].1,
            distinct_keys(all),
            keep == |entry: (Destination, RoutingInfo)| entry.1.learned_from != disconnected_id,
            new_routes.wf(),
            new_routes@.len() <= i,
            new_routes@ == all.take(i as int).filter(keep),
            forall|j: int|
                0 <= j < new_routes@.len() ==> exists|k: int|
                    0 <= k < i && all[k].0 == (#[trigger] new_routes@[j]).0,
            vstd::laws_eq::obeys_concrete_eq::<Destination>(),
            vstd::laws_eq::obeys_concrete_eq::<ID>(),
        decreases pairs@.len() - i,
    {
        let (destination, route) = pairs[i];
        let learned_there = route.learned_from == disconnected_id;
        proof {
            assert(all.take(i + 1).drop_last() =~= all.take(i as int));
            reveal(Seq::filter);
            reveal(vstd::laws_eq::obeys_concrete_eq);
        }
        if !learned_there {
            proof {
                assert forall|j: int| 0 <= j < new_routes@.len() implies (
                #[trigger] new_routes@[j]).0 != *destination by {
                    let k = choose|k: int| 0 <= k < i && all[k].0 == new_routes@[j].0;
                    assert(all[k].0 != all[i as int].0);
                }
                lemma_position_of_absent(new_routes@, *destination);
            }
            let ghost before = new_routes@;
            new_routes.insert(*destination, *route);
            proof {
                assert(new_routes@ =~= all.take(i + 1).filter(keep));
                assert forall|j: int| 0 <= j < new_routes@.len() implies exists|k: int|
                    0 <= k < i + 1 && all[k].0 == (#[trigger] new_routes@[j]).0 by {
                    if j < before.len() {
                        assert(new_routes@[j] == before[j]);
                        let k = choose|k: int| 0 <= k < i && all[k].0 == before[j].0;
                        assert(0 <= k < i + 1 && all[k].0 == new_routes@[j].0);
                    } else {
                        assert(all[i as int].0 == new_routes@[j].0);
                    }
                }
            }
        }
        i += 1;
    }
    proof {
        assert(all.take(i as int) =~= all);
    }
    info.routes = new_routes;
    info.routes_changed = true;
    info.query_routes_next_tick = true;
}

/// Appending a message appends its plain form.
proof fn lemma_sent_push(sent: Seq<Outgoing>, message: Outgoing)
    ensures
        sent_views(sent.push(message)) == sent_views(sent).push(message@),
{
    assert(sent_views(sent.push(message)) =~= sent_views(sent).push(message@));
}

/// Marks every route as no longer fresh.
fn mark_all_stale(routes: &mut CompactDict<Destination, RoutingInfo>)
    requires
        old(routes).wf(),
    ensures
        final(routes).wf(),
        final(routes)@ == all_stale(old(routes)@),
{
    let ghost before = routes@;
    let values = routes.values_mut();
    let mut i: usize = 0;
    while i < values.len()
        invariant
            i <= values@.len(),
            values@.len() == before.len(),
            forall|j: int|
                0 <= j < i ==> #[trigger] values@[j] == (RoutingInfo {
                    fresh: false,
                    ..before[j].1
                }),
            forall|j: int| i <= j < values@.len() ==> #[trigger] values@[j] == before[j].1,
        decreases values@.len() - i,
    {
        values[i].fresh = false;
        i += 1;
    }
    proof {
        assert(routes@ =~= all_stale(before));
    }
}

/// One tick of a lane `id` with `interactions`: the lane invites its
/// successors if it is a destination, or makes itself a landmark if enough
/// lanes lead to it; then it counts down its timeout, or, when that has run
/// out, tells its neighbours what is due.
pub fn tick(
    info: &mut PathfindingInfo,
    id: ID,
    on_intersection: bool,
    interactions: &[Interaction],
) -> (sent: Vec<Outgoing>)
    requires
        old(info).wf(),
        old(info).as_destination is Some ==> old(info).hops_from_landmark < u8::MAX,
    ensures
        final(info).wf(),
        final(info)@ == ticked(old(info)@, id, on_intersection, interactions@),
        sent_views(sent@) == tick_sends(old(info)@, id, on_intersection, interactions@),
{
    let mut sent: Vec<Outgoing> = Vec::new();
    let next_lanes = successors(interactions);
    let previous_lanes = predecessors(interactions);
    let ghost known = info@;
    let ghost now = after_election(known, id, on_intersection, interactions@);
    proof {
        assert(sent_views(sent@) =~= Seq::<Sent>::empty());
    }
    match info.as_destination {
        Some(as_destination) => {
            let hops = info.hops_from_landmark + 1;
            let mut i: usize = 0;
            while i < next_lanes.len()
                invariant
                    i <= next_lanes@.len(),
                    hops == known.hops_from_landmark + 1,
                    sent_views(sent@) == invitations(
                        id,
                        as_destination,
                        known.hops_from_landmark,
                        next_lanes@.take(i as int),
                    ),
                decreases next_lanes@.len() - i,
            {
                let successor = next_lanes[i];
                let message = Outgoing::JoinLandmark(
                    successor,
                    JoinLandmark {
                        from: id,
                        join_as: Destination { landmark: as_destination.landmark, node: successor },
                        hops_from_landmark: hops,
                    },
                );
                proof {
                    lemma_sent_push(sent@, message);
                    assert(next_lanes@.take(i + 1) =~= next_lanes@.take(i as int).push(successor));
                    assert(sent_views(sent@).push(message@) =~= invitations(
                        id,
                        as_destination,
                        known.hops_from_landmark,
                        next_lanes@.take(i + 1),
                    ));
                }
                sent.push(message);
                i += 1;
            }
            proof {
                assert(next_lanes@.take(i as int) =~= next_lanes@);
            }
        },
        None => {
            if !on_intersection && previous_lanes.len() >= MIN_LANDMARK_INCOMING {
                info.as_destination = Some(Destination::landmark(id));
                info.hops_from_landmark = 0;
                info.learned_landmark_from = Some(id);
                info.routes = CompactDict::new();
                info.routes_changed = true;
                info.query_routes_next_tick = false;
                info.tell_to_forget_next_tick = CompactVec::new();
                info.routing_timeout = ROUTING_TIMEOUT_AFTER_CHANGE;
            }
        },
    }
    assert(info@ == now);
    let ghost first = sent_views(sent@);

    if info.routing_timeout > 0 {
        info.routing_timeout -= 1;
    } else {
        if info.query_routes_next_tick {
            let mut i: usize = 0;
            while i < next_lanes.len()
                invariant
                    i <= next_lanes@.len(),
                    sent_views(sent@) == first + queries(id, next_lanes@.take(i as int)),
                decreases next_lanes@.len() - i,
            {
                let message = Outgoing::QueryRoutes(
                    next_lanes[i],
                    QueryRoutes { requester: id, is_transfer: false },
                );
                proof {
                    lemma_sent_push(sent@, message);
                    assert(next_lanes@.take(i + 1) =~= next_lanes@.take(i as int).push(
                        next_lanes@[i as int],
                    ));
                    assert(sent_views(sent@).push(message@) =~= first + queries(
                        id,
                        next_lanes@.take(i + 1),
                    ));
                }
                sent.push(message);
                i += 1;
            }
            proof {
                assert(next_lanes@.take(i as int) =~= next_lanes@);
            }
            info.query_routes_next_tick = false;
        }
        let ghost second = sent_views(sent@);
        proof {
            assert(second =~= first + (if now.query_routes_next_tick {
                queries(id, next_lanes@)
            } else {
                Seq::empty()
            }));
        }

        if !info.tell_to_forget_next_tick.is_empty() {
            let mut i: usize = 0;
            while i < previous_lanes.len()
                invariant
                    i <= previous_lanes@.len(),
                    info.tell_to_forget_next_tick.wf(),
                    info.tell_to_forget_next_tick@ == now.tell_to_forget_next_tick,
                    sent_views(sent@) == second + forgets(
                        id,
                        now.tell_to_forget_next_tick,
                        previous_lanes@.take(i as int),
                    ),
                decreases previous_lanes@.len() - i,
            {
                let forget = info.tell_to_forget_next_tick.decompact();
                proof {
                    crate::compact_vec::lemma_plain_content(forget);
                    crate::compact_vec::lemma_plain_content(info.tell_to_forget_next_tick);
                }
                let message = Outgoing::ForgetRoutes(
                    previous_lanes[i].1,
                    ForgetRoutes { forget, from: id },
                );
                proof {
                    lemma_sent_push(sent@, message);
                    assert(previous_lanes@.take(i + 1) =~= previous_lanes@.take(i as int).push(
                        previous_lanes@[i as int],
                    ));
                    assert(sent_views(sent@).push(message@) =~= second + forgets(
                        id,
                        now.tell_to_forget_next_tick,
                        previous_lanes@.take(i + 1),
                    ));
                }
                sent.push(message);
                i += 1;
            }
            proof {
                assert(previous_lanes@.take(i as int) =~= previous_lanes@);
            }
            info.tell_to_forget_next_tick.clear();
        }
        let ghost third = sent_views(sent@);
        proof {
            assert(third =~= second + (if now.tell_to_forget_next_tick.len() > 0 {
                forgets(id, now.tell_to_forget_next_tick, previous_lanes@)
            } else {
                Seq::empty()
            }));
        }

        if info.routes_changed {
            let mut i: usize = 0;
            while i < previous_lanes.len()
                invariant
                    i <= previous_lanes@.len(),
                    sent_views(sent@) == third + shares(previous_lanes@.take(i as int)),
                decreases previous_lanes@.len() - i,
            {
                let message = Outgoing::ShareRoutes(previous_lanes[i].1, previous_lanes[i].2);
                proof {
                    lemma_sent_push(sent@, message);
                    assert(previous_lanes@.take(i + 1) =~= previous_lanes@.take(i as int).push(
                        previous_lanes@[i as int],
                    ));
                    assert(sent_views(sent@).push(message@) =~= third + shares(
                        previous_lanes@.take(i + 1),
                    ));
                }
                sent.push(message);
                i += 1;
            }
            proof {
                assert(previous_lanes@.take(i as int) =~= previous_lanes@);
            }
            mark_all_stale(&mut info.routes);
            info.routes_changed = false;
        }
        proof {
            assert(sent_views(sent@) =~= tick_sends(known, id, on_intersection, interactions@));
            assert(info@.tell_to_forget_next_tick =~= Seq::<Destination>::empty());
        }
    }
    sent
}

/// Whether a lane `id` follows an invitation: a lane that is no destination
/// yet always does. A landmark joins another one that is close enough and
/// has the smaller instance number. Any other lane joins a landmark that is
/// closer than its own, or follows the lane that it learned its landmark
/// from. No lane joins as the destination that it already is.
pub open spec fn accepts_invitation(known: Knowledge, id: ID, invitation: JoinLandmark) -> bool {
    match known.as_destination {
        Some(own) => {
            &&& invitation.join_as != own
            &&& if own.landmark == own.node {
                &&& invitation.hops_from_landmark < IDEAL_LANDMARK_RADIUS
                &&& invitation.join_as.landmark.instance_id < id.instance_id
            } else {
                ||| invitation.hops_from_landmark < known.hops_from_landmark
                ||| known.learned_landmark_from == Some(invitation.from)
            }
        },
        None => true,
    }
}

/// The destinations of `routes`, in their order.
pub open spec fn destinations_of(routes: Seq<(Destination, RoutingInfo)>) -> Seq<Destination> {
    routes.map_values(|entry: (Destination, RoutingInfo)| entry.0)
}

/// What a lane knows after it followed an invitation: it is what it was
/// invited as, knows no routes any more, and will tell its neighbours to
/// forget what it could be reached as and what it had routes to.
pub open spec fn joined(known: Knowledge, invitation: JoinLandmark) -> Knowledge {
    Knowledge {
        as_destination: Some(invitation.join_as),
        hops_from_landmark: invitation.hops_from_landmark,
        learned_landmark_from: Some(invitation.from),
        routes: Seq::empty(),
        routes_changed: true,
        tell_to_forget_next_tick: destinations_of(known.routes) + (match known.as_destination {
            Some(own) => seq![own],
            None => Seq::empty(),
        }),
        query_routes_next_tick: true,
        routing_timeout: ROUTING_TIMEOUT_AFTER_CHANGE,
    }
}

/// A lane `id` gets an invitation to join a landmark.
pub fn on_join_landmark(info: &mut PathfindingInfo, id: ID, invitation: &JoinLandmark)
    requires
        old(info).wf(),
    ensures
        final(info).wf(),
        final(info)@ == if accepts_invitation(old(info)@, id, *invitation) {
            joined(old(info)@, *invitation)
        } else {
            old(info)@
        },
{
    proof {
        lemma_destination_equality();
        lemma_id_equality();
        reveal(vstd::laws_eq::obeys_concrete_eq);
    }
    let join = match info.as_destination {
        Some(self_destination) => {
            invitation.join_as != self_destination && (if self_destination.is_landmark() {
                invitation.hops_from_landmark < IDEAL_LANDMARK_RADIUS
                    && invitation.join_as.landmark.instance_id < id.instance_id
            } else {
                invitation.hops_from_landmark < info.hops_from_landmark || (
                match info.learned_landmark_from {
                    Some(learned_from) => learned_from == invitation.from,
                    None => false,
                })
            })
        },
        None => true,
    };
    if join {
        let keys = info.routes.keys();
        let mut forget: Vec<Destination> = Vec::new();
        let mut i: usize = 0;
        while i < keys.len()
            invariant
                i <= keys@.len(),
                keys@.len() == info.routes@.len(),
                keys@ == info.routes.spec_keys(),
                forget@ == destinations_of(info.routes@).take(i as int),
            decreases keys@.len() - i,
        {
            forget.push(keys[i]);
            proof {
                assert(forget@ =~= destinations_of(info.routes@).take(i + 1));
            }
            i += 1;
        }
        proof {
            assert(forget@ =~= destinations_of(info.routes@));
        }
        match info.as_destination {
            Some(self_destination) => {
                forget.push(self_destination);
            },
            None => {},
        }
        proof {
            assert(forget@ =~= joined(info@, *invitation).tell_to_forget_next_tick);
        }
        info.as_destination = Some(invitation.join_as);
        info.learned_landmark_from = Some(invitation.from);
        info.hops_from_landmark = invitation.hops_from_landmark;
        info.routes = CompactDict::new();
        info.routes_changed = true;
        info.query_routes_next_tick = true;
        info.tell_to_forget_next_tick = CompactVec::from_vec(forget);
        info.routing_timeout = ROUTING_TIMEOUT_AFTER_CHANGE;
    }
}

/// A lane drops a route on the word of the lane that it learned it from.
pub open spec fn drops_route(
    routes: Seq<(Destination, RoutingInfo)>,
    destination: Destination,
    from: ID,
) -> bool {
    match value_of(routes, destination) {
        Some(route) => route.learned_from == from,
        None => false,
    }
}

/// The routes that are left after a lane was told by `from` to forget the
/// destinations `forget`, one after the other.
pub open spec fn routes_after_forgetting(
    routes: Seq<(Destination, RoutingInfo)>,
    forget: Seq<Destination>,
    from: ID,
) -> Seq<(Destination, RoutingInfo)>
    decreases forget.len(),
{
    if forget.len() == 0 {
        routes
    } else {
        let before = routes_after_forgetting(routes, forget.drop_last(), from);
        if drops_route(before, forget.last(), from) {
            without_key(before, forget.last())
        } else {
            before
        }
    }
}

/// Those of the destinations `forget` whose routes a lane dropped when it
/// was told by `from` to forget them, in the order in which it was told.
pub open spec fn forgotten(
    routes: Seq<(Destination, RoutingInfo)>,
    forget: Seq<Destination>,
    from: ID,
) -> Seq<Destination>
    decreases forget.len(),
{
    if forget.len() == 0 {
        Seq::empty()
    } else {
        let done = forgotten(routes, forget.drop_last(), from);
        if drops_route(
            routes_after_forgetting(routes, forget.drop_last(), from),
            forget.last(),
            from,
        ) {
            done.push(forget.last())
        } else {
            done
        }
    }
}

/// A lane is told which destinations to forget. It drops the routes to
/// those that it learned from the sender, and will pass on next tick which
/// ones it dropped.
pub fn on_forget_routes(info: &mut PathfindingInfo, message: &ForgetRoutes)
    requires
        old(info).wf(),
        message.wf(),
    ensures
        final(info).wf(),
        final(info)@ == (Knowledge {
            routes: routes_after_forgetting(old(info)@.routes, message.forget@, message.from),
            tell_to_forget_next_tick: forgotten(old(info)@.routes, message.forget@, message.from),
            ..old(info)@
        }),
{
    proof {
        lemma_destination_equality();
        lemma_id_equality();
    }
    let ghost routes = info.routes@;
    let ghost list = message.forget@;
    let mut dropped: CompactVec<Destination> = CompactVec::new();
    let mut i: usize = 0;
    proof {
        assert(list.take(0) =~= Seq::<Destination>::empty());
    }
    while i < message.forget.len()
        invariant
            i <= list.len(),
            list == message.forget@,
            message.wf(),
            info.wf(),
            dropped.wf(),
            dropped@.len() <= i,
            info.routes@ == routes_after_forgetting(routes, list.take(i as int), message.from),
            dropped@ == forgotten(routes, list.take(i as int), message.from),
            info@ == (Knowledge { routes: info.routes@, ..old(info)@ }),
            vstd::laws_eq::obeys_concrete_eq::<Destination>(),
            vstd::laws_eq::obeys_concrete_eq::<ID>(),
        decreases list.len() - i,
    {
        let destination_to_forget = *message.forget.get(i);
        let forget = match info.routes.get(destination_to_forget) {
            Some(routing_info) => routing_info.learned_from == message.from,
            None => false,
        };
        proof {
            reveal(vstd::laws_eq::obeys_concrete_eq);
            assert(list.take(i + 1).drop_last() =~= list.take(i as int));
        }
        if forget {
            info.routes.remove(destination_to_forget);
            dropped.push(destination_to_forget);
        }
        i += 1;
    }
    proof {
        assert(list.take(i as int) =~= list);
    }
    info.tell_to_forget_next_tick = dropped;
}

/// A lane `id` is asked which destination it is: the answer, and the lane
/// that is to get it.
pub fn on_query_as_destination(info: &PathfindingInfo, id: ID, query: &QueryAsDestination) -> (r: (
    ID,
    TellAsDestination,
))
    ensures
        r.0 == query.requester,
        r.1.id == id,
        r.1.as_destination == info.as_destination,
{
    (query.requester, TellAsDestination { id, as_destination: info.as_destination })
}

/// The place of the first interaction with the lane `partner`.
pub fn interaction_with(interactions: &[Interaction], partner: ID) -> (r: Option<usize>)
    ensures
        match r {
            Some(index) => {
                &&& index < interactions@.len()
                &&& interactions@[index as int].partner_lane == partner
                &&& forall|j: int| 0 <= j < index ==> interactions@[j].partner_lane != partner
            },
            None => forall|j: int|
                0 <= j < interactions@.len() ==> interactions@[j].partner_lane != partner,
        },
{
    proof {
        lemma_id_equality();
    }
    let mut i: usize = 0;
    while i < interactions.len()
        invariant
            i <= interactions@.len(),
            forall|j: int| 0 <= j < i ==> interactions@[j].partner_lane != partner,
            vstd::laws_eq::obeys_concrete_eq::<ID>(),
        decreases interactions@.len() - i,
    {
        let found = interactions[i].partner_lane == partner;
        proof {
            reveal(vstd::laws_eq::obeys_concrete_eq);
        }
        if found {
            return Some(i);
        }
        i += 1;
    }
    None
}

/// Whether a lane keeps a route to `destination` that is `hops` hops long:
/// it keeps routes to landmarks, short routes, and routes into its own
/// neighbourhood.
pub fn wants_route(info: &PathfindingInfo, destination: Destination, hops: u8) -> (r: bool)
    ensures
        r == (destination.landmark == destination.node || hops <= IDEAL_LANDMARK_RADIUS || (
        info.as_destination matches Some(own) && own.landmark == destination.landmark)),
{
    proof {
        lemma_id_equality();
        reveal(vstd::laws_eq::obeys_concrete_eq);
    }
    destination.is_landmark() || hops <= IDEAL_LANDMARK_RADIUS || (match info.as_destination {
        Some(self_destination) => self_destination.landmark == destination.landmark,
        None => false,
    })
}

/// The route to `destination` that a lane knows, if it knows one. The entry
/// moves to the front of the routes.
pub fn known_route(info: &mut PathfindingInfo, destination: Destination) -> (r: Option<RoutingInfo>)
    requires
        old(info).wf(),
    ensures
        final(info).wf(),
        r == value_of(old(info)@.routes, destination),
        final(info)@ == (Knowledge {
            routes: promoted_to_front(old(info)@.routes, destination),
            ..old(info)@
        }),
        final(info).tell_to_forget_next_tick == old(info).tell_to_forget_next_tick,
{
    proof {
        lemma_destination_equality();
    }
    match info.routes.get_mru(destination) {
        Some(route) => Some(*route),
        None => None,
    }
}

/// A lane learns a route to `destination` from the lane `from`, which it
/// reaches through the interaction at `from_interaction_idx`.
pub fn learn_route(
    info: &mut PathfindingInfo,
    destination: Destination,
    distance: u32,
    distance_hops: u8,
    from_interaction_idx: usize,
    from: ID,
)
    requires
        old(info).wf(),
        old(info)@.routes.len() < usize::MAX,
    ensures
        final(info).wf(),
        final(info)@ == (Knowledge {
            routes: with_entry(
                old(info)@.routes,
                destination,
                RoutingInfo {
                    outgoing_idx: (from_interaction_idx % 256) as u8,
                    distance,
                    distance_hops,
                    learned_from: from,
                    fresh: true,
                },
            ),
            routes_changed: true,
            ..old(info)@
        }),
        final(info).tell_to_forget_next_tick == old(info).tell_to_forget_next_tick,
{
    proof {
        lemma_destination_equality();
    }
    info.routes.insert(
        destination,
        RoutingInfo {
            distance,
            distance_hops,
            outgoing_idx: (from_interaction_idx % 256) as u8,
            learned_from: from,
            fresh: true,
        },
    );
    info.routes_changed = true;
}

/// What a transfer lane `id` passes on to the lane on its other side when
/// it gets an invitation: the invitation, for that lane.
pub fn forward_join_landmark(id: ID, other_side: ID, invitation: &JoinLandmark) -> (r: Outgoing)
    ensures
        r@ == Sent::JoinLandmark(
            other_side,
            JoinLandmark {
                from: id,
                join_as: Destination { landmark: invitation.join_as.landmark, node: other_side },
                hops_from_landmark: invitation.hops_from_landmark,
            },
        ),
{
    Outgoing::JoinLandmark(
        other_side,
        JoinLandmark {
            join_as: Destination { landmark: invitation.join_as.landmark, node: other_side },
            hops_from_landmark: invitation.hops_from_landmark,
            from: id,
        },
    )
}

/// What a transfer lane `id` passes on to the lane on its other side when
/// it is asked for routes: the question, as its own.
pub fn forward_query_routes(id: ID, other_side: ID) -> (r: Outgoing)
    ensures
        r@ == Sent::QueryRoutes(other_side, QueryRoutes { requester: id, is_transfer: true }),
{
    Outgoing::QueryRoutes(other_side, QueryRoutes { requester: id, is_transfer: true })
}

/// What a transfer lane `id` passes on to the lane on its other side when
/// it is told what to forget: the same list, as its own.
pub fn forward_forget_routes(id: ID, other_side: ID, message: &ForgetRoutes) -> (r: Outgoing)
    requires
        message.wf(),
    ensures
        r@ == (Sent::ForgetRoutes { to: other_side, forget: message.forget@, from: id }),
{
    let forget = message.forget.decompact();
    proof {
        crate::compact_vec::lemma_plain_content(forget);
        crate::compact_vec::lemma_plain_content(message.forget);
    }
    Outgoing::ForgetRoutes(other_side, ForgetRoutes { forget, from: id })
}

} // verus!
