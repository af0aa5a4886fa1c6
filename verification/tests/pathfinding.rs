use kay::pathfinding::{
    forward_forget_routes, forward_join_landmark, forward_query_routes, interaction_with,
    known_route, learn_route, on_build, on_connect, on_disconnect, on_forget_routes,
    on_join_landmark, on_query_as_destination, predecessors, successors, tick, wants_route,
    Destination, ForgetRoutes, Interaction, InteractionKind, JoinLandmark, Outgoing, OverlapKind,
    PathfindingInfo, QueryAsDestination, RoutingInfo, IDEAL_LANDMARK_RADIUS,
    MIN_LANDMARK_INCOMING, ROUTING_TIMEOUT_AFTER_CHANGE,
};
use kay::{Compact, CompactDict, CompactVec, Region, ID};

fn lane(instance_id: u32) -> ID {
    ID::new(3, instance_id, 0)
}

fn node(landmark: u32, node: u32) -> Destination {
    Destination { landmark: lane(landmark), node: lane(node) }
}

fn blank() -> PathfindingInfo {
    PathfindingInfo {
        as_destination: None,
        hops_from_landmark: 0,
        learned_landmark_from: None,
        routes: CompactDict::new(),
        routes_changed: false,
        tell_to_forget_next_tick: CompactVec::new(),
        query_routes_next_tick: false,
        routing_timeout: 0,
    }
}

fn route(learned_from: u32, hops: u8) -> RoutingInfo {
    RoutingInfo {
        outgoing_idx: 0,
        distance: (10.5f32).to_bits(),
        distance_hops: hops,
        learned_from: lane(learned_from),
        fresh: true,
    }
}

fn link(partner: u32, kind: InteractionKind) -> Interaction {
    Interaction { partner_lane: lane(partner), kind }
}

fn crossing() -> Vec<Interaction> {
    vec![
        link(10, InteractionKind::Previous),
        link(11, InteractionKind::Next),
        link(12, InteractionKind::Overlap { kind: OverlapKind::Transfer }),
        link(13, InteractionKind::Overlap { kind: OverlapKind::Conflicting }),
        link(14, InteractionKind::Previous),
        link(15, InteractionKind::Overlap { kind: OverlapKind::Parallel }),
    ]
}

#[test]
fn the_protocol_constants_are_those_of_the_protocol() {
    assert_eq!(MIN_LANDMARK_INCOMING, 3);
    assert_eq!(ROUTING_TIMEOUT_AFTER_CHANGE, 15);
    assert_eq!(IDEAL_LANDMARK_RADIUS, 3);
}

#[test]
fn a_landmark_is_a_destination_whose_node_is_its_landmark() {
    let landmark = Destination::landmark(lane(4));
    assert_eq!(landmark, node(4, 4));
    assert!(landmark.is_landmark());
    assert!(!node(4, 5).is_landmark());
    assert_eq!(node(4, 5).landmark_destination(), landmark);
    assert_ne!(node(4, 5), node(4, 6));
    assert_ne!(lane(1), ID::new(3, 1, 1));
}

#[test]
fn successors_are_the_next_lanes_and_the_transfer_lanes() {
    assert_eq!(successors(&crossing()), vec![lane(11), lane(12)]);
    assert!(successors(&[]).is_empty());
}

#[test]
fn predecessors_are_the_previous_lanes_and_the_transfer_lanes() {
    assert_eq!(
        predecessors(&crossing()),
        vec![(0, lane(10), false), (2, lane(12), true), (4, lane(14), false)]
    );
    let mut many = vec![link(1, InteractionKind::Next); 256];
    many.push(link(2, InteractionKind::Previous));
    assert_eq!(predecessors(&many), vec![(0, lane(2), false)]);
}

#[test]
fn the_interaction_with_a_lane_is_the_first_one() {
    let mut interactions = crossing();
    interactions.push(link(12, InteractionKind::Next));
    assert_eq!(interaction_with(&interactions, lane(12)), Some(2));
    assert_eq!(interaction_with(&interactions, lane(99)), None);
}

#[test]
fn building_forgets_what_the_lane_was() {
    let mut info = blank();
    info.as_destination = Some(node(1, 2));
    info.routing_timeout = 7;
    on_build(&mut info);
    assert_eq!(info.as_destination, None);
    assert_eq!(info.routing_timeout, 7);
}

#[test]
fn connecting_starts_the_timeout() {
    let mut info = blank();
    on_connect(&mut info);
    assert_eq!(info.routing_timeout, 15);
    assert!(!info.routes_changed);
}

#[test]
fn disconnecting_drops_the_routes_learned_from_that_lane() {
    let mut info = blank();
    info.routes.insert(node(1, 1), route(7, 1));
    info.routes.insert(node(1, 2), route(8, 2));
    info.routes.insert(node(1, 3), route(7, 3));
    info.routes.insert(node(1, 4), route(9, 4));
    on_disconnect(&mut info, lane(7));
    assert_eq!(info.routes.keys(), &[node(1, 2), node(1, 4)]);
    assert_eq!(info.routes.get(node(1, 4)).unwrap().distance_hops, 4);
    assert!(info.routes_changed);
    assert!(info.query_routes_next_tick);
    assert_eq!(info.routing_timeout, 0);
}

fn views(sent: &[Outgoing]) -> Vec<String> {
    sent.iter()
        .map(|message| match message {
            Outgoing::JoinLandmark(to, message) => format!(
                "join {} from {} as {}/{} hops {}",
                to.instance_id,
                message.from.instance_id,
                message.join_as.landmark.instance_id,
                message.join_as.node.instance_id,
                message.hops_from_landmark
            ),
            Outgoing::QueryRoutes(to, message) => format!(
                "query {} by {} transfer {}",
                to.instance_id, message.requester.instance_id, message.is_transfer
            ),
            Outgoing::ForgetRoutes(to, message) => format!(
                "forget {} from {} nodes {:?}",
                to.instance_id,
                message.from.instance_id,
                message.forget.as_slice().iter().map(|d| d.node.instance_id).collect::<Vec<u32>>()
            ),
            Outgoing::ShareRoutes(to, is_transfer) => {
                format!("share {} transfer {}", to.instance_id, is_transfer)
            }
        })
        .collect()
}

#[test]
fn a_lane_with_enough_incoming_lanes_makes_itself_a_landmark() {
    let mut info = blank();
    info.routes.insert(node(1, 1), route(7, 1));
    info.tell_to_forget_next_tick.push(node(1, 1));
    let sent = tick(&mut info, lane(5), false, &crossing());
    assert!(sent.is_empty());
    assert_eq!(info.as_destination, Some(node(5, 5)));
    assert_eq!(info.hops_from_landmark, 0);
    assert_eq!(info.learned_landmark_from, Some(lane(5)));
    assert!(info.routes.is_empty());
    assert!(info.routes_changed);
    assert!(!info.query_routes_next_tick);
    assert!(info.tell_to_forget_next_tick.is_empty());
    assert_eq!(info.routing_timeout, 14);
}

#[test]
fn a_lane_on_an_intersection_or_with_few_incoming_lanes_stays_what_it_is() {
    let mut on_intersection = blank();
    on_intersection.routing_timeout = 3;
    assert!(tick(&mut on_intersection, lane(5), true, &crossing()).is_empty());
    assert_eq!(on_intersection.as_destination, None);
    assert_eq!(on_intersection.routing_timeout, 2);

    let mut quiet = blank();
    quiet.routing_timeout = 1;
    let few = vec![link(10, InteractionKind::Previous), link(11, InteractionKind::Previous)];
    assert!(tick(&mut quiet, lane(5), false, &few).is_empty());
    assert_eq!(quiet.as_destination, None);
    assert_eq!(quiet.routing_timeout, 0);
}

#[test]
fn a_destination_invites_its_successors_and_waits_while_the_timeout_runs() {
    let mut info = blank();
    info.as_destination = Some(node(1, 5));
    info.hops_from_landmark = 2;
    info.routing_timeout = 1;
    info.query_routes_next_tick = true;
    info.routes_changed = true;
    let sent = tick(&mut info, lane(5), false, &crossing());
    assert_eq!(
        views(&sent),
        vec!["join 11 from 5 as 1/11 hops 3", "join 12 from 5 as 1/12 hops 3"]
    );
    assert_eq!(info.routing_timeout, 0);
    assert!(info.query_routes_next_tick);
    assert!(info.routes_changed);
}

#[test]
fn a_lane_whose_timeout_has_run_out_tells_its_neighbours_what_is_due() {
    let mut info = blank();
    info.as_destination = Some(node(1, 5));
    info.hops_from_landmark = 2;
    info.query_routes_next_tick = true;
    info.routes_changed = true;
    info.tell_to_forget_next_tick.push(node(1, 8));
    info.tell_to_forget_next_tick.push(node(1, 9));
    info.routes.insert(node(1, 1), route(7, 1));
    info.routes.insert(node(1, 2), route(8, 2));
    let sent = tick(&mut info, lane(5), false, &crossing());
    assert_eq!(
        views(&sent),
        vec![
            "join 11 from 5 as 1/11 hops 3",
            "join 12 from 5 as 1/12 hops 3",
            "query 11 by 5 transfer false",
            "query 12 by 5 transfer false",
            "forget 10 from 5 nodes [8, 9]",
            "forget 12 from 5 nodes [8, 9]",
            "forget 14 from 5 nodes [8, 9]",
            "share 10 transfer false",
            "share 12 transfer true",
            "share 14 transfer false",
        ]
    );
    assert_eq!(info.routing_timeout, 0);
    assert!(!info.query_routes_next_tick);
    assert!(!info.routes_changed);
    assert!(info.tell_to_forget_next_tick.is_empty());
    assert_eq!(info.routes.len(), 2);
    assert!(info.routes.values().iter().all(|route| !route.fresh));
    assert_eq!(info.routes.get(node(1, 2)).unwrap().learned_from, lane(8));

    let again = tick(&mut info, lane(5), false, &crossing());
    assert_eq!(again.len(), 2);
}

fn invitation(from: u32, landmark: u32, node_id: u32, hops: u8) -> JoinLandmark {
    JoinLandmark { from: lane(from), join_as: node(landmark, node_id), hops_from_landmark: hops }
}

#[test]
fn a_lane_that_is_no_destination_follows_any_invitation() {
    let mut info = blank();
    info.routes.insert(node(9, 1), route(7, 1));
    info.routes.insert(node(9, 2), route(7, 1));
    on_join_landmark(&mut info, lane(5), &invitation(4, 1, 5, 200));
    assert_eq!(info.as_destination, Some(node(1, 5)));
    assert_eq!(info.learned_landmark_from, Some(lane(4)));
    assert_eq!(info.hops_from_landmark, 200);
    assert!(info.routes.is_empty());
    assert!(info.routes_changed);
    assert!(info.query_routes_next_tick);
    assert_eq!(info.tell_to_forget_next_tick.as_slice(), &[node(9, 1), node(9, 2)]);
    assert_eq!(info.routing_timeout, 15);
}

#[test]
fn a_landmark_joins_a_close_landmark_with_a_smaller_number() {
    let landmark = || {
        let mut info = blank();
        info.as_destination = Some(node(5, 5));
        info.routes.insert(node(9, 1), route(7, 1));
        info
    };
    let mut joins = landmark();
    on_join_landmark(&mut joins, lane(5), &invitation(4, 3, 5, 2));
    assert_eq!(joins.as_destination, Some(node(3, 5)));
    assert_eq!(joins.tell_to_forget_next_tick.as_slice(), &[node(9, 1), node(5, 5)]);

    let mut too_far = landmark();
    on_join_landmark(&mut too_far, lane(5), &invitation(4, 3, 5, 3));
    assert_eq!(too_far.as_destination, Some(node(5, 5)));
    assert_eq!(too_far.routes.len(), 1);

    let mut larger_number = landmark();
    on_join_landmark(&mut larger_number, lane(5), &invitation(4, 6, 5, 0));
    assert_eq!(larger_number.as_destination, Some(node(5, 5)));

    let mut same_number = landmark();
    on_join_landmark(&mut same_number, lane(5), &invitation(4, 5, 6, 0));
    assert_eq!(same_number.as_destination, Some(node(5, 5)));
}

#[test]
fn a_lane_joins_a_closer_landmark_or_follows_its_teacher() {
    let member = || {
        let mut info = blank();
        info.as_destination = Some(node(1, 5));
        info.hops_from_landmark = 4;
        info.learned_landmark_from = Some(lane(4));
        info
    };
    let mut closer = member();
    on_join_landmark(&mut closer, lane(5), &invitation(6, 2, 5, 3));
    assert_eq!(closer.as_destination, Some(node(2, 5)));
    assert_eq!(closer.learned_landmark_from, Some(lane(6)));

    let mut not_closer = member();
    on_join_landmark(&mut not_closer, lane(5), &invitation(6, 2, 5, 4));
    assert_eq!(not_closer.as_destination, Some(node(1, 5)));

    let mut teacher = member();
    on_join_landmark(&mut teacher, lane(5), &invitation(4, 2, 5, 9));
    assert_eq!(teacher.as_destination, Some(node(2, 5)));
    assert_eq!(teacher.hops_from_landmark, 9);

    let mut same = member();
    on_join_landmark(&mut same, lane(5), &invitation(4, 1, 5, 0));
    assert_eq!(same.hops_from_landmark, 4);
    assert!(!same.routes_changed);
}

#[test]
fn routes_are_forgotten_on_the_word_of_the_lane_they_were_learned_from() {
    let mut info = blank();
    info.as_destination = Some(node(1, 5));
    info.routes.insert(node(1, 1), route(7, 1));
    info.routes.insert(node(1, 2), route(8, 2));
    info.routes.insert(node(1, 3), route(7, 3));
    info.tell_to_forget_next_tick.push(node(9, 9));
    let message = ForgetRoutes {
        forget: CompactVec::from_vec(vec![node(1, 3), node(1, 2), node(1, 4), node(1, 1), node(1, 3)]),
        from: lane(7),
    };
    on_forget_routes(&mut info, &message);
    assert_eq!(info.routes.keys(), &[node(1, 2)]);
    assert_eq!(info.tell_to_forget_next_tick.as_slice(), &[node(1, 3), node(1, 1)]);
    assert_eq!(info.as_destination, Some(node(1, 5)));
    assert!(!info.routes_changed);

    let nothing = ForgetRoutes { forget: CompactVec::new(), from: lane(8) };
    on_forget_routes(&mut info, &nothing);
    assert_eq!(info.routes.len(), 1);
    assert!(info.tell_to_forget_next_tick.is_empty());
}

#[test]
fn a_lane_tells_which_destination_it_is() {
    let mut info = blank();
    info.as_destination = Some(node(1, 5));
    let (to, answer) =
        on_query_as_destination(&info, lane(5), &QueryAsDestination { requester: lane(2) });
    assert_eq!(to, lane(2));
    assert_eq!(answer.id, lane(5));
    assert_eq!(answer.as_destination, Some(node(1, 5)));
}

#[test]
fn a_lane_keeps_routes_to_landmarks_short_routes_and_routes_into_its_neighbourhood() {
    let mut info = blank();
    assert!(wants_route(&info, node(7, 7), 200));
    assert!(wants_route(&info, node(7, 8), 3));
    assert!(!wants_route(&info, node(7, 8), 4));
    info.as_destination = Some(node(7, 5));
    assert!(wants_route(&info, node(7, 8), 4));
    assert!(!wants_route(&info, node(6, 8), 4));
}

#[test]
fn a_learned_route_replaces_the_known_one() {
    let mut info = blank();
    info.routes.insert(node(1, 1), route(7, 1));
    info.routes.insert(node(1, 2), route(8, 2));
    assert_eq!(known_route(&mut info, node(1, 3)).map(|route| route.distance), None);
    let known = known_route(&mut info, node(1, 2)).unwrap();
    assert_eq!(f32::from_bits(known.distance), 10.5);
    assert_eq!(info.routes.keys(), &[node(1, 2), node(1, 1)]);

    learn_route(&mut info, node(1, 2), (2.25f32).to_bits(), 1, 258, lane(9));
    let learned = *info.routes.get(node(1, 2)).unwrap();
    assert_eq!(f32::from_bits(learned.distance), 2.25);
    assert_eq!(learned.distance_hops, 1);
    assert_eq!(learned.outgoing_idx, 2);
    assert_eq!(learned.learned_from, lane(9));
    assert!(learned.fresh);
    assert!(info.routes_changed);
    assert_eq!(info.routes.len(), 2);

    learn_route(&mut info, node(1, 3), 0, 0, 0, lane(9));
    assert_eq!(info.routes.keys(), &[node(1, 2), node(1, 1), node(1, 3)]);
}

#[test]
fn a_transfer_lane_passes_messages_on_to_its_other_side() {
    let sent = vec![
        forward_join_landmark(lane(5), lane(6), &invitation(4, 1, 5, 2)),
        forward_query_routes(lane(5), lane(6)),
        forward_forget_routes(
            lane(5),
            lane(6),
            &ForgetRoutes { forget: CompactVec::from_vec(vec![node(1, 8)]), from: lane(4) },
        ),
    ];
    assert_eq!(
        views(&sent),
        vec![
            "join 6 from 5 as 1/6 hops 2",
            "query 6 by 5 transfer true",
            "forget 6 from 5 nodes [8]",
        ]
    );
}

#[test]
fn what_a_lane_knows_is_compacted_field_by_field() {
    let mut info = blank();
    info.as_destination = Some(node(1, 5));
    info.routes.insert(node(1, 1), route(7, 1));
    info.routes.insert(node(1, 2), route(8, 2));
    info.tell_to_forget_next_tick.push(node(1, 9));
    assert!(!info.is_still_compact());
    let entry = std::mem::size_of::<Destination>();
    let value = std::mem::size_of::<RoutingInfo>();
    assert_eq!(info.dynamic_size_bytes(), 2 * entry + 2 * value + entry);

    let mut copy = blank();
    let mut region = Region::new(info.dynamic_size_bytes());
    copy.compact_from(&info, &mut region);
    assert!(copy.is_still_compact());
    assert_eq!(region.remaining(), 0);
    assert_eq!(copy.dynamic_size_bytes(), info.dynamic_size_bytes());
    assert_eq!(copy.as_destination, Some(node(1, 5)));
    assert_eq!(copy.routes.keys(), &[node(1, 1), node(1, 2)]);
    assert_eq!(copy.tell_to_forget_next_tick.as_slice(), &[node(1, 9)]);
    assert_eq!(
        copy.tell_to_forget_next_tick.pointer().offset(),
        Some(2 * entry + 2 * value)
    );
    let restored = copy.decompact();
    assert!(!restored.is_still_compact());
    assert_eq!(restored.routes.len(), 2);

    let message = ForgetRoutes { forget: CompactVec::from_vec(vec![node(1, 8)]), from: lane(4) };
    assert_eq!(message.dynamic_size_bytes(), entry);
    assert!(!message.is_still_compact());
    assert_eq!(message.decompact().forget.as_slice(), &[node(1, 8)]);
}

#[test]
fn messages_with_lists_wait_in_an_inbox_by_their_size() {
    let header = std::mem::size_of::<kay::Packet<ForgetRoutes>>();
    let entry = std::mem::size_of::<Destination>();
    let mut inbox: kay::Inbox<ForgetRoutes> = kay::Inbox::with_sizes(header, 1024 * header);
    let list = |count: u32| ForgetRoutes {
        forget: CompactVec::from_vec((0..count).map(|n| node(1, n)).collect()),
        from: lane(count),
    };
    for count in [0u32, 40, 1, 0, 41] {
        inbox.put(kay::Packet { recipient_id: Some(lane(count)), message: list(count) });
    }
    let small = inbox.queues().size_to_index(header + entry);
    let large = inbox.queues().size_to_index(header + 41 * entry);
    assert_eq!(inbox.queues().get(0).len(), 2);
    assert_eq!(inbox.queues().get(small).len(), 1);
    assert!(large > small);

    let mut seen = Vec::new();
    let mut iterator = inbox.empty();
    while let Some(packet) = iterator.next() {
        assert!(packet.is_still_compact());
        assert_eq!(packet.message.forget.len() as u32, packet.message.from.instance_id);
        assert_eq!(packet.recipient_id, Some(packet.message.from));
        seen.push(packet.message.forget.len());
    }
    assert_eq!(seen.len(), 5);
    seen.sort();
    assert_eq!(seen, vec![0, 0, 1, 40, 41]);
}
