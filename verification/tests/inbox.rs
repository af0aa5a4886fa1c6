use kay::compact::total_size_bytes;
use kay::inbox::{CHUNK_SIZE, MAX_MESSAGES_AT_ONCE};
use kay::{Compact, CompactVec, Inbox, Message, Packet, ID};

fn drain<M: Message>(inbox: &mut Inbox<M>) -> Vec<Packet<M>> {
    let mut packets = Vec::new();
    let mut iterator = inbox.empty();
    while let Some(packet) = iterator.next() {
        packets.push(packet);
    }
    packets
}

fn to(instance_id: u32) -> Option<ID> {
    Some(ID::new(1, instance_id, 0))
}

#[test]
fn a_hundred_packets_of_thirty_two_bytes_are_drained_once_each() {
    let mut inbox: Inbox<(u64, u64)> = Inbox::with_sizes(64, 4096);
    for number in 0..100u64 {
        let packet = Packet { recipient_id: to(number as u32), message: (number, number * number) };
        assert_eq!(total_size_bytes(&packet), 32);
        inbox.put(packet);
    }
    assert_eq!(inbox.queues().len(), 1);
    assert_eq!(inbox.queues().get(0).len(), 100);
    assert_eq!(inbox.queues().get(0).chunks(), 2);

    let packets = drain(&mut inbox);
    assert_eq!(packets.len(), 100);
    let mut numbers: Vec<u64> = packets.iter().map(|packet| packet.message.0).collect();
    numbers.sort();
    numbers.dedup();
    assert_eq!(numbers, (0..100u64).collect::<Vec<u64>>());
    for packet in &packets {
        assert_eq!(packet.message.1, packet.message.0 * packet.message.0);
        assert_eq!(packet.recipient_id, to(packet.message.0 as u32));
    }
    assert_eq!(inbox.queues().get(0).len(), 0);
    assert_eq!(inbox.queues().get(0).chunks(), 0);
    assert!(drain(&mut inbox).is_empty());
}

#[test]
fn an_empty_inbox_drains_nothing() {
    let mut inbox: Inbox<u8> = Inbox::with_sizes(16, 64);
    assert!(inbox.empty().next().is_none());
    assert_eq!(inbox.queues().len(), 0);
    let mut by_default: Inbox<u64> = Inbox::new();
    assert!(by_default.empty().next().is_none());
    assert_eq!(by_default.queues().len(), 0);
    assert_eq!(CHUNK_SIZE, 64 * 1024 * 1024);
}

#[test]
fn the_typical_size_is_the_size_of_a_packet_without_payload() {
    assert_eq!(<u64 as Message>::typical_size(), std::mem::size_of::<Packet<u64>>());
    assert_eq!(
        <CompactVec<u8> as Message>::typical_size(),
        std::mem::size_of::<Packet<CompactVec<u8>>>()
    );
    let mut inbox: Inbox<u64> = Inbox::new();
    inbox.put(Packet { recipient_id: None, message: 1 });
    assert_eq!(inbox.queues().len(), 1);
    assert_eq!(inbox.queues().get(0).slot_size(), std::mem::size_of::<Packet<u64>>());
}

#[test]
fn within_a_size_class_the_newest_message_comes_first() {
    let mut inbox: Inbox<u32> = Inbox::with_sizes(64, 256);
    for number in 0..10u32 {
        inbox.put(Packet { recipient_id: None, message: number });
    }
    let numbers: Vec<u32> = drain(&mut inbox).iter().map(|packet| packet.message).collect();
    assert_eq!(numbers, vec![9, 8, 7, 6, 5, 4, 3, 2, 1, 0]);
}

fn bytes(count: usize, first: u8) -> Packet<CompactVec<u8>> {
    let mut payload = CompactVec::with_capacity(count);
    for index in 0..count {
        payload.push(first.wrapping_add(index as u8));
    }
    Packet { recipient_id: to(count as u32), message: payload }
}

#[test]
fn messages_go_to_the_smallest_class_that_holds_them_and_larger_classes_are_drained_first() {
    let header = std::mem::size_of::<Packet<CompactVec<u8>>>();
    let mut inbox: Inbox<CompactVec<u8>> = Inbox::with_sizes(header, 64 * header);
    inbox.put(bytes(0, 1));
    inbox.put(bytes(3 * header, 2));
    inbox.put(bytes(1, 3));
    inbox.put(bytes(header, 4));
    inbox.put(bytes(0, 5));
    assert_eq!(inbox.queues().len(), 3);
    assert_eq!(inbox.queues().get(0).len(), 2);
    assert_eq!(inbox.queues().get(1).len(), 2);
    assert_eq!(inbox.queues().get(2).len(), 1);

    let packets = drain(&mut inbox);
    let lengths: Vec<usize> = packets.iter().map(|packet| packet.message.len()).collect();
    assert_eq!(lengths, vec![3 * header, header, 1, 0, 0]);
    assert_eq!(packets[1].message.get(0), &4);
    assert_eq!(packets[2].message.get(0), &3);
    assert_eq!(packets[0].recipient_id, to(3 * header as u32));
}

#[test]
fn stored_packets_are_compact_copies_behind_their_header() {
    let header = std::mem::size_of::<Packet<CompactVec<u8>>>();
    let mut inbox: Inbox<CompactVec<u8>> = Inbox::with_sizes(header, 64 * header);
    let packet = bytes(5, 10);
    assert!(!packet.is_still_compact());
    assert_eq!(packet.dynamic_size_bytes(), 5);
    assert_eq!(total_size_bytes(&packet), header + 5);
    inbox.put(packet);
    let stored = drain(&mut inbox).pop().unwrap();
    assert!(stored.is_still_compact());
    assert_eq!(stored.message.pointer().offset(), Some(header));
    assert_eq!(stored.message.as_slice(), &[10, 11, 12, 13, 14]);
    assert_eq!(stored.dynamic_size_bytes(), 5);
    let owned = stored.decompact();
    assert!(!owned.is_still_compact());
    assert_eq!(owned.message.as_slice(), &[10, 11, 12, 13, 14]);
    assert_eq!(owned.recipient_id, to(5));
}

#[test]
fn a_drain_takes_at_most_one_batch_of_a_size_class() {
    assert_eq!(MAX_MESSAGES_AT_ONCE, 500);
    let mut inbox: Inbox<u32> = Inbox::with_sizes(64, 4096);
    for number in 0..501u32 {
        inbox.put(Packet { recipient_id: None, message: number });
    }
    let first: Vec<u32> = drain(&mut inbox).iter().map(|packet| packet.message).collect();
    assert_eq!(first.len(), 500);
    assert_eq!(first[0], 500);
    assert_eq!(first[499], 1);
    assert_eq!(inbox.queues().get(0).len(), 1);
    let second: Vec<u32> = drain(&mut inbox).iter().map(|packet| packet.message).collect();
    assert_eq!(second, vec![0]);
}

#[test]
fn a_drain_that_is_given_up_early_leaves_the_rest_in_the_inbox() {
    let mut inbox: Inbox<u32> = Inbox::with_sizes(64, 128);
    for number in 0..5u32 {
        inbox.put(Packet { recipient_id: None, message: number });
    }
    assert_eq!(inbox.queues().get(0).chunks(), 3);
    {
        let mut iterator = inbox.empty();
        assert_eq!(iterator.next().map(|packet| packet.message), Some(4));
        assert_eq!(iterator.next().map(|packet| packet.message), Some(3));
    }
    assert_eq!(inbox.queues().get(0).len(), 3);
    assert_eq!(inbox.queues().get(0).chunks(), 2);
    inbox.put(Packet { recipient_id: None, message: 9 });
    let numbers: Vec<u32> = drain(&mut inbox).iter().map(|packet| packet.message).collect();
    assert_eq!(numbers, vec![9, 2, 1, 0]);
}

#[test]
fn every_message_put_before_a_drain_is_seen_exactly_once() {
    let header = std::mem::size_of::<Packet<CompactVec<u8>>>();
    let mut inbox: Inbox<CompactVec<u8>> = Inbox::with_sizes(header, 16 * header);
    let mut expected = Vec::new();
    for number in 0..60usize {
        let count = (number * 7) % (4 * header);
        inbox.put(bytes(count, number as u8));
        expected.push((count, number as u8));
    }
    let mut seen: Vec<(usize, u8)> = drain(&mut inbox)
        .iter()
        .map(|packet| {
            let first = if packet.message.is_empty() {
                0
            } else {
                *packet.message.get(0)
            };
            (packet.message.len(), first)
        })
        .collect();
    let mut expected: Vec<(usize, u8)> =
        expected.into_iter().map(|(count, first)| (count, if count == 0 { 0 } else { first })).collect();
    seen.sort();
    expected.sort();
    assert_eq!(seen, expected);
    assert!(drain(&mut inbox).is_empty());
}
