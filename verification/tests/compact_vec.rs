use kay::compact::{compact_behind_from, total_size_bytes};
use kay::{Compact, CompactVec, PointerToMaybeCompact, Region};

fn filled(values: &[u64]) -> CompactVec<u64> {
    let mut vec = CompactVec::new();
    for value in values {
        vec.push(*value);
    }
    vec
}

#[test]
fn a_new_sequence_is_empty_and_embedded() {
    let vec: CompactVec<u64> = CompactVec::new();
    assert_eq!(vec.len(), 0);
    assert!(vec.is_empty());
    assert_eq!(vec.capacity(), 0);
    assert!(vec.is_embedded());
    assert!(vec.is_still_compact());
    assert_eq!(vec.dynamic_size_bytes(), 0);
}

#[test]
fn with_capacity_reserves_heap_storage() {
    let vec: CompactVec<u32> = CompactVec::with_capacity(5);
    assert_eq!(vec.len(), 0);
    assert_eq!(vec.capacity(), 5);
    assert!(!vec.is_embedded());
    assert!(!vec.is_still_compact());
    assert_eq!(vec.dynamic_size_bytes(), 20);
}

#[test]
fn operations_behave_like_those_of_a_vector() {
    let mut vec: CompactVec<u64> = CompactVec::new();
    let mut reference: Vec<u64> = Vec::new();
    for value in 0..20u64 {
        vec.push(value * 3);
        reference.push(value * 3);
    }
    assert_eq!(vec.pop(), reference.pop());
    assert_eq!(vec.remove(4), reference.remove(4));
    vec.insert(2, 1000);
    reference.insert(2, 1000);
    vec.insert(0, 2000);
    reference.insert(0, 2000);
    let end = vec.len();
    vec.insert(end, 3000);
    reference.insert(end, 3000);
    assert_eq!(vec.remove(0), reference.remove(0));
    vec.swap(1, 7);
    reference.swap(1, 7);
    vec.swap(3, 3);
    assert_eq!(vec.len(), reference.len());
    assert_eq!(vec.len(), 20);
    assert_eq!(vec.as_slice(), reference.as_slice());
    for index in 0..reference.len() {
        assert_eq!(*vec.get(index), reference[index]);
    }
}

#[test]
fn pop_on_an_empty_sequence_gives_nothing() {
    let mut vec: CompactVec<u8> = CompactVec::new();
    assert_eq!(vec.pop(), None);
    assert_eq!(vec.len(), 0);
}

#[test]
fn remove_and_insert_keep_the_order_of_the_other_elements() {
    let mut vec = filled(&[1, 2, 3, 4, 5]);
    assert_eq!(vec.remove(1), 2);
    assert_eq!(vec.as_slice(), &[1, 3, 4, 5]);
    vec.insert(3, 9);
    assert_eq!(vec.as_slice(), &[1, 3, 4, 9, 5]);
}

#[test]
fn elements_can_be_written_by_index() {
    let mut vec = filled(&[1, 2, 3]);
    *vec.get_mut(1) = 20;
    assert_eq!(vec.set(2, 30), 3);
    vec.as_mut_slice()[0] = 10;
    assert_eq!(vec.as_slice(), &[10, 20, 30]);
}

#[test]
fn clear_keeps_capacity_and_storage() {
    let mut vec = filled(&[1, 2, 3]);
    let capacity = vec.capacity();
    vec.clear();
    assert!(vec.is_empty());
    assert_eq!(vec.capacity(), capacity);
    assert!(!vec.is_embedded());
}

#[test]
fn capacity_grows_by_doubling() {
    let mut vec: CompactVec<u64> = CompactVec::new();
    let mut capacities = Vec::new();
    for value in 0..9u64 {
        vec.push(value);
        capacities.push(vec.capacity());
    }
    assert_eq!(capacities, vec![1, 2, 4, 4, 8, 8, 8, 8, 16]);
}

fn embedded_with_capacity(capacity: usize) -> CompactVec<u64> {
    let source: CompactVec<u64> = CompactVec::with_capacity(capacity);
    let mut embedded: CompactVec<u64> = CompactVec::new();
    let mut region = Region::new(source.dynamic_size_bytes());
    embedded.compact_from(&source, &mut region);
    embedded
}

#[test]
fn one_element_more_than_the_embedded_capacity_spills_once() {
    let mut vec = embedded_with_capacity(4);
    assert!(vec.is_embedded());
    let mut spills = 0;
    for value in 0..20u64 {
        let was_embedded = vec.is_embedded();
        vec.push(value);
        if was_embedded && !vec.is_embedded() {
            spills += 1;
            assert_eq!(vec.len(), 5);
        }
        assert_eq!(vec.is_embedded(), value < 4);
    }
    assert_eq!(spills, 1);
    vec.pop();
    vec.remove(0);
    vec.clear();
    vec.push(1);
    assert!(!vec.is_embedded());
}

#[test]
fn five_elements_in_an_embedded_capacity_of_four_stay_readable() {
    let mut vec = embedded_with_capacity(4);
    for value in [10u64, 20, 30, 40] {
        vec.push(value);
    }
    assert!(vec.is_still_compact());
    assert_eq!(vec.capacity(), 4);
    vec.push(50);
    assert!(!vec.is_still_compact());
    assert_eq!(vec.capacity(), 8);
    assert_eq!(vec.len(), 5);
    for (index, value) in [10u64, 20, 30, 40, 50].iter().enumerate() {
        assert_eq!(vec.get(index), value);
    }
}

#[test]
fn extend_stays_embedded_exactly_if_everything_fits() {
    let mut fits = embedded_with_capacity(4);
    fits.extend(vec![1, 2, 3, 4]);
    assert!(fits.is_embedded());
    assert_eq!(fits.capacity(), 4);
    assert_eq!(fits.as_slice(), &[1, 2, 3, 4]);

    let mut spills = embedded_with_capacity(4);
    spills.push(0);
    spills.extend(vec![1, 2, 3, 4]);
    assert!(!spills.is_embedded());
    assert_eq!(spills.capacity(), 8);
    assert_eq!(spills.as_slice(), &[0, 1, 2, 3, 4]);

    let mut grows_twice: CompactVec<u64> = CompactVec::with_capacity(1);
    grows_twice.extend(vec![1, 2, 3]);
    assert_eq!(grows_twice.capacity(), 4);
}

#[test]
fn from_vec_and_into_vec_keep_the_elements() {
    let vec = CompactVec::from_vec(vec![7u16, 8, 9]);
    assert_eq!(vec.capacity(), 3);
    assert!(!vec.is_embedded());
    assert_eq!(vec.into_vec(), vec![7, 8, 9]);
}

#[test]
fn dynamic_size_counts_the_capacity_and_the_nested_payloads() {
    let mut inner_a: CompactVec<u8> = CompactVec::with_capacity(3);
    inner_a.push(1);
    let inner_b: CompactVec<u8> = CompactVec::with_capacity(5);
    let mut outer: CompactVec<CompactVec<u8>> = CompactVec::with_capacity(2);
    outer.push(inner_a);
    outer.push(inner_b);
    let header = std::mem::size_of::<CompactVec<u8>>();
    assert_eq!(outer.dynamic_size_bytes(), 2 * header + 3 + 5);
    assert_eq!(total_size_bytes(&outer), 2 * header + 3 + 5 + std::mem::size_of::<CompactVec<CompactVec<u8>>>());
}

#[test]
fn a_compact_copy_is_compact_and_as_large_as_its_source() {
    let mut source: CompactVec<u64> = CompactVec::with_capacity(4);
    source.push(10);
    source.push(20);
    source.push(30);
    assert!(!source.is_still_compact());
    let mut copy: CompactVec<u64> = CompactVec::new();
    let mut region = Region::new(100);
    copy.compact_from(&source, &mut region);
    assert!(copy.is_still_compact());
    assert_eq!(copy.dynamic_size_bytes(), source.dynamic_size_bytes());
    assert_eq!(copy.dynamic_size_bytes(), 32);
    assert_eq!(copy.as_slice(), source.as_slice());
    assert_eq!(copy.capacity(), 4);
    assert_eq!(region.used(), 32);
    assert_eq!(region.remaining(), 68);
    assert_eq!(region.capacity(), 100);
}

#[test]
fn nested_payloads_are_laid_out_one_behind_the_other() {
    let mut outer: CompactVec<CompactVec<u8>> = CompactVec::with_capacity(2);
    let mut first: CompactVec<u8> = CompactVec::with_capacity(3);
    first.push(1);
    first.push(2);
    let mut second: CompactVec<u8> = CompactVec::with_capacity(5);
    second.push(3);
    outer.push(first);
    outer.push(second);

    let mut copy: CompactVec<CompactVec<u8>> = CompactVec::new();
    let mut region = Region::behind_header(1000, 40);
    copy.compact_from(&outer, &mut region);
    let header = std::mem::size_of::<CompactVec<u8>>();
    assert_eq!(copy.pointer(), PointerToMaybeCompact::Embedded { offset: 40 });
    assert_eq!(
        copy.get(0).pointer(),
        PointerToMaybeCompact::Embedded { offset: 40 + 2 * header }
    );
    assert_eq!(
        copy.get(1).pointer(),
        PointerToMaybeCompact::Embedded { offset: 40 + 2 * header + 3 }
    );
    assert_eq!(region.used(), 40 + 2 * header + 3 + 5);
    assert!(copy.is_still_compact());
    assert_eq!(copy.get(0).as_slice(), &[1, 2]);
    assert_eq!(copy.get(1).as_slice(), &[3]);
}

#[test]
fn a_change_inside_a_compact_copy_is_noticed() {
    let mut outer: CompactVec<CompactVec<u8>> = CompactVec::with_capacity(1);
    outer.push(CompactVec::with_capacity(1));
    let mut copy: CompactVec<CompactVec<u8>> = CompactVec::new();
    let mut region = Region::new(1000);
    copy.compact_from(&outer, &mut region);
    assert!(copy.is_still_compact());
    copy.get_mut(0).push(1);
    assert!(copy.is_still_compact());
    copy.get_mut(0).push(2);
    assert!(!copy.is_still_compact());
    assert!(copy.is_embedded());
}

#[test]
fn decompacting_gives_an_equal_value_that_owns_its_storage() {
    let mut source: CompactVec<CompactVec<u8>> = CompactVec::with_capacity(2);
    source.push(CompactVec::from_vec(vec![1, 2, 3]));
    source.push(CompactVec::from_vec(vec![4]));
    let mut copy: CompactVec<CompactVec<u8>> = CompactVec::new();
    let mut region = Region::new(source.dynamic_size_bytes());
    copy.compact_from(&source, &mut region);
    assert_eq!(region.remaining(), 0);

    for restored in [source.decompact(), copy.decompact()] {
        assert_eq!(restored.len(), 2);
        assert_eq!(restored.get(0).as_slice(), &[1, 2, 3]);
        assert_eq!(restored.get(1).as_slice(), &[4]);
        assert!(!restored.is_embedded());
        assert!(!restored.get(0).is_embedded());
        assert!(!restored.get(1).is_embedded());
        assert!(!restored.is_still_compact());
    }
}

#[test]
fn plain_values_are_always_compact_and_own_nothing() {
    let value = 17u64;
    assert!(value.is_still_compact());
    assert_eq!(value.dynamic_size_bytes(), 0);
    assert_eq!(total_size_bytes(&value), 8);
    let mut copy = 0u64;
    let mut region = Region::new(8);
    copy.compact_from(&value, &mut region);
    assert_eq!(copy, 17);
    assert_eq!(region.used(), 0);
    assert_eq!(value.decompact(), 17);
    assert!("text".is_still_compact());
    assert_eq!((1u8, 2u16).dynamic_size_bytes(), 0);
}

#[test]
fn compacting_behind_a_header_starts_at_the_end_of_the_header() {
    let source = CompactVec::from_vec(vec![1u32, 2, 3]);
    let mut copy: CompactVec<u32> = CompactVec::new();
    let header = std::mem::size_of::<CompactVec<u32>>();
    compact_behind_from(&mut copy, &source, header + 12);
    assert_eq!(copy.pointer(), PointerToMaybeCompact::Embedded { offset: header });
    assert_eq!(copy.as_slice(), &[1, 2, 3]);
    assert!(copy.is_still_compact());
}

#[test]
fn a_region_hands_out_ranges_one_behind_the_other() {
    let mut region = Region::new(10);
    assert_eq!(region.reserve(4), 0);
    assert_eq!(region.reserve(0), 4);
    assert_eq!(region.reserve(6), 4);
    assert_eq!(region.used(), 10);
    assert_eq!(region.remaining(), 0);
    assert_eq!(region.capacity(), 10);
}

#[test]
fn the_pointer_knows_its_mode() {
    let mut pointer = PointerToMaybeCompact::new_free();
    assert!(!pointer.is_compact());
    assert_eq!(pointer.offset(), None);
    pointer.set_to_compact(12);
    assert!(pointer.is_compact());
    assert_eq!(pointer.offset(), Some(12));
    assert_eq!(pointer, PointerToMaybeCompact::new_compact(12));
    pointer.set_to_free();
    assert_eq!(pointer, PointerToMaybeCompact::Spilled);
}

#[test]
fn contains_finds_exactly_the_stored_elements() {
    let vec = filled(&[4, 5, 6]);
    assert!(vec.contains(&5));
    assert!(!vec.contains(&7));
    let empty: CompactVec<u64> = CompactVec::new();
    assert!(!empty.contains(&0));
}
