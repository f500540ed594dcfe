use betrayal::process::{scan_bytes, Filter};
use betrayal::results::CurrentQueryResults;
use betrayal::AddressInfo;

fn heap_info() -> AddressInfo {
    AddressInfo { writable: true }
}

#[test]
fn test_scan_finds_exactly_one_equal_value() {
    // a heap-like span holding 0xDEADBEEF at exactly one offset
    let mut memory = vec![0u8; 64];
    memory[20..24].copy_from_slice(&0xDEADBEEFu32.to_le_bytes());
    let empty = CurrentQueryResults::<u32>::new();
    let found = scan_bytes(
        heap_info(),
        0x1000,
        &memory,
        &Filter::IsEqual(3735928559u32),
        &empty,
    );
    assert_eq!(found.len(), 1);
    assert_eq!(found[0].1, 0x1000 + 20);
    assert_eq!(found[0].2, 0xDEADBEEF);
}

#[test]
fn test_scan_any_counts_every_offset() {
    let memory = vec![0u8; 64];
    let empty = CurrentQueryResults::<u32>::new();
    let found = scan_bytes(heap_info(), 0, &memory, &Filter::<u32>::Any, &empty);
    assert_eq!(found.len(), 64 - 4 + 1);
}

#[test]
fn test_scan_range_filter() {
    let mut memory = vec![0u8; 12];
    memory[0..4].copy_from_slice(&100i32.to_le_bytes());
    memory[4..8].copy_from_slice(&200i32.to_le_bytes());
    memory[8..12].copy_from_slice(&300i32.to_le_bytes());
    let empty = CurrentQueryResults::<i32>::new();
    let found = scan_bytes(heap_info(), 0, &memory, &Filter::InRange((150, 250)), &empty);
    // only the value 200, decoded at its aligned offset
    assert!(found.iter().any(|c| c.1 == 4 && c.2 == 200));
    for c in &found {
        assert!(150 <= c.2 && c.2 <= 250);
    }
}

#[test]
fn test_scan_value_box_restricts_addresses_and_values() {
    let mut memory = vec![0u8; 40];
    for (i, v) in [1i32, 2, 3, 9, 1].iter().enumerate() {
        memory[8 * i..8 * i + 4].copy_from_slice(&v.to_le_bytes());
    }
    let empty = CurrentQueryResults::<i32>::new();
    let lo = 0x10000000usize;
    let found = scan_bytes(
        heap_info(),
        lo,
        &memory,
        &Filter::IsInValueBox(lo, lo + 16, vec![1, 2, 3]),
        &empty,
    );
    for c in &found {
        assert!(lo <= c.1 && c.1 <= lo + 16);
        assert!([1, 2, 3].contains(&c.2));
    }
    assert!(found.iter().any(|c| c.1 == lo && c.2 == 1));
    assert!(found.iter().any(|c| c.1 == lo + 8 && c.2 == 2));
    // the 9 never shows up
    assert!(!found.iter().any(|c| c.2 == 9));
}

#[test]
fn test_changed_by_matches_against_previous_set() {
    let info = heap_info();
    let mut previous = CurrentQueryResults::<u32>::new();
    previous.insert((info, 0x1000, 0xDEADBEEF));
    // the value at 0x1000 moved to 0xDEADBEF0: ChangedBy(-1 as wrapping)
    let filter = Filter::ChangedBy(u32::MAX);
    assert!(filter.matches(&(info, 0x1000, 0xDEADBEF0), &previous));
    // a different delta does not match
    assert!(!filter.matches(&(info, 0x1000, 0xDEADBEF1), &previous));
    // an address that was not in the previous set never matches
    assert!(!filter.matches(&(info, 0x2000, 0xDEADBEF0), &previous));
    // ChangedBy(0) keeps exactly the unchanged value
    let unchanged = Filter::ChangedBy(0u32);
    assert!(unchanged.matches(&(info, 0x1000, 0xDEADBEEF), &previous));
    assert!(!unchanged.matches(&(info, 0x1000, 0xDEADBEF0), &previous));
}

#[test]
fn test_address_ranges_filter() {
    let info = heap_info();
    let empty = CurrentQueryResults::<u32>::new();
    let filter = Filter::InAddressRanges(vec![(10, 20), (40, 50)]);
    assert!(filter.matches(&(info, 15, 0u32), &empty));
    assert!(filter.matches(&(info, 10, 0u32), &empty));
    assert!(filter.matches(&(info, 40, 0u32), &empty));
    assert!(!filter.matches(&(info, 30, 0u32), &empty));
    // the intervals are half-closed: the upper bound itself is outside
    assert!(!filter.matches(&(info, 20, 0u32), &empty));
    assert!(!filter.matches(&(info, 50, 0u32), &empty));
}

#[test]
fn test_results_map_is_address_ordered() {
    let info = heap_info();
    let mut set = CurrentQueryResults::<i32>::new();
    set.insert((info, 30, 3));
    set.insert((info, 10, 1));
    set.insert((info, 20, 2));
    assert_eq!(set.len(), 3);
    assert_eq!(set.index(0).1, 10);
    assert_eq!(set.index(1).1, 20);
    assert_eq!(set.index(2).1, 30);
    // replacing a key keeps one entry
    set.insert((info, 20, 22));
    assert_eq!(set.len(), 3);
    assert_eq!(set.get(20).unwrap().2, 22);
    set.remove(20);
    assert_eq!(set.len(), 2);
    assert!(set.get(20).is_none());
}
