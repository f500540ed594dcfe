use betrayal::region::{static_location_in, MapPath, Region};
use betrayal::AddressInfo;

fn region(base: usize, ceiling: usize, pathname: MapPath) -> (AddressInfo, Region) {
    (
        AddressInfo { writable: true },
        Region {
            base,
            ceiling,
            readable: true,
            writable: true,
            executable: false,
            pathname,
        },
    )
}

#[test]
fn test_anonymous_tail_resolves_to_preceding_named_region() {
    // /bin/foo at [0x1000, 0x2000), anonymous tail at [0x2000, 0x3000)
    let maps = vec![
        region(0x1000, 0x2000, MapPath::MappedFile("/bin/foo".to_string())),
        region(0x2000, 0x3000, MapPath::MappedFile(String::new())),
    ];
    let hit = static_location_in(&maps, 0x2100).unwrap();
    assert_eq!(hit.map_path, "/bin/foo");
    assert_eq!(hit.base, 0x1000);
    assert_eq!(hit.offset, 0x2100 - 0x1000);
}

#[test]
fn test_anonymous_after_anonymous_is_not_static() {
    let maps = vec![
        region(0x1000, 0x2000, MapPath::MappedFile(String::new())),
        region(0x2000, 0x3000, MapPath::MappedFile(String::new())),
    ];
    assert!(static_location_in(&maps, 0x2100).is_none());
}

#[test]
fn test_named_region_resolves_directly() {
    let maps = vec![region(0x5000, 0x6000, MapPath::MappedFile("/lib/bar".to_string()))];
    let hit = static_location_in(&maps, 0x5004).unwrap();
    assert_eq!(hit.map_path, "/lib/bar");
    assert_eq!(hit.base, 0x5000);
    assert_eq!(hit.offset, 4);
}

#[test]
fn test_contiguous_same_file_regions_coalesce() {
    // two touching rows of the same file: the extent's base is the first row's
    let maps = vec![
        region(0x1000, 0x2000, MapPath::MappedFile("/bin/foo".to_string())),
        region(0x2000, 0x3000, MapPath::MappedFile("/bin/foo".to_string())),
    ];
    let hit = static_location_in(&maps, 0x2500).unwrap();
    assert_eq!(hit.base, 0x1000);
    assert_eq!(hit.offset, 0x1500);
}

#[test]
fn test_gap_stops_coalescing() {
    // same file but a hole between the rows: the later row stands alone
    let maps = vec![
        region(0x1000, 0x1800, MapPath::MappedFile("/bin/foo".to_string())),
        region(0x2000, 0x3000, MapPath::MappedFile("/bin/foo".to_string())),
    ];
    let hit = static_location_in(&maps, 0x2500).unwrap();
    assert_eq!(hit.base, 0x2000);
    assert_eq!(hit.offset, 0x500);
}

#[test]
fn test_special_regions_are_not_static() {
    let maps = vec![region(0x1000, 0x2000, MapPath::Heap)];
    assert!(static_location_in(&maps, 0x1500).is_none());
}

#[test]
fn test_unmapped_address_is_not_static() {
    let maps = vec![region(0x1000, 0x2000, MapPath::MappedFile("/bin/foo".to_string()))];
    assert!(static_location_in(&maps, 0x4000).is_none());
}
