use betrayal::process::{Filter, ProcessQuery};
use betrayal::reclass::config_file::{Field, FieldResult, ReclassStruct, ValueResult};
use betrayal::{read_memory, write_memory, BetrayalError};

fn own_pid() -> i32 {
    nix::unistd::getpid().as_raw()
}

#[test]
fn test_read_own_memory() {
    let buffer: Vec<u8> = vec![0xEF, 0xBE, 0xAD, 0xDE];
    let address = buffer.as_ptr() as usize;
    let read = read_memory(own_pid(), address, 4).unwrap();
    assert_eq!(read, vec![0xEF, 0xBE, 0xAD, 0xDE]);
}

#[test]
fn test_read_invalid_pid_is_partial_read() {
    assert!(matches!(
        read_memory(-1, 0x1000, 4),
        Err(BetrayalError::PartialRead)
    ));
}

#[test]
fn test_write_invalid_pid_is_bad_write() {
    assert!(matches!(
        write_memory(-1, 0x1000, vec![1, 2, 3]),
        Err(BetrayalError::BadWrite(_))
    ));
}

#[test]
fn test_mappings_of_invalid_pid_is_bad_pid() {
    assert!(matches!(
        ProcessQuery::<u8>::mappings_all(-1),
        Err(BetrayalError::BadPid)
    ));
}

#[test]
fn test_write_to_missing_candidate_is_bad_write() {
    let mut process = ProcessQuery::<i32>::new(own_pid());
    assert!(matches!(
        process.perform_write((0x1234, 7)),
        Err(BetrayalError::BadWrite(_))
    ));
}

#[test]
fn test_tracked_candidate_reads_current_value() {
    let buffer: Vec<u32> = vec![0xDEADBEEF];
    let address = buffer.as_ptr() as usize;
    let mut process = ProcessQuery::<u32>::new(own_pid());
    process.add_address(address).unwrap();
    let candidate = process.results.get(address).expect("candidate must survive refresh");
    assert_eq!(candidate.1, address);
    assert_eq!(candidate.2, 0xDEADBEEF);
}

#[test]
fn test_changed_by_keeps_shifted_candidate() {
    let mut buffer: Vec<u32> = vec![0xDEADBEEF];
    let address = buffer.as_ptr() as usize;
    let mut process = ProcessQuery::<u32>::new(own_pid());
    process.add_address(address).unwrap();
    assert_eq!(process.results.get(address).unwrap().2, 0xDEADBEEF);
    // the target moves the value by one
    buffer[0] = 0xDEADBEF0;
    // new + (-1 wrapping) == previous keeps the candidate
    process.perform_query(Filter::ChangedBy(u32::MAX)).unwrap();
    let kept = process.results.get(address).expect("shifted candidate kept");
    assert_eq!(kept.2, 0xDEADBEF0);
    // a refinement that cannot hold drops it
    process.perform_query(Filter::IsEqual(123u32)).unwrap();
    assert!(process.results.get(address).is_none());
}

#[test]
fn test_write_then_refresh_sees_written_value() {
    let buffer: Vec<i32> = vec![41];
    let address = buffer.as_ptr() as usize;
    let mut process = ProcessQuery::<i32>::new(own_pid());
    process.add_address(address).unwrap();
    process.perform_write((address, 42)).unwrap();
    let candidate = process.results.get(address).expect("candidate kept after write");
    assert_eq!(candidate.2, 42);
}

#[test]
fn test_value_box_refinement_bounds_addresses_and_values() {
    let buffer: Vec<i32> = vec![1, 9, 2, 9, 3];
    let address = buffer.as_ptr() as usize;
    let mut process = ProcessQuery::<i32>::new(own_pid());
    process.add_address_range(address, address + 20).unwrap();
    process
        .perform_query(Filter::IsInValueBox(address, address + 20, vec![1, 2, 3]))
        .unwrap();
    assert!(process.results.len() >= 3);
    let mut i = 0;
    while i < process.results.len() {
        let candidate = *process.results.index(i);
        assert!(address <= candidate.1 && candidate.1 <= address + 20);
        assert!([1, 2, 3].contains(&candidate.2));
        i += 1;
    }
}

#[test]
fn test_reclass_struct_overlay() {
    // x: i32 = 11, four bytes of padding, y: u16 = 7
    let buffer: Vec<u8> = vec![11, 0, 0, 0, 0, 0, 0, 0, 7, 0];
    let address = buffer.as_ptr() as usize;
    let schema = ReclassStruct {
        name: "Overlay".to_string(),
        fields: vec![
            ("x".to_string(), Field::I32),
            ("pad".to_string(), Field::Padding(4)),
            ("y".to_string(), Field::U16),
        ],
    };
    let result = schema.result(own_pid(), address);
    assert_eq!(result.fields.len(), 3);
    match &result.fields[0].1 {
        FieldResult::I32(ValueResult::Val(_, x)) => assert_eq!(*x, 11),
        other => panic!("x slot has the wrong shape: {:?}", other),
    }
    match &result.fields[1].1 {
        FieldResult::Padding(n) => assert_eq!(*n, 4),
        other => panic!("pad slot has the wrong shape: {:?}", other),
    }
    match &result.fields[2].1 {
        FieldResult::U16(ValueResult::Val(_, y)) => assert_eq!(*y, 7),
        other => panic!("y slot has the wrong shape: {:?}", other),
    }
}

#[test]
fn test_reclass_pointer_chases_stored_address() {
    let target: Vec<u16> = vec![2137];
    let pointer: Vec<u64> = vec![target.as_ptr() as u64];
    let address = pointer.as_ptr() as usize;
    let schema = Field::Pointer64(Box::new(Field::U16));
    match schema.result(own_pid(), address) {
        FieldResult::Pointer64(shown, sub) => {
            assert_eq!(shown, address);
            match *sub {
                FieldResult::U16(ValueResult::Val(_, v)) => assert_eq!(v, 2137),
                other => panic!("pointed-to slot has the wrong shape: {:?}", other),
            }
        },
        other => panic!("pointer slot has the wrong shape: {:?}", other),
    }
}

#[test]
fn test_reclass_search_values_finds_offset_value() {
    let mut buffer: Vec<u8> = vec![0; 32];
    buffer[12..14].copy_from_slice(&2137u16.to_le_bytes());
    let address = buffer.as_ptr() as usize;
    let schema = Field::SearchValues(vec![(Field::U16, "2137".to_string())]);
    match schema.result(own_pid(), address) {
        FieldResult::U16(ValueResult::Val(_, v)) => assert_eq!(v, 2137),
        other => panic!("search result has the wrong shape: {:?}", other),
    }
}

#[test]
fn test_reclass_read_failure_is_error_leaf() {
    // an address that is certainly unmapped: the null page
    let result = Field::U32.result(own_pid(), 8);
    match result {
        FieldResult::U32(ValueResult::Failed(text)) => {
            assert!(text.contains("error"));
        },
        other => panic!("unmapped read has the wrong shape: {:?}", other),
    }
}

#[test]
fn test_static_location_of_own_heap_is_none() {
    let buffer: Vec<u8> = vec![1, 2, 3, 4];
    let address = buffer.as_ptr() as usize;
    let info = betrayal::AddressInfo { writable: true };
    // the heap is anonymous and follows no named mapping contiguously
    let location = info.static_location(own_pid(), address);
    if let Some(found) = location {
        assert_eq!(found.base + found.offset, address);
    }
}

#[test]
fn test_pointer_tree_nodes_and_edges() {
    // with no discovery levels the builder only records the handed-in
    // addresses, so the graph's growth is exactly observable
    let mut graph: betrayal::PointerGraph = petgraph::graph::Graph::new();
    let roots: Vec<u64> = vec![0x5000];
    betrayal::build_pointer_tree::<u64>(own_pid(), &mut graph, None, &roots, 0, 0).unwrap();
    assert_eq!(graph.node_count(), 1);
    assert_eq!(graph.edge_count(), 0);
    assert_eq!(graph[petgraph::graph::NodeIndex::new(0)], 0x5000);
    // a second level of addresses links each new node into its parent
    let children: Vec<u64> = vec![0x6000, 0x7000];
    betrayal::build_pointer_tree::<u64>(own_pid(), &mut graph, Some(0), &children, 0, 0).unwrap();
    assert_eq!(graph.node_count(), 3);
    assert_eq!(graph.edge_count(), 2);
    let root = petgraph::graph::NodeIndex::new(0);
    let first = petgraph::graph::NodeIndex::new(1);
    let second = petgraph::graph::NodeIndex::new(2);
    assert_eq!(graph[first], 0x6000);
    assert_eq!(graph[second], 0x7000);
    assert!(graph.contains_edge(first, root));
    assert!(graph.contains_edge(second, root));
    assert!(!graph.contains_edge(root, first));
}

#[test]
fn test_find_helpers_report_bad_pid() {
    assert!(matches!(
        betrayal::find_equal_to(-1, 7i32),
        Err(BetrayalError::BadPid)
    ));
    assert!(matches!(
        betrayal::find_in_range(-1, 1u32, 9u32),
        Err(BetrayalError::BadPid)
    ));
}

#[test]
fn test_pointer_map_reports_bad_pid() {
    assert!(matches!(
        betrayal::pointer_map::<u64>(-1, 0x5000, 8),
        Err(BetrayalError::BadPid)
    ));
}
