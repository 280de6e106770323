use orengine_utils::numa::{DataPerNUMANodeManager, MAX_NUMA_NODES_SUPPORTED};

#[test]
fn test_data_per_numa_node_manager_iterators() {
    let mut arr = [1i32; MAX_NUMA_NODES_SUPPORTED];
    for i in 0..8 {
        arr[i] = (i + 1) as i32;
    }
    let mut manager = DataPerNUMANodeManager::from_arr(arr);

    // Test iter()
    let values: Vec<i32> = manager.iter().into_iter().cloned().collect();
    assert_eq!(values[0], 1);
    assert_eq!(values[7], 8);
    assert_eq!(values[8], 1); // rest should be default (1)

    // Test iter_mut()
    for val in manager.iter_mut().into_iter().take(4) {
        *val *= 2;
    }
    assert_eq!(*manager.get_ref_by_node(0), 2);
    assert_eq!(*manager.get_ref_by_node(3), 8);
    assert_eq!(*manager.get_ref_by_node(4), 5);

    // Test iter_enumerated()
    let enumerated: Vec<(usize, &i32)> = manager.iter().into_iter().enumerate().collect();
    assert_eq!(enumerated[0], (0, &2));
    assert_eq!(enumerated[3], (3, &8));
    assert_eq!(enumerated[4], (4, &5));

    // Test iter_enumerated_mut()
    for (node_id, val) in manager.iter_mut().into_iter().enumerate() {
        if node_id % 2 == 0 {
            *val += 10;
        }
    }
    assert_eq!(*manager.get_ref_by_node(0), 12);
    assert_eq!(*manager.get_ref_by_node(1), 4);
    assert_eq!(*manager.get_ref_by_node(2), 16);
}

#[test]
fn test_data_per_numa_node_manager_bounds() {
    let manager = DataPerNUMANodeManager::from_arr([0u8; MAX_NUMA_NODES_SUPPORTED]);

    // Should work for valid indices
    for i in 0..MAX_NUMA_NODES_SUPPORTED {
        let _ref = manager.get_ref_by_node(i);
    }
}

#[test]
fn get_mut_by_node_changes_one_node() {
    let mut manager = DataPerNUMANodeManager::from_arr([7u32; MAX_NUMA_NODES_SUPPORTED]);
    *manager.get_mut_by_node(5) = 9;
    for i in 0..MAX_NUMA_NODES_SUPPORTED {
        let expected = if i == 5 { 9 } else { 7 };
        assert_eq!(*manager.get_ref_by_node(i), expected);
    }
    assert_eq!(manager.iter().len(), MAX_NUMA_NODES_SUPPORTED);
}
