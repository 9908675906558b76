use groupsim::grouping::{full_group_count, group_bounds, starting_id, unplaced_clients};

#[test]
fn partial_group_never_dispatched() {
    assert_eq!(full_group_count(10, 3), 3);
    assert_eq!(unplaced_clients(10, 3), 1);
    let bounds = group_bounds(10, 3);
    assert_eq!(bounds, vec![(0, 3), (3, 6), (6, 9)]);
    for (start, end) in bounds {
        assert_eq!(end - start, 3);
    }
}

#[test]
fn exact_fit_leaves_nobody_unplaced() {
    assert_eq!(full_group_count(7500, 15), 500);
    assert_eq!(unplaced_clients(7500, 15), 0);
    let bounds = group_bounds(7500, 15);
    assert_eq!(bounds.len(), 500);
    for (g, (start, end)) in bounds.iter().enumerate() {
        assert_eq!(*start, g * 15);
        assert_eq!(end - start, 15);
        assert!(*end <= 7500);
    }
}

#[test]
fn too_few_clients_yield_no_group() {
    assert_eq!(full_group_count(2, 3), 0);
    assert_eq!(unplaced_clients(2, 3), 2);
    assert!(group_bounds(2, 3).is_empty());
}

#[test]
fn group_ids_start_contiguously() {
    assert_eq!(starting_id(1, 15), 0);
    assert_eq!(starting_id(2, 15), 15);
    assert_eq!(starting_id(3, 15), 30);
    assert_eq!(starting_id(1, 3), 0);
    assert_eq!(starting_id(500, 15), 7485);
}
