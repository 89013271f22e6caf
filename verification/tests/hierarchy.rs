use world_core::hierarchy::{get_top_parent, Hierarchy, HierarchyError};

#[test]
fn an_entity_without_parent_is_its_own_top() {
    let hierarchy = Hierarchy::new();
    assert_eq!(get_top_parent(42, &hierarchy), 42);
    assert_eq!(hierarchy.parent(42), None);
}

#[test]
fn the_climb_ends_at_the_root() {
    let mut hierarchy = Hierarchy::new();
    assert_eq!(hierarchy.set_parent(2, 1), Ok(()));
    assert_eq!(hierarchy.set_parent(3, 2), Ok(()));
    assert_eq!(hierarchy.set_parent(4, 3), Ok(()));
    assert_eq!(hierarchy.set_parent(5, 1), Ok(()));
    assert_eq!(hierarchy.set_parent(11, 10), Ok(()));
    for entity in [1, 2, 3, 4, 5] {
        assert_eq!(get_top_parent(entity, &hierarchy), 1);
    }
    assert_eq!(get_top_parent(11, &hierarchy), 10);
    assert_eq!(hierarchy.parent(4), Some(3));
    assert_eq!(hierarchy.parent(1), None);
}

#[test]
fn a_link_that_closes_a_circle_is_refused() {
    let mut hierarchy = Hierarchy::new();
    assert_eq!(hierarchy.set_parent(7, 7), Err(HierarchyError::Cycle));
    assert_eq!(hierarchy.parent(7), None);
    assert_eq!(hierarchy.set_parent(2, 1), Ok(()));
    assert_eq!(hierarchy.set_parent(3, 2), Ok(()));
    assert_eq!(hierarchy.set_parent(1, 3), Err(HierarchyError::Cycle));
    assert_eq!(hierarchy.set_parent(1, 2), Err(HierarchyError::Cycle));
    assert_eq!(hierarchy.parent(1), None);
    assert_eq!(get_top_parent(3, &hierarchy), 1);
}

#[test]
fn an_entity_can_move_to_another_parent() {
    let mut hierarchy = Hierarchy::new();
    assert_eq!(hierarchy.set_parent(2, 1), Ok(()));
    assert_eq!(hierarchy.set_parent(3, 2), Ok(()));
    assert_eq!(hierarchy.set_parent(3, 9), Ok(()));
    assert_eq!(hierarchy.parent(3), Some(9));
    assert_eq!(get_top_parent(3, &hierarchy), 9);
    // With 3 gone from under 2, 2 may now hang below 3.
    assert_eq!(hierarchy.set_parent(1, 3), Ok(()));
    assert_eq!(get_top_parent(2, &hierarchy), 9);
}

#[test]
fn removing_a_parent_cuts_the_chain() {
    let mut hierarchy = Hierarchy::new();
    assert_eq!(hierarchy.set_parent(2, 1), Ok(()));
    assert_eq!(hierarchy.set_parent(3, 2), Ok(()));
    hierarchy.remove_parent(2);
    assert_eq!(hierarchy.parent(2), None);
    assert_eq!(get_top_parent(3, &hierarchy), 2);
    hierarchy.remove_parent(99);
    assert_eq!(get_top_parent(3, &hierarchy), 2);
}

#[test]
fn on_chain_includes_the_start() {
    let mut hierarchy = Hierarchy::new();
    assert_eq!(hierarchy.set_parent(2, 1), Ok(()));
    assert_eq!(hierarchy.set_parent(3, 2), Ok(()));
    assert!(hierarchy.is_on_chain(3, 3));
    assert!(hierarchy.is_on_chain(3, 2));
    assert!(hierarchy.is_on_chain(3, 1));
    assert!(!hierarchy.is_on_chain(1, 3));
    assert!(!hierarchy.is_on_chain(3, 4));
}

#[test]
fn a_deep_chain_is_climbed_to_its_top() {
    let mut hierarchy = Hierarchy::new();
    for child in 1..2000u64 {
        assert_eq!(hierarchy.set_parent(child, child - 1), Ok(()));
    }
    assert_eq!(get_top_parent(1999, &hierarchy), 0);
    assert_eq!(hierarchy.set_parent(0, 1999), Err(HierarchyError::Cycle));
}
