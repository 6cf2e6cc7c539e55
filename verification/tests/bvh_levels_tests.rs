use lib::bvh_levels::{nodes_at_level, walk_is_defined, NodeLink};

fn leaf() -> NodeLink {
    NodeLink { is_leaf: true, child_offset: 0 }
}

fn internal(off: usize) -> NodeLink {
    NodeLink { is_leaf: false, child_offset: off }
}

/// A tree laid out depth-first: root 0 with children 1 and 4; node 1 with
/// children 2 and 3; node 4 with children 5 and 6.
fn sample_tree() -> Vec<NodeLink> {
    vec![internal(4), internal(2), leaf(), leaf(), internal(2), leaf(), leaf()]
}

#[test]
fn levels_in_breadth_first_order() {
    let t = sample_tree();
    assert_eq!(nodes_at_level(&t, 0), vec![0]);
    assert_eq!(nodes_at_level(&t, 1), vec![1, 4]);
    assert_eq!(nodes_at_level(&t, 2), vec![2, 3, 5, 6]);
    assert_eq!(nodes_at_level(&t, 3), Vec::<usize>::new());
    assert_eq!(nodes_at_level(&t, 40), Vec::<usize>::new());
}

#[test]
fn negative_level_or_empty_tree() {
    assert!(nodes_at_level(&sample_tree(), -1).is_empty());
    assert!(nodes_at_level(&Vec::new(), 0).is_empty());
    assert_eq!(nodes_at_level(&vec![leaf()], 0), vec![0]);
}

#[test]
fn walk_is_defined_on_a_whole_tree() {
    let t = sample_tree();
    for level in -3..50 {
        assert!(walk_is_defined(&t, level));
    }
    assert!(walk_is_defined(&Vec::new(), 4));
}

#[test]
fn walk_is_undefined_past_the_node_array() {
    // Node 0 claims children 1 and 5, but there are only three nodes.
    let t = vec![internal(5), leaf(), leaf()];
    // Level 0 is printed, then the walk looks at node 1 only.
    assert!(walk_is_defined(&t, 0));
    // Level 1 holds node 5, which does not exist.
    assert!(!walk_is_defined(&t, 1));
    assert!(!walk_is_defined(&t, 2));
    // The first node below the level must exist too.
    let u = vec![internal(1), leaf()];
    assert!(!walk_is_defined(&vec![internal(1)], 0));
    assert!(walk_is_defined(&u, 0));
}

#[test]
fn walk_is_undefined_when_a_child_index_overflows() {
    // Node 1 is internal with an offset that runs past usize::MAX.
    let t = vec![internal(1), internal(usize::MAX), leaf()];
    assert!(walk_is_defined(&t, 0));
    assert!(!walk_is_defined(&t, 1));
    // Leaves are never followed, whatever their offset.
    let u = vec![internal(1), NodeLink { is_leaf: true, child_offset: usize::MAX }, leaf()];
    assert!(walk_is_defined(&u, 3));
}
