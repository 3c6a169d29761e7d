use oxide::panes::{least_parts, parts_of, Axis, Direction, Node, MOST_MINIMUM, WHOLE};

/// A share of the whole, in parts.
fn parts(share: f64) -> i64 {
    (share * WHOLE as f64).round() as i64
}

fn shares(list: &[f64]) -> Vec<u32> {
    list.iter().map(|s| parts(*s) as u32).collect()
}

fn ids(node: &Node<u64>) -> Vec<u64> {
    node.leaves()
}

fn ratios_of(node: &Node<u64>, path: &[usize]) -> Vec<u32> {
    match node.at_path(path) {
        Some(Node::Split { ratios, .. }) => ratios.clone(),
        other => panic!("no split at {path:?}: {other:?}"),
    }
}

fn assert_close(a: &[u32], b: &[f64]) {
    assert_eq!(a.len(), b.len(), "{a:?} vs {b:?}");
    for (x, y) in a.iter().zip(b) {
        assert!((*x as f64 / WHOLE as f64 - y).abs() < 1e-4, "{a:?} vs {b:?}");
    }
}

/// Walk every split and check the parallel-vec invariant.
fn check_invariants(node: &Node<u64>) {
    if let Node::Split { children, ratios, .. } = node {
        assert_eq!(children.len(), ratios.len());
        assert!(ratios.iter().all(|r| *r > 0));
        assert_eq!(ratios.iter().map(|r| *r as u64).sum::<u64>(), WHOLE as u64, "{ratios:?}");
        for c in children {
            check_invariants(c);
        }
    }
}

#[test]
fn split_right_then_down_nests_only_the_right_pane() {
    // Split right, focus the new pane, split
    // down. The original pane keeps the full left side.
    let mut tree = Node::leaf(1u64);
    assert!(tree.split(&1, Direction::Right, 2));
    assert_eq!(ids(&tree), vec![1, 2]);

    assert!(tree.split(&2, Direction::Down, 3));
    match &tree {
        Node::Split { axis, children, ratios } => {
            assert_eq!(*axis, Axis::Horizontal);
            assert_eq!(children.len(), 2, "left pane must stay a single child");
            assert_close(ratios, &[0.5, 0.5]);
            assert_eq!(children[0], Node::Leaf(1));
            match &children[1] {
                Node::Split { axis, children, ratios } => {
                    assert_eq!(*axis, Axis::Vertical);
                    assert_eq!(children, &vec![Node::Leaf(2), Node::Leaf(3)]);
                    assert_close(ratios, &[0.5, 0.5]);
                }
                other => panic!("right side should be a vertical split, got {other:?}"),
            }
        }
        other => panic!("root should be a horizontal split, got {other:?}"),
    }
    check_invariants(&tree);
}

#[test]
fn repeated_same_axis_splits_stay_siblings() {
    let mut tree = Node::leaf(1u64);
    tree.split(&1, Direction::Right, 2);
    tree.split(&2, Direction::Right, 3);
    // Three columns, not nested halves. The last split halves pane 2's
    // share, so the shape is 1/2, 1/4, 1/4 — like vim.
    match &tree {
        Node::Split { axis, children, ratios } => {
            assert_eq!(*axis, Axis::Horizontal);
            assert_eq!(children.len(), 3);
            assert_close(ratios, &[0.5, 0.25, 0.25]);
        }
        other => panic!("expected one flat split, got {other:?}"),
    }
    assert_eq!(ids(&tree), vec![1, 2, 3]);
    check_invariants(&tree);
}

#[test]
fn splitting_in_a_three_way_split_halves_only_the_target() {
    let mut tree = Node::split_even(Axis::Horizontal, vec![Node::Leaf(1u64), Node::Leaf(2), Node::Leaf(3)]);
    assert!(tree.split(&2, Direction::Right, 4));
    assert_eq!(ids(&tree), vec![1, 2, 4, 3]);
    assert_close(&ratios_of(&tree, &[]), &[1.0 / 3.0, 1.0 / 6.0, 1.0 / 6.0, 1.0 / 3.0]);
    check_invariants(&tree);
}

#[test]
fn a_share_too_small_to_halve_moves_nothing_else() {
    let thin = |ratios: Vec<u32>| Node::Split {
        axis: Axis::Horizontal,
        children: vec![Node::Leaf(1u64), Node::Leaf(2), Node::Leaf(3)],
        ratios,
    };
    let mut tree = thin(vec![1, WHOLE - 3, 2]);
    assert!(tree.split(&1, Direction::Right, 4));
    assert_eq!(ids(&tree), vec![1, 4, 2, 3]);
    assert_eq!(ratios_of(&tree, &[]), vec![1, 1, WHOLE - 4, 2]);
    check_invariants(&tree);
    let mut tree = thin(vec![1, WHOLE - 3, 2]);
    assert!(tree.split(&3, Direction::Left, 4));
    assert_eq!(ratios_of(&tree, &[]), vec![1, WHOLE - 3, 1, 1]);
    // Shares that were never brought to the whole are split in proportion.
    let mut tree = thin(vec![1, 1, 2]);
    assert!(tree.split(&3, Direction::Right, 4));
    assert_close(&ratios_of(&tree, &[]), &[0.25, 0.25, 0.25, 0.25]);
}

#[test]
fn a_divider_without_a_minimum_still_moves_only_its_neighbours() {
    let mut tree =
        Node::split_even(Axis::Horizontal, vec![Node::Leaf(1u64), Node::Leaf(2), Node::Leaf(3)]);
    let last = ratios_of(&tree, &[])[2];
    assert!(tree.resize_divider(&[], 0, WHOLE as i128, 0));
    assert_eq!(ratios_of(&tree, &[]), vec![WHOLE - last - 1, 1, last]);
    check_invariants(&tree);
}

#[test]
fn split_left_and_up_insert_before() {
    let mut tree = Node::leaf(1u64);
    tree.split(&1, Direction::Left, 2);
    assert_eq!(ids(&tree), vec![2, 1]);

    let mut tree = Node::leaf(1u64);
    tree.split(&1, Direction::Up, 2);
    assert_eq!(ids(&tree), vec![2, 1]);
}

#[test]
fn removing_collapses_single_child_splits() {
    let mut tree = Node::leaf(1u64);
    tree.split(&1, Direction::Right, 2);
    tree.split(&2, Direction::Down, 3);

    assert!(tree.remove(&3));
    // The right side collapses back to a plain leaf.
    assert_eq!(tree, Node::split_even(Axis::Horizontal, vec![Node::Leaf(1), Node::Leaf(2)]));

    assert!(tree.remove(&2));
    assert_eq!(tree, Node::Leaf(1), "root collapses to the survivor");
    assert_eq!(tree.len(), 1);
}

#[test]
fn removing_redistributes_proportionally() {
    let mut tree = Node::Split {
        axis: Axis::Horizontal,
        children: vec![Node::Leaf(1u64), Node::Leaf(2), Node::Leaf(3)],
        ratios: shares(&[0.5, 0.3, 0.2]),
    };
    assert!(tree.remove(&2));
    assert_eq!(ids(&tree), vec![1, 3]);
    // 0.5 : 0.2 keeps its proportion → 5/7 : 2/7.
    assert_close(&ratios_of(&tree, &[]), &[5.0 / 7.0, 2.0 / 7.0]);
    check_invariants(&tree);
}

#[test]
fn last_leaf_cannot_be_removed() {
    let mut tree = Node::leaf(1u64);
    assert!(!tree.remove(&1));
    assert_eq!(tree.len(), 1);
}

#[test]
fn removing_an_unknown_leaf_is_a_no_op() {
    let mut tree = Node::leaf(1u64);
    tree.split(&1, Direction::Right, 2);
    assert!(!tree.remove(&99));
    assert_eq!(ids(&tree), vec![1, 2]);
}

#[test]
fn paths_round_trip() {
    let mut tree = Node::leaf(1u64);
    tree.split(&1, Direction::Right, 2);
    tree.split(&2, Direction::Down, 3);
    assert_eq!(tree.path_to(&1), Some(vec![0]));
    assert_eq!(tree.path_to(&2), Some(vec![1, 0]));
    assert_eq!(tree.path_to(&3), Some(vec![1, 1]));
    assert_eq!(tree.path_to(&9), None);
    assert_eq!(tree.at_path(&[1, 1]), Some(&Node::Leaf(3)));
    assert_eq!(tree.at_path(&[1, 2]), None);
    assert_eq!(tree.at_path(&[0, 0]), None, "leaves have no children");
    assert!(matches!(tree.at_path(&[]), Some(Node::Split { .. })));
    if let Some(Node::Leaf(id)) = tree.at_path_mut(&[1, 1]) {
        *id = 30;
    }
    assert_eq!(ids(&tree), vec![1, 2, 30]);
}

#[test]
fn dragging_a_divider_moves_only_its_neighbours() {
    let mut tree = Node::split_even(Axis::Horizontal, vec![Node::Leaf(1u64), Node::Leaf(2), Node::Leaf(3)]);
    assert!(tree.resize_divider(&[], 0, parts(0.1) as i128, parts(0.05) as u32));
    assert_close(&ratios_of(&tree, &[]), &[1.0 / 3.0 + 0.1, 1.0 / 3.0 - 0.1, 1.0 / 3.0]);
    check_invariants(&tree);
    assert!(!tree.resize_divider(&[], 2, parts(0.1) as i128, parts(0.05) as u32), "no divider after the last child");
    assert!(!tree.resize_divider(&[0], 0, parts(0.1) as i128, parts(0.05) as u32), "leaves have no dividers");
}

#[test]
fn dragging_past_the_minimum_stops_at_it() {
    let mut tree = Node::split_even(Axis::Horizontal, vec![Node::Leaf(1u64), Node::Leaf(2)]);
    assert!(tree.resize_divider(&[], 0, parts(5.0) as i128, parts(0.1) as u32));
    assert_close(&ratios_of(&tree, &[]), &[0.9, 0.1]);
    // Already at the limit: nothing to give.
    assert!(!tree.resize_divider(&[], 0, parts(0.01) as i128, parts(0.1) as u32));
    // And back the other way, clamped again.
    assert!(tree.resize_divider(&[], 0, parts(-5.0) as i128, parts(0.1) as u32));
    assert_close(&ratios_of(&tree, &[]), &[0.1, 0.9]);
    check_invariants(&tree);
}

#[test]
fn resize_leaf_finds_the_enclosing_split_on_the_right_axis() {
    // [1 | [2 / 3]]: pane 3 is inside a vertical split inside a
    // horizontal one.
    let mut tree = Node::leaf(1u64);
    tree.split(&1, Direction::Right, 2);
    tree.split(&2, Direction::Down, 3);

    // Vertically, 3's parent runs that way: 3 is the last child, so it
    // grows by taking from 2.
    assert!(tree.resize_leaf(&3, Axis::Vertical, parts(0.2), parts(0.05) as u32));
    assert_close(&ratios_of(&tree, &[1]), &[0.3, 0.7]);
    assert_close(&ratios_of(&tree, &[]), &[0.5, 0.5]);

    // Horizontally, walk up to the root split: the right column (which
    // holds 3) grows by taking from 1.
    assert!(tree.resize_leaf(&3, Axis::Horizontal, parts(0.1), parts(0.05) as u32));
    assert_close(&ratios_of(&tree, &[]), &[0.4, 0.6]);
    assert_close(&ratios_of(&tree, &[1]), &[0.3, 0.7]);

    // Pane 1 grows to the right by pushing its own divider.
    assert!(tree.resize_leaf(&1, Axis::Horizontal, parts(0.1), parts(0.05) as u32));
    assert_close(&ratios_of(&tree, &[]), &[0.5, 0.5]);
    // A lone root leaf has nothing to resize against.
    assert!(!Node::leaf(7u64).resize_leaf(&7, Axis::Horizontal, parts(0.1), parts(0.05) as u32));
    check_invariants(&tree);
}

#[test]
fn equalise_restores_evenness_at_any_depth() {
    let mut tree = Node::Split {
        axis: Axis::Horizontal,
        children: vec![
            Node::Leaf(1u64),
            Node::Split {
                axis: Axis::Vertical,
                children: vec![Node::Leaf(2), Node::Leaf(3), Node::Leaf(4)],
                ratios: shares(&[0.7, 0.2, 0.1]),
            },
        ],
        ratios: shares(&[0.8, 0.2]),
    };
    tree.equalise();
    assert_close(&ratios_of(&tree, &[]), &[0.5, 0.5]);
    assert_close(&ratios_of(&tree, &[1]), &[1.0 / 3.0; 3]);
    check_invariants(&tree);
}

#[test]
fn normalise_repairs_bad_ratios() {
    let mut tree: Node<u64> = Node::Split {
        axis: Axis::Horizontal,
        children: vec![Node::Leaf(1), Node::Leaf(2)],
        ratios: vec![],
    };
    tree.normalise();
    assert_close(&ratios_of(&tree, &[]), &[0.5, 0.5]);

    let mut tree: Node<u64> = Node::Split {
        axis: Axis::Horizontal,
        children: vec![Node::Leaf(1), Node::Leaf(2)],
        ratios: vec![3, 1],
    };
    tree.normalise();
    assert_close(&ratios_of(&tree, &[]), &[0.75, 0.25]);

    for bad in [shares(&[0.5]), shares(&[0.0, 1.0]), shares(&[0.0, 0.5]), shares(&[0.2, 0.3, 0.5])] {
        let mut tree: Node<u64> = Node::Split {
            axis: Axis::Horizontal,
            children: vec![Node::Leaf(1), Node::Leaf(2)],
            ratios: bad,
        };
        tree.normalise();
        assert_close(&ratios_of(&tree, &[]), &[0.5, 0.5]);
    }
}

#[test]
fn map_preserves_ratios() {
    let tree = Node::Split {
        axis: Axis::Vertical,
        children: vec![Node::Leaf(1u64), Node::Leaf(2)],
        ratios: shares(&[0.3, 0.7]),
    };
    let mapped = tree.map(&|id: &u64| format!("p{id}"));
    assert_eq!(mapped.at_path(&[0]), Some(&Node::Leaf("p1".to_string())));
    assert_eq!(mapped.at_path(&[1]), Some(&Node::Leaf("p2".to_string())));
    match mapped.at_path(&[]).unwrap() {
        Node::Split { ratios, .. } => assert_close(ratios, &[0.3, 0.7]),
        _ => panic!(),
    }
    let back = mapped.map(&|s: &String| s[1..].parse::<u64>().unwrap());
    assert_eq!(back, tree);
}

#[test]
fn v1_json_without_ratios_loads_as_even() {
    let mut tree: Node<u64> = Node::Split {
        axis: Axis::Horizontal,
        children: vec![Node::Leaf(1), Node::Leaf(2), Node::Leaf(3)],
        ratios: vec![],
    };
    assert_eq!(ids(&tree), vec![1, 2, 3]);
    tree.normalise();
    assert_close(&ratios_of(&tree, &[]), &[1.0 / 3.0; 3]);
}

#[test]
fn removing_undoes_splitting() {
    for direction in [Direction::Left, Direction::Right, Direction::Up, Direction::Down] {
        let mut tree = Node::leaf(1u64);
        tree.split(&1, Direction::Right, 2);
        assert!(tree.split(&2, direction, 3));
        assert!(tree.remove(&3));
        assert_eq!(ids(&tree), vec![1, 2]);
        check_invariants(&tree);
    }
}

#[test]
fn a_drag_starts_from_where_it_began() {
    let mut tree = Node::split_even(Axis::Horizontal, vec![Node::Leaf(1u64), Node::Leaf(2)]);
    let start = ratios_of(&tree, &[]);
    tree.drag_divider(&[], 0, &start, parts(0.1) as i128, parts(0.05) as u32);
    assert_close(&ratios_of(&tree, &[]), &[0.6, 0.4]);
    tree.drag_divider(&[], 0, &start, parts(0.2) as i128, parts(0.05) as u32);
    assert_close(&ratios_of(&tree, &[]), &[0.7, 0.3]);
    tree.drag_divider(&[], 0, &start, 0, parts(0.05) as u32);
    assert_close(&ratios_of(&tree, &[]), &[0.5, 0.5]);
}

#[test]
fn lengths_become_parts() {
    assert_eq!(parts_of(10, 500_000_000, 100), 50_000_000);
    assert_eq!(parts_of(-10, 500_000_000, 100), -50_000_000);
    assert_eq!(parts_of(1, 1, 3), 0);
    assert_eq!(least_parts(10, 500_000_000, 100), 50_000_000);
    assert_eq!(least_parts(99, 500_000_000, 100), MOST_MINIMUM);
}

#[test]
fn the_share_along_an_axis_is_found() {
    let mut tree = Node::leaf(1u64);
    tree.split(&1, Direction::Right, 2);
    tree.split(&2, Direction::Down, 3);
    tree.resize_leaf(&3, Axis::Vertical, parts(0.2), parts(0.05) as u32);
    assert_eq!(tree.share_of(&3, Axis::Vertical), Some(700_000_000));
    assert_eq!(tree.share_of(&3, Axis::Horizontal), Some(500_000_000));
    assert_eq!(tree.share_of(&1, Axis::Vertical), None);
}
