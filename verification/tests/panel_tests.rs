use panes::panel::{NavDirection, PanelId, PanelNode, TerminalKey};

fn leaf(id: u64) -> PanelNode {
    PanelNode::Leaf(PanelId(id), TerminalKey(100 + id))
}

fn h(a: PanelNode, b: PanelNode) -> PanelNode {
    PanelNode::Horizontal(Box::new(a), Box::new(b))
}

fn v(a: PanelNode, b: PanelNode) -> PanelNode {
    PanelNode::Vertical(Box::new(a), Box::new(b))
}

fn ids(ns: &[u64]) -> Vec<PanelId> {
    ns.iter().map(|n| PanelId(*n)).collect()
}

#[test]
fn leaves_are_listed_left_to_right() {
    let tree = h(v(leaf(1), leaf(2)), h(leaf(3), v(leaf(4), leaf(5))));
    assert_eq!(tree.leaves(), ids(&[1, 2, 3, 4, 5]));
    assert_eq!(leaf(7).leaves(), ids(&[7]));
}

#[test]
fn contains_finds_every_leaf_and_nothing_else() {
    let tree = h(v(leaf(1), leaf(2)), leaf(3));
    for n in 1..=3 {
        assert!(tree.contains(PanelId(n)));
    }
    assert!(!tree.contains(PanelId(4)));
    assert!(!leaf(1).contains(PanelId(2)));
}

#[test]
fn handle_gives_the_terminal_of_the_panel() {
    let tree = h(v(leaf(1), leaf(2)), leaf(3));
    assert_eq!(tree.handle(PanelId(2)), Some(TerminalKey(102)));
    assert_eq!(tree.handle(PanelId(3)), Some(TerminalKey(103)));
    assert_eq!(tree.handle(PanelId(9)), None);
}

#[test]
fn handle_takes_the_first_leaf_of_a_repeated_panel() {
    let tree = h(
        PanelNode::Leaf(PanelId(1), TerminalKey(7)),
        PanelNode::Leaf(PanelId(1), TerminalKey(8)),
    );
    assert_eq!(tree.handle(PanelId(1)), Some(TerminalKey(7)));
}

#[test]
fn all_handles_lists_terminals_in_leaf_order() {
    let tree = v(h(leaf(1), leaf(2)), leaf(3));
    assert_eq!(
        tree.all_handles(),
        vec![TerminalKey(101), TerminalKey(102), TerminalKey(103)]
    );
}

#[test]
fn replace_leaf_swaps_in_the_replacement() {
    let tree = h(leaf(1), leaf(2));
    let split = v(leaf(2), leaf(5));
    let r = tree.replace_leaf(PanelId(2), split);
    assert_eq!(r, h(leaf(1), v(leaf(2), leaf(5))));
    assert_eq!(r.leaves(), ids(&[1, 2, 5]));
}

#[test]
fn replace_leaf_of_absent_panel_changes_nothing() {
    let tree = h(leaf(1), v(leaf(2), leaf(3)));
    let r = tree.clone().replace_leaf(PanelId(9), leaf(4));
    assert_eq!(r, tree);
}

#[test]
fn replace_leaf_replaces_every_occurrence() {
    let tree = h(leaf(1), leaf(1));
    let r = tree.replace_leaf(PanelId(1), leaf(2));
    assert_eq!(r, h(leaf(2), leaf(2)));
}

#[test]
fn remove_only_leaf_gives_none() {
    assert_eq!(leaf(1).remove_leaf(PanelId(1)), None);
}

#[test]
fn remove_other_leaf_gives_it_back() {
    assert_eq!(leaf(1).remove_leaf(PanelId(2)), Some(leaf(1)));
}

#[test]
fn remove_leaf_promotes_the_sibling() {
    let tree = h(leaf(1), leaf(2));
    assert_eq!(tree.clone().remove_leaf(PanelId(1)), Some(leaf(2)));
    assert_eq!(tree.remove_leaf(PanelId(2)), Some(leaf(1)));
}

#[test]
fn remove_leaf_deep_in_the_tree_keeps_the_rest() {
    let tree = h(v(leaf(1), h(leaf(2), leaf(3))), leaf(4));
    let r = tree.remove_leaf(PanelId(3)).unwrap();
    assert_eq!(r, h(v(leaf(1), leaf(2)), leaf(4)));
    assert_eq!(r.leaves(), ids(&[1, 2, 4]));
}

#[test]
fn remove_absent_leaf_keeps_the_tree() {
    let tree = v(leaf(1), leaf(2));
    assert_eq!(tree.clone().remove_leaf(PanelId(5)), Some(tree));
}

#[test]
fn remove_leaf_removes_only_the_first_occurrence() {
    let tree = h(leaf(1), v(leaf(2), leaf(1)));
    assert_eq!(tree.remove_leaf(PanelId(1)), Some(v(leaf(2), leaf(1))));
}

#[test]
fn find_neighbour_in_a_horizontal_split() {
    let tree = h(leaf(1), leaf(2));
    assert_eq!(tree.find_neighbour(PanelId(1), NavDirection::Right), Some(PanelId(2)));
    assert_eq!(tree.find_neighbour(PanelId(2), NavDirection::Left), Some(PanelId(1)));
    assert_eq!(tree.find_neighbour(PanelId(1), NavDirection::Left), None);
    assert_eq!(tree.find_neighbour(PanelId(1), NavDirection::Down), None);
}

#[test]
fn find_neighbour_in_a_vertical_split() {
    let tree = v(leaf(1), leaf(2));
    assert_eq!(tree.find_neighbour(PanelId(1), NavDirection::Down), Some(PanelId(2)));
    assert_eq!(tree.find_neighbour(PanelId(2), NavDirection::Up), Some(PanelId(1)));
    assert_eq!(tree.find_neighbour(PanelId(2), NavDirection::Down), None);
    assert_eq!(tree.find_neighbour(PanelId(1), NavDirection::Right), None);
}

#[test]
fn find_neighbour_is_decided_by_the_closest_split() {
    // Three panels side by side: moving right from 1 reaches the adjacent 2,
    // decided by the inner split; from 2 the inner split cannot move right,
    // so the outer split resolves the move to 3.
    let tree = h(h(leaf(1), leaf(2)), leaf(3));
    assert_eq!(tree.find_neighbour(PanelId(1), NavDirection::Right), Some(PanelId(2)));
    assert_eq!(tree.find_neighbour(PanelId(2), NavDirection::Right), Some(PanelId(3)));
    assert_eq!(tree.find_neighbour(PanelId(3), NavDirection::Right), None);
    assert_eq!(tree.find_neighbour(PanelId(2), NavDirection::Left), Some(PanelId(1)));
    assert_eq!(tree.find_neighbour(PanelId(3), NavDirection::Left), Some(PanelId(1)));
    assert_eq!(tree.find_neighbour(PanelId(1), NavDirection::Left), None);
}

#[test]
fn find_neighbour_in_stacked_panels() {
    let tree = v(leaf(1), v(leaf(2), leaf(3)));
    assert_eq!(tree.find_neighbour(PanelId(2), NavDirection::Down), Some(PanelId(3)));
    assert_eq!(tree.find_neighbour(PanelId(3), NavDirection::Up), Some(PanelId(2)));
    assert_eq!(tree.find_neighbour(PanelId(2), NavDirection::Up), Some(PanelId(1)));
    assert_eq!(tree.find_neighbour(PanelId(1), NavDirection::Down), Some(PanelId(2)));
}

#[test]
fn find_neighbour_descends_into_the_side_holding_the_panel() {
    let tree = h(v(leaf(1), leaf(2)), leaf(3));
    assert_eq!(tree.find_neighbour(PanelId(1), NavDirection::Down), Some(PanelId(2)));
    assert_eq!(tree.find_neighbour(PanelId(2), NavDirection::Up), Some(PanelId(1)));
    assert_eq!(tree.find_neighbour(PanelId(2), NavDirection::Right), Some(PanelId(3)));
}

#[test]
fn find_neighbour_of_absent_panel_or_single_leaf_is_none() {
    let tree = h(leaf(1), leaf(2));
    assert_eq!(tree.find_neighbour(PanelId(9), NavDirection::Right), None);
    assert_eq!(leaf(1).find_neighbour(PanelId(1), NavDirection::Right), None);
}

#[test]
fn neighbours_are_other_panels_of_the_layout() {
    let tree = h(v(leaf(1), leaf(2)), v(leaf(3), h(leaf(4), leaf(5))));
    let all = tree.leaves();
    let dirs = [
        NavDirection::Left,
        NavDirection::Right,
        NavDirection::Up,
        NavDirection::Down,
    ];
    for p in &all {
        for d in dirs {
            if let Some(n) = tree.find_neighbour(*p, d) {
                assert!(all.contains(&n));
                assert_ne!(n, *p);
            }
        }
    }
}

#[test]
fn clone_is_equal() {
    let tree = h(v(leaf(1), leaf(2)), leaf(3));
    assert_eq!(tree.clone(), tree);
}

#[test]
fn all_handles_pairs_with_leaves() {
    let tree = h(v(leaf(4), leaf(2)), h(leaf(9), leaf(1)));
    let panels = tree.leaves();
    let terminals = tree.all_handles();
    assert_eq!(panels.len(), terminals.len());
    for (p, t) in panels.iter().zip(terminals.iter()) {
        assert_eq!(tree.handle(*p), Some(*t));
    }
}

#[test]
fn removal_keeps_the_order_of_the_other_panels() {
    let tree = v(h(leaf(1), leaf(2)), h(leaf(3), v(leaf(4), leaf(5))));
    for n in 1..=5u64 {
        let r = tree.clone().remove_leaf(PanelId(n)).unwrap();
        let expected: Vec<PanelId> = (1..=5u64).filter(|k| *k != n).map(PanelId).collect();
        assert_eq!(r.leaves(), expected);
    }
}

#[test]
fn find_neighbour_with_a_panel_on_both_sides() {
    let tree = h(leaf(1), leaf(1));
    assert_eq!(tree.find_neighbour(PanelId(1), NavDirection::Left), Some(PanelId(1)));
    assert_eq!(tree.find_neighbour(PanelId(1), NavDirection::Right), Some(PanelId(1)));
    assert_eq!(tree.find_neighbour(PanelId(1), NavDirection::Up), None);
    let stacked = v(leaf(2), leaf(2));
    assert_eq!(stacked.find_neighbour(PanelId(2), NavDirection::Up), Some(PanelId(2)));
    assert_eq!(stacked.find_neighbour(PanelId(2), NavDirection::Down), Some(PanelId(2)));
}
