use workspace_switcher::errors::Error;
use workspace_switcher::tree::{find_focused, require_focused, ContainerNode};

fn leaf(id: i64, focused: bool) -> ContainerNode {
    ContainerNode { id, focused, nodes: Vec::new() }
}

fn branch(id: i64, nodes: Vec<ContainerNode>) -> ContainerNode {
    ContainerNode { id, focused: false, nodes }
}

#[test]
fn no_focused_node_means_no_match() {
    let roots = vec![
        branch(1, vec![leaf(2, false), branch(3, vec![leaf(4, false)])]),
        branch(5, vec![leaf(6, false)]),
    ];
    assert_eq!(find_focused(&roots), None);
    assert_eq!(require_focused(&roots).unwrap_err(), Error::NoFocusedNode);
}

#[test]
fn empty_forest_has_no_match() {
    let roots: Vec<ContainerNode> = Vec::new();
    assert_eq!(find_focused(&roots), None);
}

#[test]
fn finds_deep_focused_leaf() {
    let roots = vec![
        branch(1, vec![leaf(2, false)]),
        branch(3, vec![branch(4, vec![branch(5, vec![leaf(99, true), leaf(6, false)])])]),
    ];
    assert_eq!(find_focused(&roots), Some(99));
    assert_eq!(require_focused(&roots).unwrap(), 99);
}

#[test]
fn sibling_order_does_not_change_the_match() {
    let a = vec![
        branch(1, vec![leaf(2, false), branch(3, vec![leaf(42, true)])]),
        branch(4, vec![leaf(5, false)]),
    ];
    let b = vec![
        branch(4, vec![leaf(5, false)]),
        branch(1, vec![branch(3, vec![leaf(42, true)]), leaf(2, false)]),
    ];
    assert_eq!(find_focused(&a), Some(42));
    assert_eq!(find_focused(&b), Some(42));
}

#[test]
fn shallow_match_wins_over_descent() {
    // the focused direct child is returned even when listed after a branch
    let roots = vec![branch(
        1,
        vec![branch(2, vec![leaf(3, false)]), leaf(7, true)],
    )];
    assert_eq!(find_focused(&roots), Some(7));
}

#[test]
fn a_focused_root_itself_is_not_a_match() {
    // the search starts below the roots, as the move action requires
    let roots = vec![ContainerNode { id: 1, focused: true, nodes: Vec::new() }];
    assert_eq!(find_focused(&roots), None);
}
