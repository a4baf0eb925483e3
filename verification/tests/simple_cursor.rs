use generic_cursors::simple::{MoveDecision, MoveError, MutRefStack, TopMut};

struct Item {
    value: u32,
    next: Option<usize>,
}

/// A list 0 -> 1 -> ... -> n-1 whose items hold 10, 20, ...
fn list(n: usize) -> Vec<Item> {
    let mut nodes = Vec::new();
    for i in 0..n {
        nodes.push(Item {
            value: 10 * (i as u32 + 1),
            next: if i + 1 < n { Some(i + 1) } else { None },
        });
    }
    nodes
}

fn next_of(item: &mut Item) -> Option<usize> {
    item.next
}

#[test]
fn simple_new_cursor_stands_on_its_root() {
    let stack = MutRefStack::new(list(3), 1);
    assert!(stack.is_at_root());
    assert_eq!(stack.top().value, 20);
}

#[test]
fn simple_top_mut_writes_the_node_on_top() {
    let mut stack = MutRefStack::new(list(2), 0);
    stack.top_mut().value = 7;
    assert_eq!(stack.top().value, 7);
    let nodes = stack.into_nodes();
    assert_eq!(nodes[0].value, 7);
    assert_eq!(nodes[1].value, 20);
}

#[test]
fn simple_descend_with_walks_to_the_end_of_a_list() {
    let mut stack = MutRefStack::new(list(4), 0);
    let mut seen = vec![stack.top().value];
    while let Some(node) = stack.descend_with(next_of) {
        seen.push(node.value);
    }
    assert_eq!(seen, vec![10, 20, 30, 40]);
    assert!(!stack.is_at_root());
    assert_eq!(stack.top().value, 40);
}

#[test]
fn simple_descend_with_without_an_edge_changes_nothing() {
    let mut stack = MutRefStack::new(list(1), 0);
    assert!(stack.descend_with(next_of).is_none());
    assert!(stack.is_at_root());
    assert_eq!(stack.top().value, 10);
}

#[test]
fn simple_descend_with_keeps_what_the_function_wrote() {
    let mut stack = MutRefStack::new(list(2), 0);
    let entered = stack.descend_with(|item| {
        item.value += 1;
        item.next
    });
    assert_eq!(entered.map(|node| node.value), Some(20));
    let refused = stack.descend_with(|item| {
        item.value += 5;
        item.next
    });
    assert!(refused.is_none());
    let nodes = stack.into_nodes();
    assert_eq!(nodes[0].value, 11);
    assert_eq!(nodes[1].value, 25);
}

#[test]
fn simple_ascend_returns_to_the_node_below() {
    let mut stack = MutRefStack::new(list(3), 0);
    stack.descend_with(next_of);
    stack.descend_with(next_of);
    assert_eq!(stack.ascend().map(|node| node.value), Some(20));
    assert_eq!(stack.ascend().map(|node| node.value), Some(10));
    assert!(stack.is_at_root());
}

#[test]
fn simple_ascend_at_the_root_returns_none() {
    let mut stack = MutRefStack::new(list(3), 2);
    assert!(stack.ascend().is_none());
    assert!(stack.is_at_root());
    assert_eq!(stack.top().value, 30);
}

#[test]
fn simple_balanced_walk_comes_back_to_where_it_started() {
    let mut stack = MutRefStack::new(list(5), 0);
    stack.descend_with(next_of);
    // From node 1: down, down, up, down, up, up.
    assert_eq!(stack.top().value, 20);
    assert!(stack.descend_with(next_of).is_some());
    assert!(stack.descend_with(next_of).is_some());
    assert!(stack.ascend().is_some());
    assert!(stack.descend_with(next_of).is_some());
    assert!(stack.ascend().is_some());
    assert!(stack.ascend().is_some());
    assert_eq!(stack.top().value, 20);
    // Exactly one frame above the root is left.
    assert!(!stack.is_at_root());
    assert!(stack.ascend().is_some());
    assert!(stack.is_at_root());
}

#[test]
fn simple_inject_top_enters_any_node() {
    let mut stack = MutRefStack::new(list(4), 0);
    assert_eq!(stack.inject_top(3).value, 40);
    assert_eq!(stack.top().value, 40);
    assert_eq!(stack.ascend().map(|node| node.value), Some(10));
}

#[test]
fn simple_inject_with_enters_the_node_named() {
    let mut stack = MutRefStack::new(list(4), 0);
    assert_eq!(stack.inject_with(|_| Some(2)).map(|node| node.value), Some(30));
    assert!(stack.inject_with(|_| None).is_none());
    assert_eq!(stack.top().value, 30);
}

#[test]
fn simple_ascend_while_always_true_ends_at_the_root() {
    let mut stack = MutRefStack::new(list(4), 0);
    while stack.descend_with(next_of).is_some() {}
    let mut asked = 0;
    let root = stack.ascend_while(|_| {
        asked += 1;
        true
    });
    assert_eq!(root.value, 10);
    assert_eq!(asked, 3);
    assert!(stack.is_at_root());
    assert!(stack.ascend().is_none());
}

#[test]
fn simple_ascend_while_stops_where_it_is_refused() {
    let mut stack = MutRefStack::new(list(5), 0);
    while stack.descend_with(next_of).is_some() {}
    let stop = stack.ascend_while(|item| item.value > 30);
    assert_eq!(stop.value, 30);
    assert_eq!(stack.top().value, 30);
    assert_eq!(stack.ascend().map(|node| node.value), Some(20));
}

#[test]
fn simple_ascend_while_refused_at_once_changes_no_frame() {
    let mut stack = MutRefStack::new(list(3), 0);
    while stack.descend_with(next_of).is_some() {}
    assert_eq!(stack.ascend_while(|_| false).value, 30);
    assert_eq!(stack.top().value, 30);
}

#[test]
fn simple_ascend_while_at_the_root_does_not_ask() {
    let mut stack = MutRefStack::new(list(3), 0);
    let mut asked = false;
    let root = stack.ascend_while(|_| {
        asked = true;
        true
    });
    assert_eq!(root.value, 10);
    assert!(!asked);
}

#[test]
fn simple_ascend_while_keeps_what_the_predicate_wrote() {
    let mut stack = MutRefStack::new(list(3), 0);
    while stack.descend_with(next_of).is_some() {}
    stack.ascend_while(|item| {
        item.value += 1;
        true
    });
    let nodes = stack.into_nodes();
    assert_eq!(nodes[0].value, 10);
    assert_eq!(nodes[1].value, 21);
    assert_eq!(nodes[2].value, 31);
}

#[test]
fn simple_move_with_follows_each_decision() {
    let mut stack = MutRefStack::new(list(4), 0);
    assert_eq!(stack.move_with(|item| MoveDecision::Descend(item.next.unwrap())).map(|n| n.value), Ok(20));
    assert_eq!(stack.move_with(|_| MoveDecision::Stay).map(|n| n.value), Ok(20));
    assert_eq!(stack.move_with(|_| MoveDecision::Inject(3)).map(|n| n.value), Ok(40));
    assert_eq!(stack.move_with(|_| MoveDecision::Ascend).map(|n| n.value), Ok(20));
    assert_eq!(stack.move_with(|_| MoveDecision::Ascend).map(|n| n.value), Ok(10));
    assert!(stack.is_at_root());
}

#[test]
fn simple_move_with_ascend_at_the_root_is_an_error() {
    let mut stack = MutRefStack::new(list(2), 0);
    let moved = stack.move_with(|item| {
        item.value = 1;
        MoveDecision::Ascend
    });
    assert_eq!(moved.map(|n| n.value), Err(MoveError::AscendAtRoot));
    assert!(stack.is_at_root());
    assert_eq!(stack.top().value, 1);
}

#[test]
fn simple_move_by_follows_a_decision_made_elsewhere() {
    let mut stack = MutRefStack::new(list(3), 0);
    assert_eq!(stack.move_by(MoveDecision::Descend(1)).map(|n| n.value), Ok(20));
    assert_eq!(stack.move_by(MoveDecision::Inject(2)).map(|n| n.value), Ok(30));
    assert_eq!(stack.move_by(MoveDecision::Stay).map(|n| n.value), Ok(30));
    assert_eq!(stack.move_by(MoveDecision::Ascend).map(|n| n.value), Ok(20));
    assert_eq!(stack.move_by(MoveDecision::Ascend).map(|n| n.value), Ok(10));
    assert_eq!(stack.move_by(MoveDecision::Ascend).map(|n| n.value), Err(MoveError::AscendAtRoot));
}

#[test]
fn simple_to_root_gives_up_every_frame_above_the_root() {
    let mut stack = MutRefStack::new(list(4), 1);
    while stack.descend_with(next_of).is_some() {}
    assert_eq!(stack.to_root().value, 20);
    assert!(stack.is_at_root());
    assert!(stack.ascend().is_none());
}

#[test]
fn simple_to_root_at_the_root_changes_nothing() {
    let mut stack = MutRefStack::new(list(2), 0);
    assert_eq!(stack.to_root().value, 10);
    assert!(stack.is_at_root());
}

#[test]
fn simple_into_top_keeps_the_node_on_top() {
    let mut stack = MutRefStack::new(list(3), 0);
    while stack.descend_with(next_of).is_some() {}
    let mut top = stack.into_top();
    assert_eq!(top.get().value, 30);
    top.get_mut().value = 31;
    assert_eq!(top.get().value, 31);
    let nodes = top.into_nodes();
    assert_eq!(nodes.iter().map(|item| item.value).collect::<Vec<u32>>(), vec![10, 20, 31]);
}

#[test]
fn simple_top_mut_token_reaches_the_node_it_names() {
    let mut top = TopMut::new(list(3), 1);
    assert_eq!(top.get().value, 20);
    top.get_mut().value = 5;
    assert_eq!(top.into_nodes()[1].value, 5);
}

#[test]
fn simple_len_counts_the_nodes_of_the_arena() {
    let mut stack = MutRefStack::new(list(4), 0);
    assert_eq!(stack.len(), 4);
    stack.descend_with(next_of);
    assert_eq!(stack.len(), 4);
}

#[test]
fn simple_admits_nodes_that_exist_and_are_not_on_the_path() {
    let mut stack = MutRefStack::new(list(4), 0);
    stack.descend_with(next_of);
    assert!(!stack.admits(0));
    assert!(!stack.admits(1));
    assert!(stack.admits(2));
    assert!(stack.admits(3));
    assert!(!stack.admits(4));
    stack.ascend();
    assert!(stack.admits(1));
}
