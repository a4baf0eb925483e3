use generic_cursors::cell_arena::{BorrowMutError, RefCellArena};
use generic_cursors::refcell::{MoveDecision, MoveError, RefCellRefMutStack};

struct Link {
    data: u32,
    next: Option<usize>,
}

/// A ring 0 -> 1 -> ... -> n-1 -> 0.
fn ring(n: usize) -> RefCellArena<Link> {
    let mut nodes = Vec::new();
    for i in 0..n {
        nodes.push(Link { data: i as u32, next: Some((i + 1) % n) });
    }
    RefCellArena::new(nodes)
}

/// A list 0 -> 1 -> ... -> n-1.
fn line(n: usize) -> RefCellArena<Link> {
    let mut nodes = Vec::new();
    for i in 0..n {
        nodes.push(Link { data: i as u32, next: if i + 1 < n { Some(i + 1) } else { None } });
    }
    RefCellArena::new(nodes)
}

fn next_of(link: &mut Link) -> Option<usize> {
    link.next
}

fn cursor_on(arena: RefCellArena<Link>, root: usize) -> RefCellRefMutStack<Link> {
    match RefCellRefMutStack::new(arena, root) {
        Ok(stack) => stack,
        Err(_) => panic!("the root is borrowed"),
    }
}

#[test]
fn refcell_fresh_arena_has_no_borrowed_node() {
    let arena = line(3);
    assert_eq!(arena.len(), 3);
    assert!(!arena.is_borrowed(0));
    assert!(!arena.is_borrowed(1));
    assert!(!arena.is_borrowed(2));
}

#[test]
fn refcell_arena_borrows_a_node_once() {
    let mut arena = line(2);
    assert_eq!(arena.try_borrow_mut(1), Ok(()));
    assert!(arena.is_borrowed(1));
    assert!(!arena.is_borrowed(0));
    assert_eq!(arena.try_borrow_mut(1), Err(BorrowMutError));
    assert_eq!(arena.into_inner().len(), 2);
}

#[test]
fn refcell_new_borrows_the_root() {
    let stack = cursor_on(line(2), 0);
    assert!(stack.is_at_root());
    assert_eq!(stack.top().data, 0);
    let arena = stack.into_arena();
    assert!(!arena.is_borrowed(0));
}

#[test]
fn refcell_new_on_a_borrowed_root_hands_the_arena_back() {
    let mut arena = line(2);
    assert_eq!(arena.try_borrow_mut(0), Ok(()));
    match RefCellRefMutStack::new(arena, 0) {
        Ok(_) => panic!("the root was borrowed"),
        Err(rejected) => {
            assert_eq!(rejected.error, BorrowMutError);
            assert!(rejected.arena.is_borrowed(0));
            assert!(!rejected.arena.is_borrowed(1));
        }
    }
}

#[test]
fn refcell_cycle_is_found_after_two_descents() {
    // A -> B -> C -> A.
    let mut stack = cursor_on(ring(3), 0);
    let mut descents = 0;
    let refusal = loop {
        match stack.descend_with(next_of) {
            Some(Ok(_)) => descents += 1,
            Some(Err(error)) => break error,
            None => panic!("every node of a ring has a next"),
        }
    };
    assert_eq!(descents, 2);
    assert_eq!(refusal, BorrowMutError);
    // The stack is as it was before the refused descent.
    assert_eq!(stack.top().data, 2);
    assert_eq!(stack.ascend().map(|node| node.data), Some(1));
    assert_eq!(stack.ascend().map(|node| node.data), Some(0));
    assert!(stack.ascend().is_none());
}

#[test]
fn refcell_ring_of_one_refuses_its_own_root() {
    let mut stack = cursor_on(ring(1), 0);
    assert_eq!(stack.descend_with(next_of).map(|r| r.map(|n| n.data)), Some(Err(BorrowMutError)));
    assert!(stack.is_at_root());
}

#[test]
fn refcell_descend_with_without_an_edge_changes_nothing() {
    let mut stack = cursor_on(line(1), 0);
    assert!(stack.descend_with(next_of).is_none());
    assert!(stack.is_at_root());
}

#[test]
fn refcell_top_mut_writes_the_node_on_top() {
    let mut stack = cursor_on(line(2), 0);
    stack.descend_with(next_of);
    stack.top_mut().data = 50;
    assert_eq!(stack.top().data, 50);
    assert_eq!(stack.into_arena().into_inner()[1].data, 50);
}

#[test]
fn refcell_ascend_gives_the_borrow_back() {
    let mut stack = cursor_on(line(3), 0);
    stack.descend_with(next_of);
    assert_eq!(stack.ascend().map(|node| node.data), Some(0));
    // Node 1 can be entered again.
    assert_eq!(stack.inject_top(1).map(|node| node.data), Ok(1));
}

#[test]
fn refcell_inject_top_refuses_a_node_on_the_path() {
    let mut stack = cursor_on(line(3), 0);
    assert_eq!(stack.inject_top(2).map(|node| node.data), Ok(2));
    assert_eq!(stack.inject_top(0).map(|node| node.data), Err(BorrowMutError));
    assert_eq!(stack.inject_top(2).map(|node| node.data), Err(BorrowMutError));
    assert_eq!(stack.top().data, 2);
}

#[test]
fn refcell_inject_with_enters_or_refuses_the_node_named() {
    let mut stack = cursor_on(line(3), 0);
    assert_eq!(stack.inject_with(|_| Some(2)).map(|r| r.map(|n| n.data)), Some(Ok(2)));
    assert_eq!(stack.inject_with(|_| Some(0)).map(|r| r.map(|n| n.data)), Some(Err(BorrowMutError)));
    assert!(stack.inject_with(|_| None).is_none());
}

#[test]
fn refcell_node_borrowed_by_another_holder_is_refused() {
    let mut arena = line(3);
    assert_eq!(arena.try_borrow_mut(1), Ok(()));
    let mut stack = cursor_on(arena, 0);
    assert_eq!(stack.descend_with(next_of).map(|r| r.map(|n| n.data)), Some(Err(BorrowMutError)));
    assert!(stack.is_at_root());
    assert_eq!(stack.inject_top(2).map(|node| node.data), Ok(2));
}

#[test]
fn refcell_ascend_while_always_true_ends_at_the_root() {
    let mut stack = cursor_on(line(4), 0);
    while let Some(Ok(_)) = stack.descend_with(next_of) {}
    assert_eq!(stack.top().data, 3);
    assert_eq!(stack.ascend_while(|_| true).data, 0);
    assert!(stack.is_at_root());
    assert!(stack.ascend().is_none());
    let arena = stack.into_arena();
    for i in 0..4 {
        assert!(!arena.is_borrowed(i));
    }
}

#[test]
fn refcell_ascend_while_stops_where_it_is_refused() {
    let mut stack = cursor_on(line(5), 0);
    while let Some(Ok(_)) = stack.descend_with(next_of) {}
    assert_eq!(stack.ascend_while(|link| link.data > 2).data, 2);
    // Nodes 3 and 4 were given back, node 2 is still held.
    assert_eq!(stack.inject_top(2).map(|node| node.data), Err(BorrowMutError));
    assert_eq!(stack.inject_top(4).map(|node| node.data), Ok(4));
}

#[test]
fn refcell_move_with_follows_each_decision() {
    let mut stack = cursor_on(ring(3), 0);
    assert_eq!(stack.move_with(|link| MoveDecision::Descend(link.next.unwrap())).map(|n| n.data), Ok(1));
    assert_eq!(stack.move_with(|_| MoveDecision::Stay).map(|n| n.data), Ok(1));
    assert_eq!(stack.move_with(|_| MoveDecision::Inject(2)).map(|n| n.data), Ok(2));
    assert_eq!(
        stack.move_with(|link| MoveDecision::Descend(link.next.unwrap())).map(|n| n.data),
        Err(MoveError::BorrowMutError(BorrowMutError))
    );
    assert_eq!(stack.move_with(|_| MoveDecision::Ascend).map(|n| n.data), Ok(1));
    assert_eq!(stack.move_with(|_| MoveDecision::Ascend).map(|n| n.data), Ok(0));
    assert_eq!(stack.move_with(|_| MoveDecision::Ascend).map(|n| n.data), Err(MoveError::AscendAtRoot));
    assert!(stack.is_at_root());
}

#[test]
fn refcell_move_by_follows_a_decision_made_elsewhere() {
    let mut stack = cursor_on(line(3), 0);
    assert_eq!(stack.move_by(MoveDecision::Descend(1)).map(|n| n.data), Ok(1));
    assert_eq!(stack.move_by(MoveDecision::Inject(0)).map(|n| n.data), Err(MoveError::BorrowMutError(BorrowMutError)));
    assert_eq!(stack.move_by(MoveDecision::Stay).map(|n| n.data), Ok(1));
    assert_eq!(stack.move_by(MoveDecision::Ascend).map(|n| n.data), Ok(0));
    assert_eq!(stack.move_by(MoveDecision::Ascend).map(|n| n.data), Err(MoveError::AscendAtRoot));
}

#[test]
fn refcell_to_root_gives_back_every_borrow_above_the_root() {
    let mut stack = cursor_on(line(4), 0);
    while let Some(Ok(_)) = stack.descend_with(next_of) {}
    assert_eq!(stack.to_root().data, 0);
    assert!(stack.is_at_root());
    // Every node above the root is free again, the root is not.
    assert_eq!(stack.inject_top(0).map(|node| node.data), Err(BorrowMutError));
    assert_eq!(stack.inject_top(3).map(|node| node.data), Ok(3));
    assert_eq!(stack.inject_top(2).map(|node| node.data), Ok(2));
    assert_eq!(stack.inject_top(1).map(|node| node.data), Ok(1));
}

#[test]
fn refcell_into_arena_gives_back_every_borrow() {
    let mut stack = cursor_on(line(3), 0);
    while let Some(Ok(_)) = stack.descend_with(next_of) {}
    let arena = stack.into_arena();
    assert!(!arena.is_borrowed(0));
    assert!(!arena.is_borrowed(1));
    assert!(!arena.is_borrowed(2));
    // A new cursor can walk the whole list again.
    let mut again = cursor_on(arena, 0);
    assert_eq!(again.descend_with(next_of).map(|r| r.map(|n| n.data)), Some(Ok(1)));
}

#[test]
fn refcell_into_top_leaves_the_frames_below_borrowed() {
    let mut stack = cursor_on(line(4), 0);
    stack.descend_with(next_of);
    stack.descend_with(next_of);
    let mut top = stack.into_top();
    assert_eq!(top.get().data, 2);
    top.get_mut().data = 22;
    assert_eq!(top.get().data, 22);
    let arena = top.release();
    // Only the node of the token was given back.
    assert!(arena.is_borrowed(0));
    assert!(arena.is_borrowed(1));
    assert!(!arena.is_borrowed(2));
    assert!(!arena.is_borrowed(3));
    // Nothing enters the nodes that were left behind.
    let mut later = cursor_on(arena, 2);
    assert_eq!(later.inject_top(1).map(|node| node.data), Err(BorrowMutError));
    assert_eq!(later.inject_top(0).map(|node| node.data), Err(BorrowMutError));
    assert_eq!(later.top().data, 22);
}

#[test]
fn refcell_into_top_at_the_root_leaves_nothing_behind() {
    let stack = cursor_on(line(2), 1);
    let arena = stack.into_top().release();
    assert!(!arena.is_borrowed(0));
    assert!(!arena.is_borrowed(1));
}

#[test]
fn refcell_len_counts_the_nodes_of_the_arena() {
    let stack = cursor_on(line(5), 0);
    assert_eq!(stack.len(), 5);
}

#[test]
fn refcell_balanced_walk_comes_back_to_where_it_started() {
    let mut stack = cursor_on(ring(5), 0);
    stack.descend_with(next_of);
    // From node 1: down, down, up, down, up, up; a refused descent between.
    assert!(matches!(stack.descend_with(next_of), Some(Ok(_))));
    assert!(matches!(stack.descend_with(next_of), Some(Ok(_))));
    assert!(matches!(stack.inject_top(1), Err(BorrowMutError)));
    assert!(stack.ascend().is_some());
    assert!(matches!(stack.descend_with(next_of), Some(Ok(_))));
    assert!(stack.ascend().is_some());
    assert!(stack.ascend().is_some());
    assert_eq!(stack.top().data, 1);
    assert!(stack.ascend().is_some());
    assert!(stack.is_at_root());
    // What the walk borrowed on its way it has given back.
    let arena = stack.into_arena();
    for i in 0..5 {
        assert!(!arena.is_borrowed(i));
    }
}
