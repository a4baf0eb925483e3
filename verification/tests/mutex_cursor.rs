use generic_cursors::mutex::{MoveDecision, MoveError, MutexGuardStack, NewError};
use generic_cursors::mutex_arena::{MutexArena, TryLockError};

struct Link {
    data: u32,
    next: Option<usize>,
}

/// A ring 0 -> 1 -> ... -> n-1 -> 0.
fn ring(n: usize) -> MutexArena<Link> {
    let mut nodes = Vec::new();
    for i in 0..n {
        nodes.push(Link { data: i as u32, next: Some((i + 1) % n) });
    }
    MutexArena::new(nodes)
}

/// A list 0 -> 1 -> ... -> n-1.
fn line(n: usize) -> MutexArena<Link> {
    let mut nodes = Vec::new();
    for i in 0..n {
        nodes.push(Link { data: i as u32, next: if i + 1 < n { Some(i + 1) } else { None } });
    }
    MutexArena::new(nodes)
}

fn next_of(link: &mut Link) -> Option<usize> {
    link.next
}

fn cursor_on(arena: MutexArena<Link>, root: usize) -> MutexGuardStack<Link> {
    match MutexGuardStack::new(arena, root) {
        Ok(stack) => stack,
        Err(_) => panic!("the root is locked or poisoned"),
    }
}

#[test]
fn mutex_fresh_arena_is_free_and_clean() {
    let arena = line(2);
    assert_eq!(arena.len(), 2);
    assert!(!arena.is_locked(0));
    assert!(!arena.is_locked(1));
    assert!(!arena.is_poisoned(0));
    assert!(!arena.is_poisoned(1));
}

#[test]
fn mutex_arena_locks_a_node_once() {
    let mut arena = line(2);
    assert_eq!(arena.try_lock(1), Ok(()));
    assert!(arena.is_locked(1));
    assert!(!arena.is_locked(0));
    assert_eq!(arena.try_lock(1), Err(TryLockError::WouldBlock));
    assert_eq!(arena.into_inner().len(), 2);
}

#[test]
fn mutex_arena_locks_a_poisoned_node_and_says_so() {
    let mut arena = line(2);
    arena.poison(0);
    assert!(arena.is_poisoned(0));
    assert!(!arena.is_poisoned(1));
    assert_eq!(arena.try_lock(0), Err(TryLockError::Poisoned));
    assert!(arena.is_locked(0));
    // A locked node would block, poisoned or not.
    assert_eq!(arena.try_lock(0), Err(TryLockError::WouldBlock));
}

#[test]
fn mutex_clear_poison_makes_a_node_clean() {
    let mut arena = line(1);
    arena.poison(0);
    arena.clear_poison(0);
    assert!(!arena.is_poisoned(0));
    assert_eq!(arena.try_lock(0), Ok(()));
}

#[test]
fn mutex_new_locks_the_root() {
    let stack = cursor_on(line(2), 1);
    assert!(stack.is_at_root());
    assert_eq!(stack.top().data, 1);
    let arena = stack.into_arena();
    assert!(!arena.is_locked(1));
}

#[test]
fn mutex_new_on_a_locked_root_hands_the_arena_back() {
    let mut arena = line(2);
    assert_eq!(arena.try_lock(0), Ok(()));
    match MutexGuardStack::new(arena, 0) {
        Err(NewError::WouldBlock(back)) => {
            assert!(back.is_locked(0));
            assert!(!back.is_locked(1));
        }
        _ => panic!("the root was locked"),
    }
}

#[test]
fn mutex_new_on_a_poisoned_root_makes_the_cursor_inside_the_error() {
    let mut arena = line(2);
    arena.poison(0);
    match MutexGuardStack::new(arena, 0) {
        Err(NewError::Poisoned(mut stack)) => {
            assert!(stack.is_at_root());
            assert_eq!(stack.top().data, 0);
            assert_eq!(stack.descend_with(next_of, false).map(|r| r.map(|n| n.data)), Some(Ok(1)));
            let arena = stack.into_arena();
            assert!(arena.is_poisoned(0));
            assert!(!arena.is_locked(0));
        }
        _ => panic!("the root was poisoned"),
    }
}

#[test]
fn mutex_cycle_would_block_after_two_descents() {
    // A -> B -> C -> A.
    let mut stack = cursor_on(ring(3), 0);
    let mut descents = 0;
    let refusal = loop {
        match stack.descend_with(next_of, false) {
            Some(Ok(_)) => descents += 1,
            Some(Err(error)) => break error,
            None => panic!("every node of a ring has a next"),
        }
    };
    assert_eq!(descents, 2);
    assert_eq!(refusal, TryLockError::WouldBlock);
    assert_eq!(stack.top().data, 2);
    // Ignoring poison makes no difference to a node that is locked.
    assert_eq!(
        stack.descend_with(next_of, true).map(|r| r.map(|n| n.data)),
        Some(Err(TryLockError::WouldBlock))
    );
    assert_eq!(stack.ascend().map(|node| node.data), Some(1));
    assert_eq!(stack.ascend().map(|node| node.data), Some(0));
    assert!(stack.ascend().is_none());
}

#[test]
fn mutex_cycle_through_a_poisoned_root_would_block() {
    let mut arena = ring(2);
    arena.poison(0);
    let mut stack = match MutexGuardStack::new(arena, 0) {
        Err(NewError::Poisoned(stack)) => stack,
        _ => panic!("the root was poisoned"),
    };
    assert_eq!(stack.descend_with(next_of, false).map(|r| r.map(|n| n.data)), Some(Ok(1)));
    assert_eq!(
        stack.descend_with(next_of, false).map(|r| r.map(|n| n.data)),
        Some(Err(TryLockError::WouldBlock))
    );
}

#[test]
fn mutex_descend_with_without_an_edge_changes_nothing() {
    let mut stack = cursor_on(line(1), 0);
    assert!(stack.descend_with(next_of, false).is_none());
    assert!(stack.is_at_root());
}

#[test]
fn mutex_poisoned_node_is_refused_and_left_free() {
    let mut arena = line(3);
    arena.poison(1);
    let mut stack = cursor_on(arena, 0);
    assert_eq!(
        stack.descend_with(next_of, false).map(|r| r.map(|n| n.data)),
        Some(Err(TryLockError::Poisoned))
    );
    assert!(stack.is_at_root());
    let arena = stack.into_arena();
    assert!(!arena.is_locked(1));
    assert!(arena.is_poisoned(1));
}

#[test]
fn mutex_poisoned_node_is_entered_where_poison_is_ignored() {
    let mut arena = line(3);
    arena.poison(1);
    let mut stack = cursor_on(arena, 0);
    assert_eq!(stack.descend_with(next_of, true).map(|r| r.map(|n| n.data)), Some(Ok(1)));
    assert_eq!(stack.top().data, 1);
    assert_eq!(stack.ascend().map(|node| node.data), Some(0));
    // The poison stays: the node is refused again unless poison is ignored.
    assert_eq!(stack.inject_top(1, false).map(|node| node.data), Err(TryLockError::Poisoned));
    assert_eq!(stack.inject_top(1, true).map(|node| node.data), Ok(1));
    let arena = stack.into_arena();
    assert!(arena.is_poisoned(1));
}

#[test]
fn mutex_top_mut_writes_the_node_on_top() {
    let mut stack = cursor_on(line(2), 0);
    stack.descend_with(next_of, false);
    stack.top_mut().data = 50;
    assert_eq!(stack.top().data, 50);
    assert_eq!(stack.into_arena().into_inner()[1].data, 50);
}

#[test]
fn mutex_ascend_unlocks_the_node() {
    let mut stack = cursor_on(line(3), 0);
    stack.descend_with(next_of, false);
    assert_eq!(stack.ascend().map(|node| node.data), Some(0));
    assert_eq!(stack.inject_top(1, false).map(|node| node.data), Ok(1));
}

#[test]
fn mutex_inject_top_would_block_on_the_path() {
    let mut stack = cursor_on(line(3), 0);
    assert_eq!(stack.inject_top(2, false).map(|node| node.data), Ok(2));
    assert_eq!(stack.inject_top(0, false).map(|node| node.data), Err(TryLockError::WouldBlock));
    assert_eq!(stack.inject_top(2, true).map(|node| node.data), Err(TryLockError::WouldBlock));
    assert_eq!(stack.top().data, 2);
}

#[test]
fn mutex_inject_with_enters_or_refuses_the_node_named() {
    let mut arena = line(4);
    arena.poison(3);
    let mut stack = cursor_on(arena, 0);
    assert_eq!(stack.inject_with(|_| Some(2), false).map(|r| r.map(|n| n.data)), Some(Ok(2)));
    assert_eq!(
        stack.inject_with(|_| Some(0), false).map(|r| r.map(|n| n.data)),
        Some(Err(TryLockError::WouldBlock))
    );
    assert_eq!(
        stack.inject_with(|_| Some(3), false).map(|r| r.map(|n| n.data)),
        Some(Err(TryLockError::Poisoned))
    );
    assert_eq!(stack.inject_with(|_| Some(3), true).map(|r| r.map(|n| n.data)), Some(Ok(3)));
    assert!(stack.inject_with(|_| None, false).is_none());
}

#[test]
fn mutex_node_locked_by_another_holder_would_block() {
    let mut arena = line(3);
    assert_eq!(arena.try_lock(1), Ok(()));
    let mut stack = cursor_on(arena, 0);
    assert_eq!(
        stack.descend_with(next_of, false).map(|r| r.map(|n| n.data)),
        Some(Err(TryLockError::WouldBlock))
    );
    assert!(stack.is_at_root());
}

#[test]
fn mutex_ascend_while_always_true_ends_at_the_root() {
    let mut stack = cursor_on(line(4), 0);
    while let Some(Ok(_)) = stack.descend_with(next_of, false) {}
    assert_eq!(stack.top().data, 3);
    assert_eq!(stack.ascend_while(|_| true).data, 0);
    assert!(stack.is_at_root());
    assert!(stack.ascend().is_none());
    let arena = stack.into_arena();
    for i in 0..4 {
        assert!(!arena.is_locked(i));
    }
}

#[test]
fn mutex_ascend_while_stops_where_it_is_refused() {
    let mut stack = cursor_on(line(5), 0);
    while let Some(Ok(_)) = stack.descend_with(next_of, false) {}
    assert_eq!(stack.ascend_while(|link| link.data > 2).data, 2);
    assert_eq!(stack.inject_top(2, false).map(|node| node.data), Err(TryLockError::WouldBlock));
    assert_eq!(stack.inject_top(4, false).map(|node| node.data), Ok(4));
}

#[test]
fn mutex_move_with_follows_each_decision() {
    let mut arena = ring(4);
    arena.poison(3);
    let mut stack = cursor_on(arena, 0);
    assert_eq!(
        stack.move_with(|link| MoveDecision::Descend(link.next.unwrap()), false).map(|n| n.data),
        Ok(1)
    );
    assert_eq!(stack.move_with(|_| MoveDecision::Stay, false).map(|n| n.data), Ok(1));
    assert_eq!(stack.move_with(|_| MoveDecision::Inject(2), false).map(|n| n.data), Ok(2));
    assert_eq!(
        stack.move_with(|link| MoveDecision::Descend(link.next.unwrap()), false).map(|n| n.data),
        Err(MoveError::Poisoned)
    );
    assert_eq!(
        stack.move_with(|link| MoveDecision::Descend(link.next.unwrap()), true).map(|n| n.data),
        Ok(3)
    );
    assert_eq!(
        stack.move_with(|link| MoveDecision::Descend(link.next.unwrap()), true).map(|n| n.data),
        Err(MoveError::WouldBlock)
    );
    assert_eq!(stack.move_with(|_| MoveDecision::Ascend, false).map(|n| n.data), Ok(2));
    assert_eq!(stack.move_with(|_| MoveDecision::Ascend, false).map(|n| n.data), Ok(1));
    assert_eq!(stack.move_with(|_| MoveDecision::Ascend, false).map(|n| n.data), Ok(0));
    assert_eq!(
        stack.move_with(|_| MoveDecision::Ascend, false).map(|n| n.data),
        Err(MoveError::AscendAtRoot)
    );
    assert!(stack.is_at_root());
}

#[test]
fn mutex_move_by_follows_a_decision_made_elsewhere() {
    let mut stack = cursor_on(line(3), 0);
    assert_eq!(stack.move_by(MoveDecision::Descend(1), false).map(|n| n.data), Ok(1));
    assert_eq!(stack.move_by(MoveDecision::Inject(0), false).map(|n| n.data), Err(MoveError::WouldBlock));
    assert_eq!(stack.move_by(MoveDecision::Stay, false).map(|n| n.data), Ok(1));
    assert_eq!(stack.move_by(MoveDecision::Ascend, false).map(|n| n.data), Ok(0));
    assert_eq!(stack.move_by(MoveDecision::Ascend, false).map(|n| n.data), Err(MoveError::AscendAtRoot));
}

#[test]
fn mutex_to_root_unlocks_every_node_above_the_root() {
    let mut stack = cursor_on(line(4), 0);
    while let Some(Ok(_)) = stack.descend_with(next_of, false) {}
    assert_eq!(stack.to_root().data, 0);
    assert!(stack.is_at_root());
    assert_eq!(stack.inject_top(0, false).map(|node| node.data), Err(TryLockError::WouldBlock));
    assert_eq!(stack.inject_top(3, false).map(|node| node.data), Ok(3));
    assert_eq!(stack.inject_top(2, false).map(|node| node.data), Ok(2));
    assert_eq!(stack.inject_top(1, false).map(|node| node.data), Ok(1));
}

#[test]
fn mutex_into_arena_unlocks_every_node() {
    let mut stack = cursor_on(line(3), 0);
    while let Some(Ok(_)) = stack.descend_with(next_of, false) {}
    let arena = stack.into_arena();
    assert!(!arena.is_locked(0));
    assert!(!arena.is_locked(1));
    assert!(!arena.is_locked(2));
    let mut again = cursor_on(arena, 0);
    assert_eq!(again.descend_with(next_of, false).map(|r| r.map(|n| n.data)), Some(Ok(1)));
}

#[test]
fn mutex_into_top_leaves_the_frames_below_locked() {
    let mut stack = cursor_on(line(4), 0);
    stack.descend_with(next_of, false);
    stack.descend_with(next_of, false);
    let mut top = stack.into_top();
    assert_eq!(top.get().data, 2);
    top.get_mut().data = 22;
    assert_eq!(top.get().data, 22);
    let arena = top.release();
    assert!(arena.is_locked(0));
    assert!(arena.is_locked(1));
    assert!(!arena.is_locked(2));
    assert!(!arena.is_locked(3));
    let mut later = cursor_on(arena, 2);
    assert_eq!(later.inject_top(1, true).map(|node| node.data), Err(TryLockError::WouldBlock));
    assert_eq!(later.inject_top(0, true).map(|node| node.data), Err(TryLockError::WouldBlock));
    assert_eq!(later.top().data, 22);
}

#[test]
fn mutex_len_counts_the_nodes_of_the_arena() {
    let stack = cursor_on(line(5), 0);
    assert_eq!(stack.len(), 5);
}

#[test]
fn mutex_balanced_walk_comes_back_to_where_it_started() {
    let mut stack = cursor_on(ring(5), 0);
    stack.descend_with(next_of, false);
    assert!(matches!(stack.descend_with(next_of, false), Some(Ok(_))));
    assert!(matches!(stack.descend_with(next_of, false), Some(Ok(_))));
    assert!(matches!(stack.inject_top(1, false), Err(TryLockError::WouldBlock)));
    assert!(stack.ascend().is_some());
    assert!(matches!(stack.descend_with(next_of, false), Some(Ok(_))));
    assert!(stack.ascend().is_some());
    assert!(stack.ascend().is_some());
    assert_eq!(stack.top().data, 1);
    assert!(stack.ascend().is_some());
    assert!(stack.is_at_root());
    let arena = stack.into_arena();
    for i in 0..5 {
        assert!(!arena.is_locked(i));
    }
}
