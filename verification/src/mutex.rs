//! The cursor that locks each node it enters.
//!
//! Locking never waits. A node that is locked cannot be entered, whoever
//! locked it; every frame of the stack holds the lock of its node, so a walk
//! that comes back to a node on its own path is told that it would block:
//! this is how a cycle shows. A node that is free but poisoned is entered
//! only where the caller says that poison is to be ignored. Poison is sticky:
//! entering a poisoned node leaves it poisoned.

use crate::lifo::{
    lemma_release_is_lifo, lemma_replay_acquire, lemma_replay_release, releases, replay, Event,
};
use crate::mutex_arena::{Locks, MutexArena, TryLockError};
use crate::walk::{ascended, descended, lemma_frame_apart, lemma_frames_from, valid_path};
use vstd::prelude::*;

verus! {

/// Where a cursor is to go next.
#[derive(Clone, Copy, Debug, PartialEq, Eq)]
pub enum MoveDecision {
    /// Give up the top frame.
    Ascend,
    /// Stay on the top frame.
    Stay,
    /// Enter a node reached from the node on top.
    Descend(usize),
    /// Enter a node that was reached in some other way.
    Inject(usize),
}

/// Why a move was not made.
#[derive(Clone, Copy, Debug, PartialEq, Eq)]
pub enum MoveError {
    /// The cursor was asked to ascend from its root.
    AscendAtRoot,
    /// The node to enter is poisoned, and poison was not to be ignored.
    Poisoned,
    /// The node to enter is locked.
    WouldBlock,
}

/// What a locking cursor is at one moment.
pub struct LockWalk<T> {
    /// The arena.
    pub locks: Locks<T>,
    /// The frames of the stack, root first.
    pub path: Seq<usize>,
    /// How long the arena's log was when the cursor was made.
    pub since: nat,
}

impl<T> LockWalk<T> {
    /// The path is valid for the arena, every frame holds the lock of its
    /// node, and what the log has recorded since the cursor was made replays
    /// to exactly the path.
    pub open spec fn wf(self) -> bool {
        &&& valid_path(self.path, self.locks.nodes.len())
        &&& forall|j: int| 0 <= j < self.path.len() ==> self.locks.locked.contains(self.path[j])
        &&& self.since <= self.locks.log.len()
        &&& replay(self.locks.log.skip(self.since as int)) == Some(self.path)
    }

    /// The node that the top frame names.
    pub open spec fn top_index(self) -> usize {
        self.path.last()
    }

    /// The node on top.
    pub open spec fn top(self) -> T {
        self.locks.nodes[self.path.last() as int]
    }

    /// The stack has a frame `j`, counted from the root, which is frame 0.
    pub open spec fn has_frame(self, j: int) -> bool {
        0 <= j < self.path.len()
    }

    /// The node that frame `j` names.
    pub open spec fn top_at(self, j: int) -> T {
        self.locks.nodes[self.path[j] as int]
    }

    /// The same walk with `now` in place of the node on top.
    pub open spec fn with_top(self, now: T) -> Self {
        LockWalk { locks: self.locks.with_node(self.path.last(), now), path: self.path, since: self.since }
    }

    /// The walk one frame further down, on node `i`, which it has locked.
    pub open spec fn enter(self, i: usize) -> Self {
        LockWalk { locks: self.locks.lock(i), path: descended(self.path, i), since: self.since }
    }

    /// The walk after it locked node `i` and unlocked it at once.
    pub open spec fn bounce(self, i: usize) -> Self {
        LockWalk { locks: self.locks.lock(i).unlock(i), path: self.path, since: self.since }
    }

    /// Where an attempt to enter node `i` leads. A node that is locked is
    /// not entered, and nothing changes. A node that is free and poisoned is
    /// entered if poison is ignored; if not, it is locked and unlocked again.
    /// The error comes with the walk that is left.
    pub open spec fn try_enter(self, i: usize, ignore_poison: bool) -> Result<
        Self,
        (TryLockError, Self),
    > {
        if self.locks.locked.contains(i) {
            Err((TryLockError::WouldBlock, self))
        } else if self.locks.poisoned.contains(i) && !ignore_poison {
            Err((TryLockError::Poisoned, self.bounce(i)))
        } else {
            Ok(self.enter(i))
        }
    }

    /// The walk one frame further up, the node on top unlocked.
    pub open spec fn ascend(self) -> Self {
        LockWalk {
            locks: self.locks.unlock(self.path.last()),
            path: ascended(self.path),
            since: self.since,
        }
    }

    /// The walk with only its first `keep` frames, the others unlocked, last
    /// frame first.
    pub open spec fn keep(self, keep: int) -> Self {
        LockWalk {
            locks: Locks {
                nodes: self.locks.nodes,
                locked: Set::new(
                    |i: usize| self.locks.locked.contains(i) && !self.path.skip(keep).contains(i),
                ),
                poisoned: self.locks.poisoned,
                log: self.locks.log + releases(self.path.skip(keep)),
            },
            path: self.path.take(keep),
            since: self.since,
        }
    }
}

/// A cursor cannot come back to a node on its own path: every such node is
/// locked by the frame that names it, so the attempt would block, whether
/// the node is poisoned or not and whether poison is ignored or not.
pub proof fn lemma_cycle_would_block<T>(walk: LockWalk<T>, i: usize, ignore_poison: bool)
    requires
        walk.wf(),
        walk.path.contains(i),
    ensures
        walk.try_enter(i, ignore_poison) == Err::<LockWalk<T>, (TryLockError, LockWalk<T>)>(
            (TryLockError::WouldBlock, walk),
        ),
{
}

/// Release is last in, first out for every cursor: whenever the log shows a
/// release since the cursor was made, the node released is the one that was
/// acquired last among those the cursor held at that moment. No frame is
/// released before a frame above it.
pub proof fn lemma_cursor_releases_last_first<T>(walk: LockWalk<T>, k: int)
    requires
        walk.wf(),
        walk.since <= k < walk.locks.log.len(),
        walk.locks.log[k] is Release,
    ensures
        replay(walk.locks.log.subrange(walk.since as int, k)) matches Some(held) && held.len() > 0
            && held.last() == walk.locks.log[k]->Release_0,
{
    let part = walk.locks.log.skip(walk.since as int);
    lemma_release_is_lifo(part, k - walk.since);
    assert(part.take(k - walk.since) == walk.locks.log.subrange(walk.since as int, k));
}

/// Entering a node that is not locked keeps the walk well formed.
pub proof fn lemma_enter_wf<T>(walk: LockWalk<T>, i: usize)
    requires
        walk.wf(),
        i < walk.locks.nodes.len(),
        !walk.locks.locked.contains(i),
    ensures
        walk.enter(i).wf(),
{
    let log = walk.locks.log;
    let part = log.skip(walk.since as int);
    assert(log.push(Event::Acquire(i)).skip(walk.since as int) == part.push(Event::Acquire(i)));
    lemma_replay_acquire(part, i);
}

/// Locking a free node and unlocking it at once keeps the walk well formed,
/// and leaves locked what was locked.
pub proof fn lemma_bounce_wf<T>(walk: LockWalk<T>, i: usize)
    requires
        walk.wf(),
        i < walk.locks.nodes.len(),
        !walk.locks.locked.contains(i),
    ensures
        walk.bounce(i).wf(),
        walk.bounce(i).locks.locked == walk.locks.locked,
{
    lemma_enter_wf(walk, i);
    let entered = walk.enter(i);
    let log = entered.locks.log;
    let part = log.skip(walk.since as int);
    assert(log.push(Event::Release(i)).skip(walk.since as int) == part.push(Event::Release(i)));
    lemma_replay_release(part, i);
    assert(walk.path.push(i).drop_last() == walk.path);
    assert(walk.bounce(i).locks.locked == walk.locks.locked);
}

/// Giving up the top frame, above the root, keeps the walk well formed.
pub proof fn lemma_ascend_wf<T>(walk: LockWalk<T>)
    requires
        walk.wf(),
        walk.path.len() > 1,
    ensures
        walk.ascend().wf(),
{
    let log = walk.locks.log;
    let part = log.skip(walk.since as int);
    let top = walk.path.last();
    assert(log.push(Event::Release(top)).skip(walk.since as int) == part.push(Event::Release(top)));
    lemma_replay_release(part, top);
    let up = walk.ascend();
    assert forall|j: int| 0 <= j < up.path.len() implies up.locks.locked.contains(up.path[j]) by {
        assert(walk.path[j] != walk.path[walk.path.len() - 1]);
    }
}

/// Giving up one frame more.
pub proof fn lemma_keep_one_less<T>(walk: LockWalk<T>, keep: int)
    requires
        walk.wf(),
        1 <= keep <= walk.path.len(),
    ensures
        walk.keep(keep).ascend() == walk.keep(keep - 1),
{
    let a = walk.keep(keep).ascend();
    let b = walk.keep(keep - 1);
    let gone = walk.path.skip(keep);
    let more = walk.path.skip(keep - 1);
    assert(a.path == b.path);
    assert(a.locks.log == b.locks.log) by {
        assert(a.locks.log.len() == b.locks.log.len());
        assert forall|m: int| 0 <= m < a.locks.log.len() implies a.locks.log[m] == b.locks.log[m] by {
            if m >= walk.locks.log.len() && m < a.locks.log.len() - 1 {
                assert(gone[gone.len() - 1 - (m - walk.locks.log.len())] == more[more.len() - 1 - (m
                    - walk.locks.log.len())]);
            }
        }
    }
    assert(a.locks.locked == b.locks.locked) by {
        assert forall|i: usize| a.locks.locked.contains(i) == b.locks.locked.contains(i) by {
            if gone.contains(i) {
                let m = choose|m: int| 0 <= m < gone.len() && gone[m] == i;
                assert(more[m + 1] == i);
            }
            assert(more[0] == walk.keep(keep).path.last());
            if more.contains(i) {
                let m = choose|m: int| 0 <= m < more.len() && more[m] == i;
                if m > 0 {
                    assert(gone[m - 1] == i);
                }
            }
        }
    }
}

/// A cursor over an arena of lockable nodes.
pub struct MutexGuardStack<T> {
    /// The arena.
    arena: MutexArena<T>,
    /// The frames, root first. Never empty. Each holds the lock of its node.
    data: Vec<usize>,
    /// How long the arena's log was when the cursor was made.
    since: Ghost<nat>,
}

/// Why no cursor was made, or none on a clean root.
pub enum NewError<T> {
    /// The root is poisoned. It was locked all the same: this is the cursor.
    Poisoned(MutexGuardStack<T>),
    /// The root is locked. This is the arena, as it was handed in.
    WouldBlock(MutexArena<T>),
}

impl<T> View for MutexGuardStack<T> {
    type V = LockWalk<T>;

    closed spec fn view(&self) -> LockWalk<T> {
        LockWalk { locks: self.arena@, path: self.data@, since: self.since@ }
    }
}

impl<T> MutexGuardStack<T> {
    /// The cursor holds a well-formed walk of a well-formed arena.
    pub closed spec fn wf(&self) -> bool {
        self.arena.wf() && self@.wf()
    }

    /// A well-formed cursor holds a well-formed walk.
    pub proof fn lemma_wf(&self)
        requires
            self.wf(),
        ensures
            self@.wf(),
    {
    }

    /// A cursor on `root`, over `arena`, if `root` can be locked. Where the
    /// root is poisoned the cursor is made and comes inside the error; where
    /// it is locked the arena comes back unchanged.
    pub fn new(arena: MutexArena<T>, root: usize) -> (made: Result<Self, NewError<T>>)
        requires
            arena.wf(),
            root < arena@.nodes.len(),
        ensures
            match made {
                Ok(stack) => {
                    &&& arena@.try_lock_answer(root) is Ok
                    &&& stack.wf()
                    &&& stack@ == (LockWalk {
                        locks: arena@.lock(root),
                        path: seq![root],
                        since: arena@.log.len(),
                    })
                },
                Err(NewError::Poisoned(stack)) => {
                    &&& arena@.try_lock_answer(root) == Err::<(), TryLockError>(
                        TryLockError::Poisoned,
                    )
                    &&& stack.wf()
                    &&& stack@ == (LockWalk {
                        locks: arena@.lock(root),
                        path: seq![root],
                        since: arena@.log.len(),
                    })
                },
                Err(NewError::WouldBlock(back)) => {
                    &&& arena@.try_lock_answer(root) == Err::<(), TryLockError>(
                        TryLockError::WouldBlock,
                    )
                    &&& back.wf()
                    &&& back@ == arena@
                },
            },
    {
        let mut arena = arena;
        let ghost since = arena@.log.len();
        let guard = arena.try_lock(root);
        match guard {
            Err(TryLockError::WouldBlock) => Err(NewError::WouldBlock(arena)),
            _ => {
                let mut data = Vec::new();
                data.push(root);
                let stack = MutexGuardStack { arena, data, since: Ghost(since) };
                proof {
                    let part = stack@.locks.log.skip(since as int);
                    assert(part == Seq::<Event>::empty().push(Event::Acquire(root)));
                    lemma_replay_acquire(Seq::<Event>::empty(), root);
                    assert(stack@.path == Seq::<usize>::empty().push(root));
                }
                match guard {
                    Ok(()) => Ok(stack),
                    _ => Err(NewError::Poisoned(stack)),
                }
            },
        }
    }

    /// The node on top.
    pub fn top(&self) -> (node: &T)
        requires
            self.wf(),
        ensures
            *node == self@.top(),
    {
        let i: usize = self.data[self.data.len() - 1];
        self.arena.get(i)
    }

    /// The node on top, for writing. Whatever the caller leaves in it is the
    /// node afterwards; nothing else changes.
    pub fn top_mut(&mut self) -> (node: &mut T)
        requires
            old(self).wf(),
        ensures
            *node == old(self)@.top(),
            final(self)@ == old(self)@.with_top(*final(node)),
            final(self).wf(),
    {
        let i: usize = self.data[self.data.len() - 1];
        self.arena.get_mut(i)
    }

    /// The number of nodes in the arena.
    pub fn len(&self) -> (len: usize)
        ensures
            len == self@.locks.nodes.len(),
    {
        self.arena.len()
    }

    /// Whether the stack holds the root frame only.
    pub fn is_at_root(&self) -> (at_root: bool)
        requires
            self.wf(),
        ensures
            at_root <==> self@.path.len() == 1,
    {
        self.data.len() == 1
    }

    /// Finishes an attempt to enter `new_top`, given what the arena answered
    /// when it was asked to lock the node: pushes the frame where the node
    /// was locked and may be entered, unlocks the node where it is poisoned
    /// and poison is not ignored. `before` is the walk before the attempt.
    fn handle_trylock_result(
        &mut self,
        new_top: usize,
        guard: Result<(), TryLockError>,
        ignore_poison: bool,
        Ghost(before): Ghost<LockWalk<T>>,
    ) -> (node: Result<&mut T, TryLockError>)
        requires
            before.wf(),
            new_top < before.locks.nodes.len(),
            old(self).arena.wf(),
            old(self)@ == (LockWalk { locks: before.locks.try_lock(new_top), ..before }),
            guard == before.locks.try_lock_answer(new_top),
        ensures
            final(self).wf(),
            match before.try_enter(new_top, ignore_poison) {
                Ok(there) => {
                    &&& node matches Ok(entered)
                    &&& *entered == there.top()
                    &&& final(self)@ == there.with_top(*final(entered))
                },
                Err((refusal, left)) => node == Err::<&mut T, TryLockError>(refusal) && final(self)@ == left,
            },
    {
        match (guard, ignore_poison) {
            (Ok(()), _) | (Err(TryLockError::Poisoned), true) => {
                proof {
                    lemma_enter_wf(before, new_top);
                }
                self.data.push(new_top);
                Ok(self.top_mut())
            },
            (Err(TryLockError::Poisoned), false) => {
                proof {
                    lemma_bounce_wf(before, new_top);
                }
                self.arena.unlock(new_top);
                Err(TryLockError::Poisoned)
            },
            (Err(TryLockError::WouldBlock), _) => Err(TryLockError::WouldBlock),
        }
    }

    /// As `handle_trylock_result`, with the error of a move.
    fn handle_move_trylock_result(
        &mut self,
        new_top: usize,
        guard: Result<(), TryLockError>,
        ignore_poison: bool,
        Ghost(before): Ghost<LockWalk<T>>,
    ) -> (node: Result<&mut T, MoveError>)
        requires
            before.wf(),
            new_top < before.locks.nodes.len(),
            old(self).arena.wf(),
            old(self)@ == (LockWalk { locks: before.locks.try_lock(new_top), ..before }),
            guard == before.locks.try_lock_answer(new_top),
        ensures
            final(self).wf(),
            match before.try_enter(new_top, ignore_poison) {
                Ok(there) => {
                    &&& node matches Ok(entered)
                    &&& *entered == there.top()
                    &&& final(self)@ == there.with_top(*final(entered))
                },
                Err((refusal, left)) => node == Err::<&mut T, MoveError>(move_error(refusal))
                    && final(self)@ == left,
            },
    {
        match (guard, ignore_poison) {
            (Ok(()), _) | (Err(TryLockError::Poisoned), true) => {
                proof {
                    lemma_enter_wf(before, new_top);
                }
                self.data.push(new_top);
                Ok(self.top_mut())
            },
            (Err(TryLockError::Poisoned), false) => {
                proof {
                    lemma_bounce_wf(before, new_top);
                }
                self.arena.unlock(new_top);
                Err(MoveError::Poisoned)
            },
            (Err(TryLockError::WouldBlock), _) => Err(MoveError::WouldBlock),
        }
    }

    /// Enters node `new_top`, however it was reached, if it can be locked,
    /// and is not poisoned or `ignore_poison` is set. A node on the cursor's
    /// own path would always block.
    pub fn inject_top(&mut self, new_top: usize, ignore_poison: bool) -> (node: Result<
        &mut T,
        TryLockError,
    >)
        requires
            old(self).wf(),
            new_top < old(self)@.locks.nodes.len(),
        ensures
            final(self).wf(),
            match old(self)@.try_enter(new_top, ignore_poison) {
                Ok(there) => {
                    &&& node matches Ok(entered)
                    &&& *entered == there.top()
                    &&& final(self)@ == there.with_top(*final(entered))
                },
                Err((refusal, left)) => node == Err::<&mut T, TryLockError>(refusal) && final(self)@ == left,
            },
            old(self)@.path.contains(new_top) ==> node == Err::<&mut T, TryLockError>(
                TryLockError::WouldBlock,
            ),
    {
        let ghost before = self@;
        let guard = self.arena.try_lock(new_top);
        self.handle_trylock_result(new_top, guard, ignore_poison, Ghost(before))
    }

    /// Gives up the top frame, and with it the lock of its node, and returns
    /// the node below it; at the root, does nothing and returns `None`.
    pub fn ascend(&mut self) -> (node: Option<&mut T>)
        requires
            old(self).wf(),
        ensures
            final(self).wf(),
            old(self)@.path.len() == 1 ==> node is None && final(self)@ == old(self)@,
            old(self)@.path.len() > 1 ==> ({
                &&& node matches Some(below)
                &&& *below == old(self)@.ascend().top()
                &&& final(self)@ == old(self)@.ascend().with_top(*final(below))
            }),
    {
        if self.data.len() == 1 {
            None
        } else {
            proof {
                lemma_ascend_wf(self@);
            }
            let gone: usize = self.data[self.data.len() - 1];
            self.data.pop();
            self.arena.unlock(gone);
            Some(self.top_mut())
        }
    }

    /// Lets `f` look for a node to jump to from the node on top, and enters
    /// the node it names if that node can be locked, and is not poisoned or
    /// `ignore_poison` is set. `f` may change the node it is shown. Where it
    /// names none, the stack stays as it is and `None` is returned; where the
    /// node cannot be entered, the stack stays as it is and the error is
    /// returned.
    pub fn inject_with(
        &mut self,
        f: impl FnOnce(&mut T) -> Option<usize>,
        ignore_poison: bool,
    ) -> (node: Option<Result<&mut T, TryLockError>>)
        requires
            old(self).wf(),
            forall|seen: &mut T| *seen == old(self)@.top() ==> f.requires((seen,)),
            forall|seen: &mut T, edge: Option<usize>|
                *seen == old(self)@.top() && f.ensures((seen,), edge) ==> (edge matches Some(i)
                    ==> i < old(self)@.locks.nodes.len()),
        ensures
            final(self).wf(),
            exists|seen: &mut T, edge: Option<usize>|
                {
                    &&& *seen == old(self)@.top()
                    &&& f.ensures((seen,), edge)
                    &&& match edge {
                        None => node is None && final(self)@ == old(self)@.with_top(*final(seen)),
                        Some(i) => match old(self)@.with_top(*final(seen)).try_enter(
                            i,
                            ignore_poison,
                        ) {
                            Ok(there) => {
                                &&& node matches Some(Ok(entered))
                                &&& *entered == there.top()
                                &&& final(self)@ == there.with_top(*final(entered))
                            },
                            Err((refusal, left)) => node == Some(
                                Err::<&mut T, TryLockError>(refusal),
                            ) && final(self)@ == left,
                        },
                    }
                },
    {
        match f(self.top_mut()) {
            Some(new_top) => Some(self.inject_top(new_top, ignore_poison)),
            None => None,
        }
    }

    /// Lets `f` pick a neighbour of the node on top, and enters it if it can
    /// be locked, and is not poisoned or `ignore_poison` is set. `f` may
    /// change the node it is shown. Where it finds no edge, the stack stays
    /// as it is and `None` is returned; where the neighbour cannot be
    /// entered, as a node further up on the path never can, the stack stays
    /// as it is and the error is returned.
    pub fn descend_with(
        &mut self,
        f: impl FnOnce(&mut T) -> Option<usize>,
        ignore_poison: bool,
    ) -> (node: Option<Result<&mut T, TryLockError>>)
        requires
            old(self).wf(),
            forall|seen: &mut T| *seen == old(self)@.top() ==> f.requires((seen,)),
            forall|seen: &mut T, edge: Option<usize>|
                *seen == old(self)@.top() && f.ensures((seen,), edge) ==> (edge matches Some(i)
                    ==> i < old(self)@.locks.nodes.len()),
        ensures
            final(self).wf(),
            exists|seen: &mut T, edge: Option<usize>|
                {
                    &&& *seen == old(self)@.top()
                    &&& f.ensures((seen,), edge)
                    &&& match edge {
                        None => node is None && final(self)@ == old(self)@.with_top(*final(seen)),
                        Some(i) => match old(self)@.with_top(*final(seen)).try_enter(
                            i,
                            ignore_poison,
                        ) {
                            Ok(there) => {
                                &&& node matches Some(Ok(entered))
                                &&& *entered == there.top()
                                &&& final(self)@ == there.with_top(*final(entered))
                            },
                            Err((refusal, left)) => node == Some(
                                Err::<&mut T, TryLockError>(refusal),
                            ) && final(self)@ == left,
                        },
                    }
                },
    {
        match f(self.top_mut()) {
            Some(new_top) => Some(self.inject_top(new_top, ignore_poison)),
            None => None,
        }
    }

    /// Gives up frames, and the locks they hold, for as long as the cursor is
    /// not at its root and `predicate` says yes to the node on top, then
    /// returns the node on top. The root is never shown to `predicate`; the
    /// frame at which it says no stays. `predicate` may change each node it is
    /// shown.
    pub fn ascend_while<P: FnMut(&mut T) -> bool>(&mut self, predicate: P) -> (node: &mut T)
        requires
            old(self).wf(),
            forall|j: int, seen: &mut T|
                0 < j < old(self)@.path.len() && *seen == #[trigger] old(self)@.top_at(j)
                    ==> #[trigger] predicate.requires((seen,)),
        ensures
            final(self).wf(),
            // What is left of the path is its beginning; the frames above it
            // were unlocked, last frame first.
            1 <= final(self)@.path.len() <= old(self)@.path.len(),
            final(self)@.path == old(self)@.keep(final(self)@.path.len() as int).path,
            final(self)@.locks.locked == old(self)@.keep(
                final(self)@.path.len() as int,
            ).locks.locked,
            final(self)@.locks.poisoned == old(self)@.locks.poisoned,
            final(self)@.locks.log == old(self)@.keep(final(self)@.path.len() as int).locks.log,
            final(self)@.since == old(self)@.since,
            final(self)@.locks.nodes.len() == old(self)@.locks.nodes.len(),
            final(self)@.top() == *final(node),
            // Every frame that was given up had been approved.
            forall|j: int|
                #[trigger] old(self)@.has_frame(j) && final(self)@.path.len() <= j ==> exists|
                    seen: &mut T,
                |
                    {
                        &&& *seen == old(self)@.top_at(j)
                        &&& *final(seen) == final(self)@.locks.nodes[old(self)@.path[j] as int]
                        &&& predicate.ensures((seen,), true)
                    },
            // The cursor stopped at its root, unasked, or where it was refused.
            final(self)@.path.len() == 1 ==> *node == old(self)@.top_at(0),
            final(self)@.path.len() > 1 ==> exists|seen: &mut T|
                {
                    &&& *seen == old(self)@.top_at(final(self)@.path.len() - 1)
                    &&& *final(seen) == *node
                    &&& predicate.ensures((seen,), false)
                },
            // No other node changed.
            forall|n: usize|
                n < old(self)@.locks.nodes.len() && !old(self)@.path.skip(
                    final(self)@.path.len() - 1,
                ).contains(n) ==> final(self)@.locks.nodes[n as int] == old(self)@.locks.nodes[n as int],
            // A predicate that never says no brings the cursor to its root.
            (forall|seen: &mut T, verdict: bool| predicate.ensures((seen,), verdict) ==> verdict)
                ==> final(self)@.path.len() == 1,
    {
        let ghost start = self@;
        let mut ask = predicate;
        proof {
            assert(start.keep(start.path.len() as int).path == start.path);
            assert(start.keep(start.path.len() as int).locks.log == start.locks.log);
            assert(start.keep(start.path.len() as int).locks.locked == start.locks.locked);
        }
        loop
            invariant
                start == old(self)@,
                ask == predicate,
                self.wf(),
                start.wf(),
                1 <= self@.path.len() <= start.path.len(),
                self@.path == start.keep(self@.path.len() as int).path,
                self@.locks.locked == start.keep(self@.path.len() as int).locks.locked,
                self@.locks.poisoned == start.locks.poisoned,
                self@.locks.log == start.keep(self@.path.len() as int).locks.log,
                self@.since == start.since,
                self@.locks.nodes.len() == start.locks.nodes.len(),
                forall|j: int, seen: &mut T|
                    0 < j < start.path.len() && *seen == #[trigger] start.top_at(j)
                        ==> #[trigger] predicate.requires((seen,)),
                forall|j: int|
                    #[trigger] start.has_frame(j) && self@.path.len() <= j ==> exists|seen: &mut T|
                        {
                            &&& *seen == start.top_at(j)
                            &&& *final(seen) == self@.locks.nodes[start.path[j] as int]
                            &&& predicate.ensures((seen,), true)
                        },
                forall|n: usize|
                    n < start.locks.nodes.len() && !start.path.skip(self@.path.len() as int).contains(
                        n,
                    ) ==> self@.locks.nodes[n as int] == start.locks.nodes[n as int],
            decreases self@.path.len(),
        {
            let ghost k = self@.path.len() as int;
            proof {
                // The node on top has not been shown to the predicate yet.
                lemma_frames_from(start.path, k, k - 1);
                lemma_frame_apart(start.path, k);
                assert(self@.top_index() == start.path[k - 1]);
                assert(self@.top() == start.top_at(k - 1));
            }
            if self.is_at_root() {
                return self.top_mut();
            }
            let go = ask(self.top_mut());
            assert(exists|seen: &mut T|
                {
                    &&& *seen == start.top_at(k - 1)
                    &&& *final(seen) == self@.top()
                    &&& predicate.ensures((seen,), go)
                });
            if !go {
                return self.top_mut();
            }
            proof {
                lemma_keep_one_less(start, k);
            }
            let _ = self.ascend();
        }
    }

    /// Carries out a decision: ascends, stays, or enters the node named if it
    /// can be locked, and is not poisoned or `ignore_poison` is set. Asked to
    /// ascend from the root, or to enter a node that cannot be entered, it
    /// fails and leaves the stack as it is.
    pub fn move_by(&mut self, decision: MoveDecision, ignore_poison: bool) -> (node: Result<
        &mut T,
        MoveError,
    >)
        requires
            old(self).wf(),
            admissible(old(self)@, decision),
        ensures
            final(self).wf(),
            match destination(old(self)@, decision, ignore_poison) {
                Ok(there) => {
                    &&& node matches Ok(reached)
                    &&& *reached == there.top()
                    &&& final(self)@ == there.with_top(*final(reached))
                },
                Err((refusal, left)) => node == Err::<&mut T, MoveError>(refusal) && final(self)@
                    == left,
            },
    {
        match decision {
            MoveDecision::Ascend => match self.ascend() {
                Some(below) => Ok(below),
                None => Err(MoveError::AscendAtRoot),
            },
            MoveDecision::Stay => Ok(self.top_mut()),
            MoveDecision::Inject(new_top) | MoveDecision::Descend(new_top) => {
                let ghost before = self@;
                let guard = self.arena.try_lock(new_top);
                self.handle_move_trylock_result(new_top, guard, ignore_poison, Ghost(before))
            },
        }
    }

    /// Shows the node on top to `f` and carries out what it decides. `f` may
    /// change the node it is shown.
    pub fn move_with<F: FnOnce(&mut T) -> MoveDecision>(
        &mut self,
        f: F,
        ignore_poison: bool,
    ) -> (node: Result<&mut T, MoveError>)
        requires
            old(self).wf(),
            forall|seen: &mut T| *seen == old(self)@.top() ==> f.requires((seen,)),
            forall|seen: &mut T, decision: MoveDecision|
                *seen == old(self)@.top() && f.ensures((seen,), decision) ==> admissible(
                    old(self)@,
                    decision,
                ),
        ensures
            final(self).wf(),
            exists|seen: &mut T, decision: MoveDecision|
                {
                    &&& *seen == old(self)@.top()
                    &&& f.ensures((seen,), decision)
                    &&& match destination(
                        old(self)@.with_top(*final(seen)),
                        decision,
                        ignore_poison,
                    ) {
                        Ok(there) => {
                            &&& node matches Ok(reached)
                            &&& *reached == there.top()
                            &&& final(self)@ == there.with_top(*final(reached))
                        },
                        Err((refusal, left)) => node == Err::<&mut T, MoveError>(refusal)
                            && final(self)@ == left,
                    }
                },
    {
        let decision = f(self.top_mut());
        self.move_by(decision, ignore_poison)
    }

    /// Gives up every frame above the root, last frame first, and returns
    /// the root.
    pub fn to_root(&mut self) -> (node: &mut T)
        requires
            old(self).wf(),
        ensures
            final(self).wf(),
            *node == old(self)@.keep(1).top(),
            final(self)@ == old(self)@.keep(1).with_top(*final(node)),
    {
        let ghost start = self@;
        proof {
            assert(start.keep(start.path.len() as int).path == start.path);
            assert(start.keep(start.path.len() as int).locks.log == start.locks.log);
            assert(start.keep(start.path.len() as int).locks.locked == start.locks.locked);
        }
        while !self.is_at_root()
            invariant
                self.wf(),
                start.wf(),
                1 <= self@.path.len() <= start.path.len(),
                self@ == start.keep(self@.path.len() as int),
            decreases self@.path.len(),
        {
            let ghost before = self@;
            proof {
                lemma_keep_one_less(start, before.path.len() as int);
            }
            let _ = self.ascend();
            assert(self@.locks.nodes =~= before.ascend().locks.nodes);
        }
        self.top_mut()
    }

    /// Forgets the stack and keeps the node on top: what is returned gives
    /// access to that node and to no other. The frames below the top are not
    /// released, now or later: their nodes stay locked.
    pub fn into_top(self) -> (top: TopMutexGuard<T>)
        requires
            self.wf(),
        ensures
            top.wf(),
            top.locks() == self@.locks,
            top.index() == self@.top_index(),
            top.abandoned() == self@.path.drop_last(),
    {
        let index: usize = self.data[self.data.len() - 1];
        proof {
            assert forall|j: int| 0 <= j < self@.path.len() - 1 implies self@.path[j] != index by {}
        }
        TopMutexGuard { arena: self.arena, index, abandoned: Ghost(self.data@.drop_last()) }
    }

    /// Ends the walk: gives up every frame, last frame first and the root
    /// last of all, and hands the arena back.
    pub fn into_arena(self) -> (arena: MutexArena<T>)
        requires
            self.wf(),
        ensures
            arena.wf(),
            arena@ == self@.keep(0).locks,
    {
        let mut stack = self;
        let _ = stack.to_root();
        proof {
            lemma_keep_one_less(self@, 1);
            assert(stack@.locks.nodes =~= self@.keep(1).locks.nodes);
            assert(stack@.path.last() == stack@.path[0]);
        }
        let root: usize = stack.data[0];
        let mut arena = stack.arena;
        arena.unlock(root);
        arena
    }
}

/// The one node that a cursor stood on when its stack was forgotten, still
/// locked.
pub struct TopMutexGuard<T> {
    /// The arena.
    arena: MutexArena<T>,
    /// The node that can be reached.
    index: usize,
    /// The nodes of the frames that were below, which stay locked.
    abandoned: Ghost<Seq<usize>>,
}

impl<T> TopMutexGuard<T> {
    /// The arena.
    pub closed spec fn locks(&self) -> Locks<T> {
        self.arena@
    }

    /// The index of the node that can be reached.
    pub closed spec fn index(&self) -> usize {
        self.index
    }

    /// The nodes whose locks were left behind.
    pub closed spec fn abandoned(&self) -> Seq<usize> {
        self.abandoned@
    }

    /// The node is locked, and so is every node left behind.
    pub closed spec fn wf(&self) -> bool {
        &&& self.arena.wf()
        &&& self.arena@.locked.contains(self.index)
        &&& forall|j: int|
            0 <= j < self.abandoned@.len() ==> self.abandoned@[j] != self.index
                && self.arena@.locked.contains(#[trigger] self.abandoned@[j])
    }

    /// What is well formed holds its node and all that was left behind.
    pub proof fn lemma_wf(&self)
        requires
            self.wf(),
        ensures
            self.index() < self.locks().nodes.len(),
            self.locks().locked.contains(self.index()),
            forall|j: int|
                0 <= j < self.abandoned().len() ==> self.locks().locked.contains(
                    #[trigger] self.abandoned()[j],
                ),
    {
        self.arena.lemma_locked_in_range(self.index);
    }

    /// The node.
    pub fn get(&self) -> (node: &T)
        requires
            self.wf(),
        ensures
            *node == self.locks().nodes[self.index() as int],
    {
        self.arena.get(self.index)
    }

    /// The node, for writing.
    pub fn get_mut(&mut self) -> (node: &mut T)
        requires
            old(self).wf(),
        ensures
            *node == old(self).locks().nodes[old(self).index() as int],
            final(self).locks() == old(self).locks().with_node(old(self).index(), *final(node)),
            final(self).index() == old(self).index(),
            final(self).abandoned() == old(self).abandoned(),
            final(self).wf(),
    {
        self.arena.get_mut(self.index)
    }

    /// Unlocks the node, and it alone: every node that was left behind is
    /// still locked in the arena that is handed back.
    pub fn release(self) -> (arena: MutexArena<T>)
        requires
            self.wf(),
        ensures
            arena.wf(),
            arena@ == self.locks().unlock(self.index()),
            forall|j: int|
                0 <= j < self.abandoned().len() ==> arena@.locked.contains(
                    #[trigger] self.abandoned()[j],
                ),
    {
        let mut arena = self.arena;
        arena.unlock(self.index);
        arena
    }
}

/// The decision names no node, or one of the arena.
pub open spec fn admissible<T>(walk: LockWalk<T>, decision: MoveDecision) -> bool {
    match decision {
        MoveDecision::Descend(i) | MoveDecision::Inject(i) => i < walk.locks.nodes.len(),
        _ => true,
    }
}

/// Where a decision leads from `walk`, or why it leads nowhere and what walk
/// is left then.
pub open spec fn destination<T>(
    walk: LockWalk<T>,
    decision: MoveDecision,
    ignore_poison: bool,
) -> Result<LockWalk<T>, (MoveError, LockWalk<T>)> {
    match decision {
        MoveDecision::Ascend => if walk.path.len() == 1 {
            Err((MoveError::AscendAtRoot, walk))
        } else {
            Ok(walk.ascend())
        },
        MoveDecision::Stay => Ok(walk),
        MoveDecision::Descend(i) | MoveDecision::Inject(i) => match walk.try_enter(
            i,
            ignore_poison,
        ) {
            Ok(there) => Ok(there),
            Err((refusal, left)) => Err((move_error(refusal), left)),
        },
    }
}

/// The error of a move that found its node locked or poisoned.
pub open spec fn move_error(refusal: TryLockError) -> MoveError {
    match refusal {
        TryLockError::Poisoned => MoveError::Poisoned,
        TryLockError::WouldBlock => MoveError::WouldBlock,
    }
}

} // verus!
