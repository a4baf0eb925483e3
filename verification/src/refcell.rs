//! The cursor that borrows each node it enters.
//!
//! A node that is borrowed cannot be entered, whoever borrowed it. Every
//! frame of the stack holds the borrow of its node, so a walk that comes back
//! to a node on its own path is refused: this is how a cycle shows.

use crate::cell_arena::{BorrowMutError, Cells, RefCellArena};
use crate::lifo::{
    lemma_release_is_lifo, lemma_replay_acquire, lemma_replay_release, releases, replay, Event,
};
use crate::walk::{ascended, descended, lemma_frame_apart, lemma_frames_from, valid_path};
use vstd::prelude::*;

verus! {

/// Where a cursor is to go next.
#[derive(Clone, Copy, Debug, PartialEq, Eq)]
pub enum MoveDecision {
    /// Give up the top frame.
    Ascend,
    /// Stay on the top frame.
    Stay,
    /// Enter a node reached from the node on top.
    Descend(usize),
    /// Enter a node that was reached in some other way.
    Inject(usize),
}

/// Why a move was not made.
#[derive(Clone, Copy, Debug, PartialEq, Eq)]
pub enum MoveError {
    /// The cursor was asked to ascend from its root.
    AscendAtRoot,
    /// The node to enter is borrowed.
    BorrowMutError(BorrowMutError),
}

/// What a borrowing cursor is at one moment.
pub struct CellWalk<T> {
    /// The arena.
    pub cells: Cells<T>,
    /// The frames of the stack, root first.
    pub path: Seq<usize>,
    /// How long the arena's log was when the cursor was made.
    pub since: nat,
}

impl<T> CellWalk<T> {
    /// The path is valid for the arena, every frame holds the borrow of its
    /// node, and what the log has recorded since the cursor was made replays
    /// to exactly the path.
    pub open spec fn wf(self) -> bool {
        &&& valid_path(self.path, self.cells.nodes.len())
        &&& forall|j: int| 0 <= j < self.path.len() ==> self.cells.borrowed.contains(self.path[j])
        &&& self.since <= self.cells.log.len()
        &&& replay(self.cells.log.skip(self.since as int)) == Some(self.path)
    }

    /// The node that the top frame names.
    pub open spec fn top_index(self) -> usize {
        self.path.last()
    }

    /// The node on top.
    pub open spec fn top(self) -> T {
        self.cells.nodes[self.path.last() as int]
    }

    /// The stack has a frame `j`, counted from the root, which is frame 0.
    pub open spec fn has_frame(self, j: int) -> bool {
        0 <= j < self.path.len()
    }

    /// The node that frame `j` names.
    pub open spec fn top_at(self, j: int) -> T {
        self.cells.nodes[self.path[j] as int]
    }

    /// The same walk with `now` in place of the node on top.
    pub open spec fn with_top(self, now: T) -> Self {
        CellWalk { cells: self.cells.with_node(self.path.last(), now), path: self.path, since: self.since }
    }

    /// The walk one frame further down, on node `i`, which it has borrowed.
    pub open spec fn enter(self, i: usize) -> Self {
        CellWalk { cells: self.cells.borrow(i), path: descended(self.path, i), since: self.since }
    }

    /// Where an attempt to enter node `i` leads: nowhere, if the node is
    /// borrowed.
    pub open spec fn try_enter(self, i: usize) -> Result<Self, BorrowMutError> {
        if self.cells.borrowed.contains(i) {
            Err(BorrowMutError)
        } else {
            Ok(self.enter(i))
        }
    }

    /// The walk one frame further up, the node on top given back.
    pub open spec fn ascend(self) -> Self {
        CellWalk {
            cells: self.cells.release(self.path.last()),
            path: ascended(self.path),
            since: self.since,
        }
    }

    /// The walk with only its first `keep` frames, the others given back,
    /// last frame first.
    pub open spec fn keep(self, keep: int) -> Self {
        CellWalk {
            cells: Cells {
                nodes: self.cells.nodes,
                borrowed: Set::new(
                    |i: usize| self.cells.borrowed.contains(i) && !self.path.skip(keep).contains(i),
                ),
                log: self.cells.log + releases(self.path.skip(keep)),
            },
            path: self.path.take(keep),
            since: self.since,
        }
    }
}

/// A cursor cannot come back to a node on its own path: every such node is
/// borrowed by the frame that names it, so the attempt is refused.
pub proof fn lemma_cycle_is_refused<T>(walk: CellWalk<T>, i: usize)
    requires
        walk.wf(),
        walk.path.contains(i),
    ensures
        walk.try_enter(i) == Err::<CellWalk<T>, BorrowMutError>(BorrowMutError),
{
}

/// Release is last in, first out for every cursor: whenever the log shows a
/// release since the cursor was made, the node released is the one that was
/// acquired last among those the cursor held at that moment. No frame is
/// released before a frame above it.
pub proof fn lemma_cursor_releases_last_first<T>(walk: CellWalk<T>, k: int)
    requires
        walk.wf(),
        walk.since <= k < walk.cells.log.len(),
        walk.cells.log[k] is Release,
    ensures
        replay(walk.cells.log.subrange(walk.since as int, k)) matches Some(held) && held.len() > 0
            && held.last() == walk.cells.log[k]->Release_0,
{
    let part = walk.cells.log.skip(walk.since as int);
    lemma_release_is_lifo(part, k - walk.since);
    assert(part.take(k - walk.since) == walk.cells.log.subrange(walk.since as int, k));
}

/// Entering a node that is not borrowed keeps the walk well formed.
pub proof fn lemma_enter_wf<T>(walk: CellWalk<T>, i: usize)
    requires
        walk.wf(),
        i < walk.cells.nodes.len(),
        !walk.cells.borrowed.contains(i),
    ensures
        walk.enter(i).wf(),
{
    let log = walk.cells.log;
    let part = log.skip(walk.since as int);
    assert(log.push(Event::Acquire(i)).skip(walk.since as int) == part.push(Event::Acquire(i)));
    lemma_replay_acquire(part, i);
}

/// Giving up the top frame, above the root, keeps the walk well formed.
pub proof fn lemma_ascend_wf<T>(walk: CellWalk<T>)
    requires
        walk.wf(),
        walk.path.len() > 1,
    ensures
        walk.ascend().wf(),
{
    let log = walk.cells.log;
    let part = log.skip(walk.since as int);
    let top = walk.path.last();
    assert(log.push(Event::Release(top)).skip(walk.since as int) == part.push(Event::Release(top)));
    lemma_replay_release(part, top);
    let up = walk.ascend();
    assert forall|j: int| 0 <= j < up.path.len() implies up.cells.borrowed.contains(
        up.path[j],
    ) by {
        assert(walk.path[j] != walk.path[walk.path.len() - 1]);
    }
}

/// Giving up one frame more.
pub proof fn lemma_keep_one_less<T>(walk: CellWalk<T>, keep: int)
    requires
        walk.wf(),
        1 <= keep <= walk.path.len(),
    ensures
        walk.keep(keep).ascend() == walk.keep(keep - 1),
{
    let a = walk.keep(keep).ascend();
    let b = walk.keep(keep - 1);
    let gone = walk.path.skip(keep);
    let more = walk.path.skip(keep - 1);
    assert(a.path == b.path);
    assert(a.cells.log == b.cells.log) by {
        assert(a.cells.log.len() == b.cells.log.len());
        assert forall|m: int| 0 <= m < a.cells.log.len() implies a.cells.log[m] == b.cells.log[m] by {
            if m >= walk.cells.log.len() && m < a.cells.log.len() - 1 {
                assert(gone[gone.len() - 1 - (m - walk.cells.log.len())] == more[more.len() - 1 - (m
                    - walk.cells.log.len())]);
            }
        }
    }
    assert(a.cells.borrowed == b.cells.borrowed) by {
        assert forall|i: usize| a.cells.borrowed.contains(i) == b.cells.borrowed.contains(i) by {
            if gone.contains(i) {
                let m = choose|m: int| 0 <= m < gone.len() && gone[m] == i;
                assert(more[m + 1] == i);
            }
            assert(more[0] == walk.keep(keep).path.last());
            if more.contains(i) {
                let m = choose|m: int| 0 <= m < more.len() && more[m] == i;
                if m > 0 {
                    assert(gone[m - 1] == i);
                }
            }
        }
    }
}

/// A cursor over an arena of borrowable nodes.
pub struct RefCellRefMutStack<T> {
    /// The arena.
    arena: RefCellArena<T>,
    /// The frames, root first. Never empty. Each holds the borrow of its node.
    data: Vec<usize>,
    /// How long the arena's log was when the cursor was made.
    since: Ghost<nat>,
}

/// An arena that came back because its root could not be borrowed.
pub struct Rejected<T> {
    /// Why the cursor was not made.
    pub error: BorrowMutError,
    /// The arena, as it was handed in.
    pub arena: RefCellArena<T>,
}

impl<T> View for RefCellRefMutStack<T> {
    type V = CellWalk<T>;

    closed spec fn view(&self) -> CellWalk<T> {
        CellWalk { cells: self.arena@, path: self.data@, since: self.since@ }
    }
}

impl<T> RefCellRefMutStack<T> {
    /// The cursor holds a well-formed walk of a well-formed arena.
    pub closed spec fn wf(&self) -> bool {
        self.arena.wf() && self@.wf()
    }

    /// A well-formed cursor holds a well-formed walk.
    pub proof fn lemma_wf(&self)
        requires
            self.wf(),
        ensures
            self@.wf(),
    {
    }

    /// A cursor on `root`, over `arena`, if `root` can be borrowed; if not,
    /// the arena comes back unchanged.
    pub fn new(arena: RefCellArena<T>, root: usize) -> (made: Result<Self, Rejected<T>>)
        requires
            arena.wf(),
            root < arena@.nodes.len(),
        ensures
            match made {
                Ok(stack) => {
                    &&& !arena@.borrowed.contains(root)
                    &&& stack.wf()
                    &&& stack@ == (CellWalk {
                        cells: arena@.borrow(root),
                        path: seq![root],
                        since: arena@.log.len(),
                    })
                },
                Err(rejected) => {
                    &&& arena@.borrowed.contains(root)
                    &&& rejected.arena.wf()
                    &&& rejected.arena@ == arena@
                },
            },
    {
        let mut arena = arena;
        let ghost since = arena@.log.len();
        match arena.try_borrow_mut(root) {
            Ok(()) => {
                let mut data = Vec::new();
                data.push(root);
                let stack = RefCellRefMutStack { arena, data, since: Ghost(since) };
                proof {
                    let part = stack@.cells.log.skip(since as int);
                    assert(part == Seq::<Event>::empty().push(Event::Acquire(root)));
                    lemma_replay_acquire(Seq::<Event>::empty(), root);
                    assert(stack@.path == Seq::<usize>::empty().push(root));
                }
                Ok(stack)
            },
            Err(error) => Err(Rejected { error, arena }),
        }
    }

    /// The node on top.
    pub fn top(&self) -> (node: &T)
        requires
            self.wf(),
        ensures
            *node == self@.top(),
    {
        let i: usize = self.data[self.data.len() - 1];
        self.arena.get(i)
    }

    /// The node on top, for writing. Whatever the caller leaves in it is the
    /// node afterwards; nothing else changes.
    pub fn top_mut(&mut self) -> (node: &mut T)
        requires
            old(self).wf(),
        ensures
            *node == old(self)@.top(),
            final(self)@ == old(self)@.with_top(*final(node)),
            final(self).wf(),
    {
        let i: usize = self.data[self.data.len() - 1];
        self.arena.get_mut(i)
    }

    /// The number of nodes in the arena.
    pub fn len(&self) -> (len: usize)
        ensures
            len == self@.cells.nodes.len(),
    {
        self.arena.len()
    }

    /// Whether the stack holds the root frame only.
    pub fn is_at_root(&self) -> (at_root: bool)
        requires
            self.wf(),
        ensures
            at_root <==> self@.path.len() == 1,
    {
        self.data.len() == 1
    }

    /// Enters node `new_top`, however it was reached, if it can be borrowed.
    /// A node on the cursor's own path never can.
    pub fn inject_top(&mut self, new_top: usize) -> (node: Result<&mut T, BorrowMutError>)
        requires
            old(self).wf(),
            new_top < old(self)@.cells.nodes.len(),
        ensures
            final(self).wf(),
            match old(self)@.try_enter(new_top) {
                Ok(there) => {
                    &&& node matches Ok(entered)
                    &&& *entered == there.top()
                    &&& final(self)@ == there.with_top(*final(entered))
                },
                Err(refusal) => node == Err::<&mut T, BorrowMutError>(refusal) && final(self)@
                    == old(self)@,
            },
            old(self)@.path.contains(new_top) ==> node is Err,
    {
        match self.arena.try_borrow_mut(new_top) {
            Ok(()) => {
                proof {
                    lemma_enter_wf(old(self)@, new_top);
                }
                self.data.push(new_top);
                Ok(self.top_mut())
            },
            Err(error) => Err(error),
        }
    }

    /// Gives up the top frame, and with it the borrow of its node, and
    /// returns the node below it; at the root, does nothing and returns
    /// `None`.
    pub fn ascend(&mut self) -> (node: Option<&mut T>)
        requires
            old(self).wf(),
        ensures
            final(self).wf(),
            old(self)@.path.len() == 1 ==> node is None && final(self)@ == old(self)@,
            old(self)@.path.len() > 1 ==> ({
                &&& node matches Some(below)
                &&& *below == old(self)@.ascend().top()
                &&& final(self)@ == old(self)@.ascend().with_top(*final(below))
            }),
    {
        if self.data.len() == 1 {
            None
        } else {
            proof {
                lemma_ascend_wf(self@);
            }
            let gone: usize = self.data[self.data.len() - 1];
            self.data.pop();
            self.arena.release(gone);
            Some(self.top_mut())
        }
    }

    /// Lets `f` look for a node to jump to from the node on top, and enters
    /// the node it names if that node can be borrowed. `f` may change the
    /// node it is shown. Where it names none, the stack stays as it is and
    /// `None` is returned; where the node is borrowed, the stack stays as it
    /// is and the error is returned.
    pub fn inject_with(&mut self, f: impl FnOnce(&mut T) -> Option<usize>) -> (node: Option<
        Result<&mut T, BorrowMutError>,
    >)
        requires
            old(self).wf(),
            forall|seen: &mut T| *seen == old(self)@.top() ==> f.requires((seen,)),
            forall|seen: &mut T, edge: Option<usize>|
                *seen == old(self)@.top() && f.ensures((seen,), edge) ==> (edge matches Some(i)
                    ==> i < old(self)@.cells.nodes.len()),
        ensures
            final(self).wf(),
            exists|seen: &mut T, edge: Option<usize>|
                {
                    &&& *seen == old(self)@.top()
                    &&& f.ensures((seen,), edge)
                    &&& match edge {
                        None => node is None && final(self)@ == old(self)@.with_top(*final(seen)),
                        Some(i) => match old(self)@.with_top(*final(seen)).try_enter(i) {
                            Ok(there) => {
                                &&& node matches Some(Ok(entered))
                                &&& *entered == there.top()
                                &&& final(self)@ == there.with_top(*final(entered))
                            },
                            Err(refusal) => node == Some(Err::<&mut T, BorrowMutError>(refusal))
                                && final(self)@ == old(self)@.with_top(*final(seen)),
                        },
                    }
                },
    {
        match f(self.top_mut()) {
            Some(new_top) => Some(self.inject_top(new_top)),
            None => None,
        }
    }

    /// Lets `f` pick a neighbour of the node on top, and enters it if it can
    /// be borrowed. `f` may change the node it is shown. Where it finds no
    /// edge, the stack stays as it is and `None` is returned; where the
    /// neighbour is borrowed, as a node further up on the path always is,
    /// the stack stays as it is and the error is returned.
    pub fn descend_with(&mut self, f: impl FnOnce(&mut T) -> Option<usize>) -> (node: Option<
        Result<&mut T, BorrowMutError>,
    >)
        requires
            old(self).wf(),
            forall|seen: &mut T| *seen == old(self)@.top() ==> f.requires((seen,)),
            forall|seen: &mut T, edge: Option<usize>|
                *seen == old(self)@.top() && f.ensures((seen,), edge) ==> (edge matches Some(i)
                    ==> i < old(self)@.cells.nodes.len()),
        ensures
            final(self).wf(),
            exists|seen: &mut T, edge: Option<usize>|
                {
                    &&& *seen == old(self)@.top()
                    &&& f.ensures((seen,), edge)
                    &&& match edge {
                        None => node is None && final(self)@ == old(self)@.with_top(*final(seen)),
                        Some(i) => match old(self)@.with_top(*final(seen)).try_enter(i) {
                            Ok(there) => {
                                &&& node matches Some(Ok(entered))
                                &&& *entered == there.top()
                                &&& final(self)@ == there.with_top(*final(entered))
                            },
                            Err(refusal) => node == Some(Err::<&mut T, BorrowMutError>(refusal))
                                && final(self)@ == old(self)@.with_top(*final(seen)),
                        },
                    }
                },
    {
        match f(self.top_mut()) {
            Some(new_top) => Some(self.inject_top(new_top)),
            None => None,
        }
    }

    /// Gives up frames, and the borrows they hold, for as long as the cursor
    /// is not at its root and `predicate` says yes to the node on top, then
    /// returns the node on top. The root is never shown to `predicate`; the
    /// frame at which it says no stays. `predicate` may change each node it is
    /// shown.
    pub fn ascend_while<P: FnMut(&mut T) -> bool>(&mut self, predicate: P) -> (node: &mut T)
        requires
            old(self).wf(),
            forall|j: int, seen: &mut T|
                0 < j < old(self)@.path.len() && *seen == #[trigger] old(self)@.top_at(j)
                    ==> #[trigger] predicate.requires((seen,)),
        ensures
            final(self).wf(),
            // What is left of the path is its beginning; the frames above it
            // were released, last frame first.
            1 <= final(self)@.path.len() <= old(self)@.path.len(),
            final(self)@.path == old(self)@.keep(final(self)@.path.len() as int).path,
            final(self)@.cells.borrowed == old(self)@.keep(
                final(self)@.path.len() as int,
            ).cells.borrowed,
            final(self)@.cells.log == old(self)@.keep(final(self)@.path.len() as int).cells.log,
            final(self)@.since == old(self)@.since,
            final(self)@.cells.nodes.len() == old(self)@.cells.nodes.len(),
            final(self)@.top() == *final(node),
            // Every frame that was given up had been approved.
            forall|j: int|
                #[trigger] old(self)@.has_frame(j) && final(self)@.path.len() <= j ==> exists|
                    seen: &mut T,
                |
                    {
                        &&& *seen == old(self)@.top_at(j)
                        &&& *final(seen) == final(self)@.cells.nodes[old(self)@.path[j] as int]
                        &&& predicate.ensures((seen,), true)
                    },
            // The cursor stopped at its root, unasked, or where it was refused.
            final(self)@.path.len() == 1 ==> *node == old(self)@.top_at(0),
            final(self)@.path.len() > 1 ==> exists|seen: &mut T|
                {
                    &&& *seen == old(self)@.top_at(final(self)@.path.len() - 1)
                    &&& *final(seen) == *node
                    &&& predicate.ensures((seen,), false)
                },
            // No other node changed.
            forall|n: usize|
                n < old(self)@.cells.nodes.len() && !old(self)@.path.skip(
                    final(self)@.path.len() - 1,
                ).contains(n) ==> final(self)@.cells.nodes[n as int] == old(self)@.cells.nodes[n as int],
            // A predicate that never says no brings the cursor to its root.
            (forall|seen: &mut T, verdict: bool| predicate.ensures((seen,), verdict) ==> verdict)
                ==> final(self)@.path.len() == 1,
    {
        let ghost start = self@;
        let mut ask = predicate;
        proof {
            assert(start.keep(start.path.len() as int).path == start.path);
            assert(start.keep(start.path.len() as int).cells.log == start.cells.log);
            assert(start.keep(start.path.len() as int).cells.borrowed == start.cells.borrowed);
        }
        loop
            invariant
                start == old(self)@,
                ask == predicate,
                self.wf(),
                start.wf(),
                1 <= self@.path.len() <= start.path.len(),
                self@.path == start.keep(self@.path.len() as int).path,
                self@.cells.borrowed == start.keep(self@.path.len() as int).cells.borrowed,
                self@.cells.log == start.keep(self@.path.len() as int).cells.log,
                self@.since == start.since,
                self@.cells.nodes.len() == start.cells.nodes.len(),
                forall|j: int, seen: &mut T|
                    0 < j < start.path.len() && *seen == #[trigger] start.top_at(j)
                        ==> #[trigger] predicate.requires((seen,)),
                forall|j: int|
                    #[trigger] start.has_frame(j) && self@.path.len() <= j ==> exists|seen: &mut T|
                        {
                            &&& *seen == start.top_at(j)
                            &&& *final(seen) == self@.cells.nodes[start.path[j] as int]
                            &&& predicate.ensures((seen,), true)
                        },
                forall|n: usize|
                    n < start.cells.nodes.len() && !start.path.skip(self@.path.len() as int).contains(
                        n,
                    ) ==> self@.cells.nodes[n as int] == start.cells.nodes[n as int],
            decreases self@.path.len(),
        {
            let ghost k = self@.path.len() as int;
            proof {
                // The node on top has not been shown to the predicate yet.
                lemma_frames_from(start.path, k, k - 1);
                lemma_frame_apart(start.path, k);
                assert(self@.top_index() == start.path[k - 1]);
                assert(self@.top() == start.top_at(k - 1));
            }
            if self.is_at_root() {
                return self.top_mut();
            }
            let go = ask(self.top_mut());
            assert(exists|seen: &mut T|
                {
                    &&& *seen == start.top_at(k - 1)
                    &&& *final(seen) == self@.top()
                    &&& predicate.ensures((seen,), go)
                });
            if !go {
                return self.top_mut();
            }
            proof {
                lemma_keep_one_less(start, k);
            }
            let _ = self.ascend();
        }
    }

    /// Carries out a decision: ascends, stays, or enters the node named if it
    /// can be borrowed. Asked to ascend from the root, or to enter a node
    /// that is borrowed, it fails and changes nothing.
    pub fn move_by(&mut self, decision: MoveDecision) -> (node: Result<&mut T, MoveError>)
        requires
            old(self).wf(),
            admissible(old(self)@, decision),
        ensures
            final(self).wf(),
            match destination(old(self)@, decision) {
                Ok(there) => {
                    &&& node matches Ok(reached)
                    &&& *reached == there.top()
                    &&& final(self)@ == there.with_top(*final(reached))
                },
                Err(refusal) => node == Err::<&mut T, MoveError>(refusal) && final(self)@ == old(
                    self,
                )@,
            },
    {
        match decision {
            MoveDecision::Ascend => match self.ascend() {
                Some(below) => Ok(below),
                None => Err(MoveError::AscendAtRoot),
            },
            MoveDecision::Stay => Ok(self.top_mut()),
            MoveDecision::Inject(new_top) | MoveDecision::Descend(new_top) => match self.inject_top(
                new_top,
            ) {
                Ok(entered) => Ok(entered),
                Err(err) => Err(MoveError::BorrowMutError(err)),
            },
        }
    }

    /// Shows the node on top to `f` and carries out what it decides. `f` may
    /// change the node it is shown.
    pub fn move_with<F: FnOnce(&mut T) -> MoveDecision>(&mut self, f: F) -> (node: Result<
        &mut T,
        MoveError,
    >)
        requires
            old(self).wf(),
            forall|seen: &mut T| *seen == old(self)@.top() ==> f.requires((seen,)),
            forall|seen: &mut T, decision: MoveDecision|
                *seen == old(self)@.top() && f.ensures((seen,), decision) ==> admissible(
                    old(self)@,
                    decision,
                ),
        ensures
            final(self).wf(),
            exists|seen: &mut T, decision: MoveDecision|
                {
                    &&& *seen == old(self)@.top()
                    &&& f.ensures((seen,), decision)
                    &&& match destination(old(self)@.with_top(*final(seen)), decision) {
                        Ok(there) => {
                            &&& node matches Ok(reached)
                            &&& *reached == there.top()
                            &&& final(self)@ == there.with_top(*final(reached))
                        },
                        Err(refusal) => node == Err::<&mut T, MoveError>(refusal) && final(self)@
                            == old(self)@.with_top(*final(seen)),
                    }
                },
    {
        let decision = f(self.top_mut());
        self.move_by(decision)
    }

    /// Gives up every frame above the root, last frame first, and returns
    /// the root.
    pub fn to_root(&mut self) -> (node: &mut T)
        requires
            old(self).wf(),
        ensures
            final(self).wf(),
            *node == old(self)@.keep(1).top(),
            final(self)@ == old(self)@.keep(1).with_top(*final(node)),
    {
        let ghost start = self@;
        proof {
            assert(start.keep(start.path.len() as int).path == start.path);
            assert(start.keep(start.path.len() as int).cells.log == start.cells.log);
            assert(start.keep(start.path.len() as int).cells.borrowed == start.cells.borrowed);
        }
        while !self.is_at_root()
            invariant
                self.wf(),
                start.wf(),
                1 <= self@.path.len() <= start.path.len(),
                self@ == start.keep(self@.path.len() as int),
            decreases self@.path.len(),
        {
            let ghost before = self@;
            proof {
                lemma_keep_one_less(start, before.path.len() as int);
            }
            let _ = self.ascend();
            assert(self@.cells.nodes =~= before.ascend().cells.nodes);
        }
        self.top_mut()
    }

    /// Forgets the stack and keeps the node on top: what is returned gives
    /// access to that node and to no other. The frames below the top are not
    /// released, now or later: their nodes stay borrowed.
    pub fn into_top(self) -> (top: TopRefMut<T>)
        requires
            self.wf(),
        ensures
            top.wf(),
            top.cells() == self@.cells,
            top.index() == self@.top_index(),
            top.abandoned() == self@.path.drop_last(),
    {
        let index: usize = self.data[self.data.len() - 1];
        proof {
            assert forall|j: int| 0 <= j < self@.path.len() - 1 implies self@.path[j] != index by {}
        }
        TopRefMut { arena: self.arena, index, abandoned: Ghost(self.data@.drop_last()) }
    }

    /// Ends the walk: gives up every frame, last frame first and the root
    /// last of all, and hands the arena back.
    pub fn into_arena(self) -> (arena: RefCellArena<T>)
        requires
            self.wf(),
        ensures
            arena.wf(),
            arena@ == self@.keep(0).cells,
    {
        let mut stack = self;
        let _ = stack.to_root();
        proof {
            lemma_keep_one_less(self@, 1);
            assert(stack@.cells.nodes =~= self@.keep(1).cells.nodes);
            assert(stack@.path.last() == stack@.path[0]);
        }
        let root: usize = stack.data[0];
        let mut arena = stack.arena;
        arena.release(root);
        arena
    }
}

/// The one node that a cursor stood on when its stack was forgotten, still
/// borrowed.
pub struct TopRefMut<T> {
    /// The arena.
    arena: RefCellArena<T>,
    /// The node that can be reached.
    index: usize,
    /// The nodes of the frames that were below, which stay borrowed.
    abandoned: Ghost<Seq<usize>>,
}

impl<T> TopRefMut<T> {
    /// The arena.
    pub closed spec fn cells(&self) -> Cells<T> {
        self.arena@
    }

    /// The index of the node that can be reached.
    pub closed spec fn index(&self) -> usize {
        self.index
    }

    /// The nodes whose borrows were left behind.
    pub closed spec fn abandoned(&self) -> Seq<usize> {
        self.abandoned@
    }

    /// The node is borrowed, and so is every node left behind.
    pub closed spec fn wf(&self) -> bool {
        &&& self.arena.wf()
        &&& self.arena@.borrowed.contains(self.index)
        &&& forall|j: int|
            0 <= j < self.abandoned@.len() ==> self.abandoned@[j] != self.index
                && self.arena@.borrowed.contains(#[trigger] self.abandoned@[j])
    }

    /// What is well formed holds its node and all that was left behind.
    pub proof fn lemma_wf(&self)
        requires
            self.wf(),
        ensures
            self.index() < self.cells().nodes.len(),
            self.cells().borrowed.contains(self.index()),
            forall|j: int|
                0 <= j < self.abandoned().len() ==> self.cells().borrowed.contains(
                    #[trigger] self.abandoned()[j],
                ),
    {
        self.arena.lemma_borrowed_in_range(self.index);
    }

    /// The node.
    pub fn get(&self) -> (node: &T)
        requires
            self.wf(),
        ensures
            *node == self.cells().nodes[self.index() as int],
    {
        self.arena.get(self.index)
    }

    /// The node, for writing.
    pub fn get_mut(&mut self) -> (node: &mut T)
        requires
            old(self).wf(),
        ensures
            *node == old(self).cells().nodes[old(self).index() as int],
            final(self).cells() == old(self).cells().with_node(old(self).index(), *final(node)),
            final(self).index() == old(self).index(),
            final(self).abandoned() == old(self).abandoned(),
            final(self).wf(),
    {
        self.arena.get_mut(self.index)
    }

    /// Gives the node back, and it alone: every node that was left behind is
    /// still borrowed in the arena that is handed back.
    pub fn release(self) -> (arena: RefCellArena<T>)
        requires
            self.wf(),
        ensures
            arena.wf(),
            arena@ == self.cells().release(self.index()),
            forall|j: int|
                0 <= j < self.abandoned().len() ==> arena@.borrowed.contains(
                    #[trigger] self.abandoned()[j],
                ),
    {
        let mut arena = self.arena;
        arena.release(self.index);
        arena
    }
}

/// The decision names no node, or one of the arena.
pub open spec fn admissible<T>(walk: CellWalk<T>, decision: MoveDecision) -> bool {
    match decision {
        MoveDecision::Descend(i) | MoveDecision::Inject(i) => i < walk.cells.nodes.len(),
        _ => true,
    }
}

/// Where a decision leads from `walk`, or why it leads nowhere.
pub open spec fn destination<T>(walk: CellWalk<T>, decision: MoveDecision) -> Result<
    CellWalk<T>,
    MoveError,
> {
    match decision {
        MoveDecision::Ascend => if walk.path.len() == 1 {
            Err(MoveError::AscendAtRoot)
        } else {
            Ok(walk.ascend())
        },
        MoveDecision::Stay => Ok(walk),
        MoveDecision::Descend(i) | MoveDecision::Inject(i) => match walk.try_enter(i) {
            Ok(there) => Ok(there),
            Err(refusal) => Err(MoveError::BorrowMutError(refusal)),
        },
    }
}

} // verus!
