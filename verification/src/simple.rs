//! The unchecked cursor: a node is acquired by naming it.
//!
//! Nothing is tested at run time. That no node is entered while a frame
//! already names it is the caller's obligation, stated in the `requires` of
//! every function that pushes a frame.

use crate::walk::{lemma_frame_apart, lemma_frames_from, Walk};
use vstd::prelude::*;

verus! {

/// Where a cursor is to go next.
#[derive(Clone, Copy, Debug, PartialEq, Eq)]
pub enum MoveDecision {
    /// Give up the top frame.
    Ascend,
    /// Stay on the top frame.
    Stay,
    /// Enter a node reached from the node on top.
    Descend(usize),
    /// Enter a node that was reached in some other way.
    Inject(usize),
}

/// Why a move was not made.
#[derive(Clone, Copy, Debug, PartialEq, Eq)]
pub enum MoveError {
    /// The cursor was asked to ascend from its root.
    AscendAtRoot,
}

/// A cursor over an arena of nodes that checks nothing at run time.
pub struct MutRefStack<T> {
    /// The arena.
    nodes: Vec<T>,
    /// The frames, root first. Never empty.
    data: Vec<usize>,
}

impl<T> View for MutRefStack<T> {
    type V = Walk<T>;

    closed spec fn view(&self) -> Walk<T> {
        Walk { nodes: self.nodes@, path: self.data@ }
    }
}

impl<T> MutRefStack<T> {
    /// The cursor stands on a valid path of its arena.
    pub open spec fn wf(&self) -> bool {
        self@.wf()
    }

    /// A cursor on `root`, over the arena `nodes`.
    pub fn new(nodes: Vec<T>, root: usize) -> (stack: Self)
        requires
            root < nodes@.len(),
        ensures
            stack.wf(),
            stack@ == (Walk { nodes: nodes@, path: seq![root] }),
    {
        let mut data = Vec::new();
        data.push(root);
        MutRefStack { nodes, data }
    }

    /// The index of the node on top.
    fn raw_top(&self) -> (i: usize)
        requires
            self.wf(),
        ensures
            i == self@.top_index(),
            i < self@.nodes.len(),
    {
        self.data[self.data.len() - 1]
    }

    /// The node on top.
    pub fn top(&self) -> (node: &T)
        requires
            self.wf(),
        ensures
            *node == self@.top(),
    {
        let i: usize = self.raw_top();
        &self.nodes[i]
    }

    /// The node on top, for writing. Whatever the caller leaves in it is the
    /// node afterwards; nothing else changes.
    pub fn top_mut(&mut self) -> (node: &mut T)
        requires
            old(self).wf(),
        ensures
            *node == old(self)@.top(),
            final(self)@ == old(self)@.with_top(*final(node)),
            final(self).wf(),
    {
        let i: usize = self.raw_top();
        &mut self.nodes[i]
    }

    /// Whether the stack holds the root frame only.
    pub fn is_at_root(&self) -> (at_root: bool)
        requires
            self.wf(),
        ensures
            at_root <==> self@.path.len() == 1,
    {
        self.data.len() == 1
    }

    /// The number of nodes in the arena.
    pub fn len(&self) -> (len: usize)
        ensures
            len == self@.nodes.len(),
    {
        self.nodes.len()
    }

    /// Whether node `i` can be entered: it exists and no frame names it.
    pub fn admits(&self, i: usize) -> (ok: bool)
        requires
            self.wf(),
        ensures
            ok == self@.admits(i),
    {
        if i >= self.nodes.len() {
            return false;
        }
        let mut j: usize = 0;
        while j < self.data.len()
            invariant
                j <= self.data@.len(),
                forall|m: int| 0 <= m < j ==> self.data@[m] != i,
            decreases self.data@.len() - j,
        {
            if self.data[j] == i {
                return false;
            }
            j += 1;
        }
        true
    }

    /// Enters node `new_top`, however it was reached, and returns it.
    pub fn inject_top(&mut self, new_top: usize) -> (node: &mut T)
        requires
            old(self).wf(),
            old(self)@.admits(new_top),
        ensures
            *node == old(self)@.nodes[new_top as int],
            final(self)@ == old(self)@.descend(new_top).with_top(*final(node)),
            final(self).wf(),
    {
        self.data.push(new_top);
        &mut self.nodes[new_top]
    }

    /// Lets `f` look for a node to jump to from the node on top, and enters
    /// the node it names. `f` may change the node it is shown. Where it names
    /// none, the stack stays as it is and `None` is returned.
    pub fn inject_with(&mut self, f: impl FnOnce(&mut T) -> Option<usize>) -> (node: Option<&mut T>)
        requires
            old(self).wf(),
            forall|seen: &mut T| *seen == old(self)@.top() ==> f.requires((seen,)),
            forall|seen: &mut T, edge: Option<usize>|
                *seen == old(self)@.top() && f.ensures((seen,), edge) ==> (edge matches Some(i)
                    ==> old(self)@.admits(i)),
        ensures
            final(self).wf(),
            exists|seen: &mut T, edge: Option<usize>|
                {
                    &&& *seen == old(self)@.top()
                    &&& f.ensures((seen,), edge)
                    &&& match edge {
                        None => node is None && final(self)@ == old(self)@.with_top(*final(seen)),
                        Some(i) => {
                            &&& node matches Some(entered)
                            &&& *entered == old(self)@.nodes[i as int]
                            &&& final(self)@ == old(self)@.with_top(*final(seen)).descend(
                                i,
                            ).with_top(*final(entered))
                        },
                    }
                },
    {
        match f(self.top_mut()) {
            Some(new_top) => Some(self.inject_top(new_top)),
            None => None,
        }
    }

    /// Lets `f` pick a neighbour of the node on top, and enters it. `f` may
    /// change the node it is shown. Where it finds no edge, the stack stays
    /// as it is and `None` is returned.
    pub fn descend_with(&mut self, f: impl FnOnce(&mut T) -> Option<usize>) -> (node: Option<&mut T>)
        requires
            old(self).wf(),
            forall|seen: &mut T| *seen == old(self)@.top() ==> f.requires((seen,)),
            forall|seen: &mut T, edge: Option<usize>|
                *seen == old(self)@.top() && f.ensures((seen,), edge) ==> (edge matches Some(i)
                    ==> old(self)@.admits(i)),
        ensures
            final(self).wf(),
            exists|seen: &mut T, edge: Option<usize>|
                {
                    &&& *seen == old(self)@.top()
                    &&& f.ensures((seen,), edge)
                    &&& match edge {
                        None => node is None && final(self)@ == old(self)@.with_top(*final(seen)),
                        Some(i) => {
                            &&& node matches Some(entered)
                            &&& *entered == old(self)@.nodes[i as int]
                            &&& final(self)@ == old(self)@.with_top(*final(seen)).descend(
                                i,
                            ).with_top(*final(entered))
                        },
                    }
                },
    {
        match f(self.top_mut()) {
            Some(new_top) => Some(self.inject_top(new_top)),
            None => None,
        }
    }

    /// Gives up the top frame and returns the node below it; at the root,
    /// does nothing and returns `None`.
    pub fn ascend(&mut self) -> (node: Option<&mut T>)
        requires
            old(self).wf(),
        ensures
            final(self).wf(),
            old(self)@.path.len() == 1 ==> node is None && final(self)@ == old(self)@,
            old(self)@.path.len() > 1 ==> ({
                &&& node matches Some(below)
                &&& *below == old(self)@.ascend().top()
                &&& final(self)@ == old(self)@.ascend().with_top(*final(below))
            }),
    {
        if self.data.len() == 1 {
            None
        } else {
            self.data.pop();
            Some(self.top_mut())
        }
    }

    /// Gives up frames for as long as the cursor is not at its root and
    /// `predicate` says yes to the node on top, then returns the node on top.
    /// The root is never shown to `predicate`; the frame at which it says no
    /// stays. `predicate` may change each node it is shown.
    pub fn ascend_while<P: FnMut(&mut T) -> bool>(&mut self, predicate: P) -> (node: &mut T)
        requires
            old(self).wf(),
            forall|j: int, seen: &mut T|
                0 < j < old(self)@.path.len() && *seen == #[trigger] old(self)@.top_at(j)
                    ==> #[trigger] predicate.requires((seen,)),
        ensures
            final(self).wf(),
            // What is left of the path is its beginning.
            final(self)@.path.is_prefix_of(old(self)@.path),
            final(self)@.nodes.len() == old(self)@.nodes.len(),
            final(self)@.top() == *final(node),
            // Every frame that was given up had been approved.
            forall|j: int|
                #[trigger] old(self)@.has_frame(j) && final(self)@.path.len() <= j ==> exists|
                    seen: &mut T,
                |
                    {
                        &&& *seen == old(self)@.top_at(j)
                        &&& *final(seen) == final(self)@.nodes[old(self)@.path[j] as int]
                        &&& predicate.ensures((seen,), true)
                    },
            // The cursor stopped at its root, unasked, or where it was refused.
            final(self)@.path.len() == 1 ==> *node == old(self)@.top_at(0),
            final(self)@.path.len() > 1 ==> exists|seen: &mut T|
                {
                    &&& *seen == old(self)@.top_at(final(self)@.path.len() - 1)
                    &&& *final(seen) == *node
                    &&& predicate.ensures((seen,), false)
                },
            // No other node changed.
            forall|n: usize|
                n < old(self)@.nodes.len() && !old(self)@.path.skip(
                    final(self)@.path.len() - 1,
                ).contains(n) ==> final(self)@.nodes[n as int] == old(self)@.nodes[n as int],
            // A predicate that never says no brings the cursor to its root.
            (forall|seen: &mut T, verdict: bool| predicate.ensures((seen,), verdict) ==> verdict)
                ==> final(self)@.path.len() == 1,
    {
        let ghost start = self@;
        let mut ask = predicate;
        loop
            invariant
                start == old(self)@,
                ask == predicate,
                self.wf(),
                start.wf(),
                self@.path.is_prefix_of(start.path),
                self@.nodes.len() == start.nodes.len(),
                forall|j: int, seen: &mut T|
                    0 < j < start.path.len() && *seen == #[trigger] start.top_at(j)
                        ==> #[trigger] predicate.requires((seen,)),
                forall|j: int|
                    #[trigger] start.has_frame(j) && self@.path.len() <= j ==> exists|seen: &mut T|
                        {
                            &&& *seen == start.top_at(j)
                            &&& *final(seen) == self@.nodes[start.path[j] as int]
                            &&& predicate.ensures((seen,), true)
                        },
                forall|n: usize|
                    n < start.nodes.len() && !start.path.skip(self@.path.len() as int).contains(n)
                        ==> self@.nodes[n as int] == start.nodes[n as int],
            decreases self@.path.len(),
        {
            let ghost k = self@.path.len() as int;
            proof {
                // The node on top has not been shown to the predicate yet.
                lemma_frames_from(start.path, k, k - 1);
                lemma_frame_apart(start.path, k);
                assert(self@.top_index() == start.path[k - 1]);
                assert(self@.top() == start.top_at(k - 1));
            }
            if self.is_at_root() {
                return self.top_mut();
            }
            let go = ask(self.top_mut());
            assert(exists|seen: &mut T|
                {
                    &&& *seen == start.top_at(k - 1)
                    &&& *final(seen) == self@.top()
                    &&& predicate.ensures((seen,), go)
                });
            if !go {
                return self.top_mut();
            }
            let _ = self.ascend();
        }
    }

    /// Carries out a decision: ascends, stays, or enters the node named.
    /// Asked to ascend from the root, it fails and changes nothing.
    pub fn move_by(&mut self, decision: MoveDecision) -> (node: Result<&mut T, MoveError>)
        requires
            old(self).wf(),
            admissible(old(self)@, decision),
        ensures
            final(self).wf(),
            match destination(old(self)@, decision) {
                Ok(there) => {
                    &&& node matches Ok(reached)
                    &&& *reached == there.top()
                    &&& final(self)@ == there.with_top(*final(reached))
                },
                Err(refusal) => node == Err::<&mut T, MoveError>(refusal) && final(self)@ == old(
                    self,
                )@,
            },
    {
        match decision {
            MoveDecision::Ascend => match self.ascend() {
                Some(below) => Ok(below),
                None => Err(MoveError::AscendAtRoot),
            },
            MoveDecision::Stay => Ok(self.top_mut()),
            MoveDecision::Inject(new_top) | MoveDecision::Descend(new_top) => Ok(
                self.inject_top(new_top),
            ),
        }
    }

    /// Shows the node on top to `f` and carries out what it decides. `f` may
    /// change the node it is shown.
    pub fn move_with<F: FnOnce(&mut T) -> MoveDecision>(&mut self, f: F) -> (node: Result<
        &mut T,
        MoveError,
    >)
        requires
            old(self).wf(),
            forall|seen: &mut T| *seen == old(self)@.top() ==> f.requires((seen,)),
            forall|seen: &mut T, decision: MoveDecision|
                *seen == old(self)@.top() && f.ensures((seen,), decision) ==> admissible(
                    old(self)@,
                    decision,
                ),
        ensures
            final(self).wf(),
            exists|seen: &mut T, decision: MoveDecision|
                {
                    &&& *seen == old(self)@.top()
                    &&& f.ensures((seen,), decision)
                    &&& match destination(old(self)@.with_top(*final(seen)), decision) {
                        Ok(there) => {
                            &&& node matches Ok(reached)
                            &&& *reached == there.top()
                            &&& final(self)@ == there.with_top(*final(reached))
                        },
                        Err(refusal) => node == Err::<&mut T, MoveError>(refusal) && final(self)@
                            == old(self)@.with_top(*final(seen)),
                    }
                },
    {
        let decision = f(self.top_mut());
        self.move_by(decision)
    }

    /// Gives up every frame above the root and returns the root.
    pub fn to_root(&mut self) -> (node: &mut T)
        requires
            old(self).wf(),
        ensures
            final(self).wf(),
            *node == old(self)@.to_root().top(),
            final(self)@ == old(self)@.to_root().with_top(*final(node)),
    {
        self.data.truncate(1);
        self.top_mut()
    }

    /// Forgets the stack and keeps the node on top: what is returned gives
    /// access to that node and to no other.
    pub fn into_top(self) -> (top: TopMut<T>)
        requires
            self.wf(),
        ensures
            top.wf(),
            top.nodes() == self@.nodes,
            top.index() == self@.top_index(),
    {
        let index: usize = self.raw_top();
        TopMut::new(self.nodes, index)
    }

    /// Ends the walk and hands the arena back.
    pub fn into_nodes(self) -> (nodes: Vec<T>)
        ensures
            nodes@ == self@.nodes,
    {
        self.nodes
    }
}

/// The one node that a cursor stood on when its stack was forgotten.
pub struct TopMut<T> {
    /// The arena.
    nodes: Vec<T>,
    /// The node that can be reached.
    index: usize,
}

impl<T> TopMut<T> {
    /// The arena's nodes.
    pub closed spec fn nodes(&self) -> Seq<T> {
        self.nodes@
    }

    /// The index of the node that can be reached.
    pub closed spec fn index(&self) -> usize {
        self.index
    }

    /// The node exists.
    pub open spec fn wf(&self) -> bool {
        self.index() < self.nodes().len()
    }

    /// Access to node `index` of `nodes`, and to no other.
    pub fn new(nodes: Vec<T>, index: usize) -> (top: Self)
        requires
            index < nodes@.len(),
        ensures
            top.wf(),
            top.nodes() == nodes@,
            top.index() == index,
    {
        TopMut { nodes, index }
    }

    /// The node.
    pub fn get(&self) -> (node: &T)
        requires
            self.wf(),
        ensures
            *node == self.nodes()[self.index() as int],
    {
        &self.nodes[self.index]
    }

    /// The node, for writing.
    pub fn get_mut(&mut self) -> (node: &mut T)
        requires
            old(self).wf(),
        ensures
            *node == old(self).nodes()[old(self).index() as int],
            final(self).nodes() == old(self).nodes().update(old(self).index() as int, *final(node)),
            final(self).index() == old(self).index(),
            final(self).wf(),
    {
        &mut self.nodes[self.index]
    }

    /// Gives the node up and hands the arena back.
    pub fn into_nodes(self) -> (nodes: Vec<T>)
        ensures
            nodes@ == self.nodes(),
    {
        self.nodes
    }
}

/// The decision names no node, or one that the walk can enter.
pub open spec fn admissible<T>(walk: Walk<T>, decision: MoveDecision) -> bool {
    match decision {
        MoveDecision::Descend(i) | MoveDecision::Inject(i) => walk.admits(i),
        _ => true,
    }
}

/// Where a decision leads from `walk`, or why it leads nowhere.
pub open spec fn destination<T>(walk: Walk<T>, decision: MoveDecision) -> Result<
    Walk<T>,
    MoveError,
> {
    match decision {
        MoveDecision::Ascend => if walk.path.len() == 1 {
            Err(MoveError::AscendAtRoot)
        } else {
            Ok(walk.ascend())
        },
        MoveDecision::Stay => Ok(walk),
        MoveDecision::Descend(i) | MoveDecision::Inject(i) => Ok(walk.descend(i)),
    }
}

} // verus!
