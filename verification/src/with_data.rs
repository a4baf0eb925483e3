//! The unchecked cursor whose frames carry a value of the caller's.
//!
//! Every frame holds, beside the node it names, one auxiliary value. The
//! value of a new frame comes from the function that picks the node; the
//! value of a frame that is given up is handed back to the caller.

use crate::simple::TopMut;
use crate::walk::{ascended, descended, fresh, lemma_frame_apart, lemma_frames_from, valid_path};
use std::collections::VecDeque;
use vstd::prelude::*;

verus! {

/// Where a cursor is to go next, and what the new frame is to carry.
pub enum MoveDecision<U> {
    /// Give up the top frame.
    Ascend,
    /// Stay on the top frame.
    Stay,
    /// Enter a node reached from the node on top.
    Descend(usize, U),
    /// Enter a node that was reached in some other way.
    Inject(usize, U),
}

/// Why a move was not made.
#[derive(Clone, Copy, Debug, PartialEq, Eq)]
pub enum MoveError {
    /// The cursor was asked to ascend from its root.
    AscendAtRoot,
}

/// What a cursor with auxiliary values is at one moment.
pub struct WalkWithData<T, U> {
    /// The nodes of the arena, by index.
    pub nodes: Seq<T>,
    /// The frames of the stack, root first.
    pub path: Seq<usize>,
    /// The auxiliary value of each frame.
    pub aux: Seq<U>,
}

impl<T, U> WalkWithData<T, U> {
    /// The path is valid for the arena, and every frame has its value.
    pub open spec fn wf(self) -> bool {
        valid_path(self.path, self.nodes.len()) && self.aux.len() == self.path.len()
    }

    /// The node that the top frame names.
    pub open spec fn top_index(self) -> usize {
        self.path.last()
    }

    /// The node on top.
    pub open spec fn top(self) -> T {
        self.nodes[self.path.last() as int]
    }

    /// The auxiliary value of the top frame.
    pub open spec fn top_aux(self) -> U {
        self.aux.last()
    }

    /// The stack has a frame `j`, counted from the root, which is frame 0.
    pub open spec fn has_frame(self, j: int) -> bool {
        0 <= j < self.path.len()
    }

    /// The node that frame `j` names.
    pub open spec fn top_at(self, j: int) -> T {
        self.nodes[self.path[j] as int]
    }

    /// Node `i` can be entered: it exists and no frame names it.
    pub open spec fn admits(self, i: usize) -> bool {
        fresh(self.path, self.nodes.len(), i)
    }

    /// The same walk with `now` in place of the node on top and `carried` in
    /// place of the top frame's value.
    pub open spec fn with_top(self, now: T, carried: U) -> Self {
        WalkWithData {
            nodes: self.nodes.update(self.path.last() as int, now),
            path: self.path,
            aux: self.aux.update(self.aux.len() - 1, carried),
        }
    }

    /// The walk one frame further down, on node `i`, carrying `carried`.
    pub open spec fn descend(self, i: usize, carried: U) -> Self {
        WalkWithData {
            nodes: self.nodes,
            path: descended(self.path, i),
            aux: self.aux.push(carried),
        }
    }

    /// The walk one frame further up.
    pub open spec fn ascend(self) -> Self {
        WalkWithData { nodes: self.nodes, path: ascended(self.path), aux: self.aux.drop_last() }
    }
}

/// A cursor over an arena of nodes that checks nothing at run time and
/// carries one auxiliary value in every frame.
pub struct MutRefStackWithData<T, U> {
    /// The arena.
    nodes: Vec<T>,
    /// The frames, root first. Never empty.
    data: Vec<usize>,
    /// The value of each frame.
    aux: Vec<U>,
}

impl<T, U> View for MutRefStackWithData<T, U> {
    type V = WalkWithData<T, U>;

    closed spec fn view(&self) -> WalkWithData<T, U> {
        WalkWithData { nodes: self.nodes@, path: self.data@, aux: self.aux@ }
    }
}

impl<T, U> MutRefStackWithData<T, U> {
    /// The cursor stands on a valid path of its arena.
    pub open spec fn wf(&self) -> bool {
        self@.wf()
    }

    /// A cursor on `root`, over the arena `nodes`, whose root frame carries
    /// `additional_data`.
    pub fn new(nodes: Vec<T>, root: usize, additional_data: U) -> (stack: Self)
        requires
            root < nodes@.len(),
        ensures
            stack.wf(),
            stack@ == (WalkWithData { nodes: nodes@, path: seq![root], aux: seq![additional_data] }),
    {
        let mut data = Vec::new();
        data.push(root);
        let mut aux = Vec::new();
        aux.push(additional_data);
        MutRefStackWithData { nodes, data, aux }
    }

    /// The node on top and the value of its frame.
    pub fn top(&self) -> (top: (&T, &U))
        requires
            self.wf(),
        ensures
            *top.0 == self@.top(),
            *top.1 == self@.top_aux(),
    {
        let last: usize = self.data.len() - 1;
        let i: usize = self.data[last];
        (&self.nodes[i], &self.aux[last])
    }

    /// The node on top and the value of its frame, for writing. Whatever the
    /// caller leaves in them is what they are afterwards.
    pub fn top_mut(&mut self) -> (top: (&mut T, &mut U))
        requires
            old(self).wf(),
        ensures
            *top.0 == old(self)@.top(),
            *top.1 == old(self)@.top_aux(),
            final(self)@ == old(self)@.with_top(*final(top.0), *final(top.1)),
            final(self).wf(),
    {
        let last: usize = self.data.len() - 1;
        let i: usize = self.data[last];
        (&mut self.nodes[i], &mut self.aux[last])
    }

    /// Whether the stack holds the root frame only.
    pub fn is_at_root(&self) -> (at_root: bool)
        requires
            self.wf(),
        ensures
            at_root <==> self@.path.len() == 1,
    {
        self.data.len() == 1
    }

    /// The number of nodes in the arena.
    pub fn len(&self) -> (len: usize)
        ensures
            len == self@.nodes.len(),
    {
        self.nodes.len()
    }

    /// Whether node `i` can be entered: it exists and no frame names it.
    pub fn admits(&self, i: usize) -> (ok: bool)
        requires
            self.wf(),
        ensures
            ok == self@.admits(i),
    {
        if i >= self.nodes.len() {
            return false;
        }
        let mut j: usize = 0;
        while j < self.data.len()
            invariant
                j <= self.data@.len(),
                forall|m: int| 0 <= m < j ==> self.data@[m] != i,
            decreases self.data@.len() - j,
        {
            if self.data[j] == i {
                return false;
            }
            j += 1;
        }
        true
    }

    /// Pushes a frame for node `i` that carries `carried`.
    fn push_frame(&mut self, i: usize, carried: U) -> (top: (&mut T, &mut U))
        requires
            old(self).wf(),
            old(self)@.admits(i),
        ensures
            *top.0 == old(self)@.nodes[i as int],
            *top.1 == carried,
            final(self)@ == old(self)@.descend(i, carried).with_top(*final(top.0), *final(top.1)),
            final(self).wf(),
    {
        self.data.push(i);
        self.aux.push(carried);
        self.top_mut()
    }

    /// Gives up the top frame and returns the node below it, the value of
    /// that node's frame, and the value of the frame given up; at the root,
    /// does nothing and returns `None`.
    pub fn ascend(&mut self) -> (up: Option<((&mut T, &mut U), U)>)
        requires
            old(self).wf(),
        ensures
            final(self).wf(),
            old(self)@.path.len() == 1 ==> up is None && final(self)@ == old(self)@,
            old(self)@.path.len() > 1 ==> ({
                &&& up matches Some(((below, kept), popped))
                &&& popped == old(self)@.top_aux()
                &&& *below == old(self)@.ascend().top()
                &&& *kept == old(self)@.ascend().top_aux()
                &&& final(self)@ == old(self)@.ascend().with_top(*final(below), *final(kept))
            }),
    {
        if self.data.len() == 1 {
            None
        } else {
            self.data.pop();
            let popped = self.aux.pop().unwrap();
            Some((self.top_mut(), popped))
        }
    }

    /// Lets `f` pick a neighbour of the node on top and the value that the new
    /// frame is to carry, and enters that node. `f` may change the node and
    /// the value it is shown. Where it finds no edge, the stack stays as it
    /// is and `None` is returned.
    pub fn descend_with(
        &mut self,
        f: impl FnOnce(&mut T, &mut U) -> Option<(usize, U)>,
    ) -> (top: Option<(&mut T, &mut U)>)
        requires
            old(self).wf(),
            forall|seen: &mut T, held: &mut U|
                *seen == old(self)@.top() && *held == old(self)@.top_aux() ==> f.requires(
                    (seen, held),
                ),
            forall|seen: &mut T, held: &mut U, edge: Option<(usize, U)>|
                *seen == old(self)@.top() && *held == old(self)@.top_aux() && f.ensures(
                    (seen, held),
                    edge,
                ) ==> (edge matches Some((i, _)) ==> old(self)@.admits(i)),
        ensures
            final(self).wf(),
            exists|seen: &mut T, held: &mut U, edge: Option<(usize, U)>|
                {
                    &&& *seen == old(self)@.top()
                    &&& *held == old(self)@.top_aux()
                    &&& f.ensures((seen, held), edge)
                    &&& match edge {
                        None => top is None && final(self)@ == old(self)@.with_top(
                            *final(seen),
                            *final(held),
                        ),
                        Some((i, carried)) => {
                            &&& top matches Some((entered, brought))
                            &&& *entered == old(self)@.nodes[i as int]
                            &&& *brought == carried
                            &&& final(self)@ == old(self)@.with_top(
                                *final(seen),
                                *final(held),
                            ).descend(i, carried).with_top(*final(entered), *final(brought))
                        },
                    }
                },
    {
        let (node, addl) = self.top_mut();
        match f(node, addl) {
            Some((new_top, new_addl)) => Some(self.push_frame(new_top, new_addl)),
            None => None,
        }
    }

    /// Lets `f` look for a node to jump to from the node on top, and for the
    /// value that the new frame is to carry, and enters that node. `f` may
    /// change the node and the value it is shown. Where it names no node,
    /// the stack stays as it is and `None` is returned.
    pub fn inject_with(
        &mut self,
        f: impl FnOnce(&mut T, &mut U) -> Option<(usize, U)>,
    ) -> (top: Option<(&mut T, &mut U)>)
        requires
            old(self).wf(),
            forall|seen: &mut T, held: &mut U|
                *seen == old(self)@.top() && *held == old(self)@.top_aux() ==> f.requires(
                    (seen, held),
                ),
            forall|seen: &mut T, held: &mut U, edge: Option<(usize, U)>|
                *seen == old(self)@.top() && *held == old(self)@.top_aux() && f.ensures(
                    (seen, held),
                    edge,
                ) ==> (edge matches Some((i, _)) ==> old(self)@.admits(i)),
        ensures
            final(self).wf(),
            exists|seen: &mut T, held: &mut U, edge: Option<(usize, U)>|
                {
                    &&& *seen == old(self)@.top()
                    &&& *held == old(self)@.top_aux()
                    &&& f.ensures((seen, held), edge)
                    &&& match edge {
                        None => top is None && final(self)@ == old(self)@.with_top(
                            *final(seen),
                            *final(held),
                        ),
                        Some((i, carried)) => {
                            &&& top matches Some((entered, brought))
                            &&& *entered == old(self)@.nodes[i as int]
                            &&& *brought == carried
                            &&& final(self)@ == old(self)@.with_top(
                                *final(seen),
                                *final(held),
                            ).descend(i, carried).with_top(*final(entered), *final(brought))
                        },
                    }
                },
    {
        let (node, addl) = self.top_mut();
        match f(node, addl) {
            Some((new_top, new_addl)) => Some(self.push_frame(new_top, new_addl)),
            None => None,
        }
    }

    /// Carries out a decision: ascends, stays, or enters the node named. An
    /// ascent hands back the value of the frame given up. Asked to ascend
    /// from the root, it fails and changes nothing.
    pub fn move_by(&mut self, decision: MoveDecision<U>) -> (moved: Result<
        ((&mut T, &mut U), Option<U>),
        MoveError,
    >)
        requires
            old(self).wf(),
            admissible(old(self)@, decision),
        ensures
            final(self).wf(),
            match destination(old(self)@, decision) {
                Ok((there, given_up)) => {
                    &&& moved matches Ok(((reached, carried), popped))
                    &&& popped == given_up
                    &&& *reached == there.top()
                    &&& *carried == there.top_aux()
                    &&& final(self)@ == there.with_top(*final(reached), *final(carried))
                },
                Err(refusal) => moved == Err::<((&mut T, &mut U), Option<U>), MoveError>(refusal)
                    && final(self)@ == old(self)@,
            },
    {
        match decision {
            MoveDecision::Ascend => match self.ascend() {
                Some((top, old_addl)) => Ok((top, Some(old_addl))),
                None => Err(MoveError::AscendAtRoot),
            },
            MoveDecision::Stay => Ok((self.top_mut(), None)),
            MoveDecision::Inject(new_top, new_addl) | MoveDecision::Descend(new_top, new_addl) => Ok(
                (self.push_frame(new_top, new_addl), None),
            ),
        }
    }

    /// Shows the node on top and the value of its frame to `f` and carries
    /// out what it decides. `f` may change both.
    pub fn move_with(
        &mut self,
        f: impl FnOnce(&mut T, &mut U) -> MoveDecision<U>,
    ) -> (moved: Result<((&mut T, &mut U), Option<U>), MoveError>)
        requires
            old(self).wf(),
            forall|seen: &mut T, held: &mut U|
                *seen == old(self)@.top() && *held == old(self)@.top_aux() ==> f.requires(
                    (seen, held),
                ),
            forall|seen: &mut T, held: &mut U, decision: MoveDecision<U>|
                *seen == old(self)@.top() && *held == old(self)@.top_aux() && f.ensures(
                    (seen, held),
                    decision,
                ) ==> admissible(old(self)@, decision),
        ensures
            final(self).wf(),
            exists|seen: &mut T, held: &mut U, decision: MoveDecision<U>|
                {
                    &&& *seen == old(self)@.top()
                    &&& *held == old(self)@.top_aux()
                    &&& f.ensures((seen, held), decision)
                    &&& match destination(
                        old(self)@.with_top(*final(seen), *final(held)),
                        decision,
                    ) {
                        Ok((there, given_up)) => {
                            &&& moved matches Ok(((reached, carried), popped))
                            &&& popped == given_up
                            &&& *reached == there.top()
                            &&& *carried == there.top_aux()
                            &&& final(self)@ == there.with_top(*final(reached), *final(carried))
                        },
                        Err(refusal) => moved == Err::<((&mut T, &mut U), Option<U>), MoveError>(
                            refusal,
                        ) && final(self)@ == old(self)@.with_top(*final(seen), *final(held)),
                    }
                },
    {
        let (node, addl) = self.top_mut();
        let decision = f(node, addl);
        self.move_by(decision)
    }

    /// Gives up frames for as long as the cursor is not at its root and
    /// `predicate` says yes to the node on top and the value of its frame.
    /// Returns the node on top with the value of its frame, and the values of
    /// the frames given up: first the one of the frame nearest to where the
    /// cursor stopped, last the one of the frame on which it started. The
    /// root is never shown to `predicate`; the frame at which it says no
    /// stays. `predicate` may change what it is shown.
    pub fn ascend_while<P: FnMut(&mut T, &mut U) -> bool>(&mut self, predicate: P) -> (up: (
        (&mut T, &mut U),
        VecDeque<U>,
    ))
        requires
            old(self).wf(),
            forall|j: int, seen: &mut T, held: &mut U|
                0 < j < old(self)@.path.len() && *seen == #[trigger] old(self)@.top_at(j) && *held
                    == old(self)@.aux[j] ==> #[trigger] predicate.requires((seen, held)),
        ensures
            final(self).wf(),
            // What is left of the path is its beginning, with the values of
            // the frames below the top.
            final(self)@.path.is_prefix_of(old(self)@.path),
            final(self)@.aux.drop_last() == old(self)@.aux.take(final(self)@.path.len() - 1),
            final(self)@.nodes.len() == old(self)@.nodes.len(),
            final(self)@.top() == *final(up.0.0),
            final(self)@.top_aux() == *final(up.0.1),
            // One value comes back for each frame given up, in the order of
            // the frames. Each such frame had been approved.
            up.1@.len() == old(self)@.path.len() - final(self)@.path.len(),
            forall|j: int|
                #[trigger] old(self)@.has_frame(j) && final(self)@.path.len() <= j ==> exists|
                    seen: &mut T,
                    held: &mut U,
                |
                    {
                        &&& *seen == old(self)@.top_at(j)
                        &&& *held == old(self)@.aux[j]
                        &&& *final(seen) == final(self)@.nodes[old(self)@.path[j] as int]
                        &&& *final(held) == up.1@[j - final(self)@.path.len()]
                        &&& predicate.ensures((seen, held), true)
                    },
            // The cursor stopped at its root, unasked, or where it was refused.
            final(self)@.path.len() == 1 ==> *up.0.0 == old(self)@.top_at(0) && *up.0.1 == old(
                self,
            )@.aux[0],
            final(self)@.path.len() > 1 ==> exists|seen: &mut T, held: &mut U|
                {
                    &&& *seen == old(self)@.top_at(final(self)@.path.len() - 1)
                    &&& *held == old(self)@.aux[final(self)@.path.len() - 1]
                    &&& *final(seen) == *up.0.0
                    &&& *final(held) == *up.0.1
                    &&& predicate.ensures((seen, held), false)
                },
            // No other node changed.
            forall|n: usize|
                n < old(self)@.nodes.len() && !old(self)@.path.skip(
                    final(self)@.path.len() - 1,
                ).contains(n) ==> final(self)@.nodes[n as int] == old(self)@.nodes[n as int],
            // A predicate that never says no brings the cursor to its root.
            (forall|seen: &mut T, held: &mut U, verdict: bool|
                predicate.ensures((seen, held), verdict) ==> verdict) ==> final(self)@.path.len()
                == 1,
    {
        let ghost start = self@;
        let mut ask = predicate;
        let mut items: VecDeque<U> = VecDeque::new();
        loop
            invariant
                start == old(self)@,
                ask == predicate,
                self.wf(),
                start.wf(),
                self@.path.is_prefix_of(start.path),
                self@.aux == start.aux.take(self@.path.len() as int),
                self@.nodes.len() == start.nodes.len(),
                items@.len() == start.path.len() - self@.path.len(),
                forall|j: int, seen: &mut T, held: &mut U|
                    0 < j < start.path.len() && *seen == #[trigger] start.top_at(j) && *held
                        == start.aux[j] ==> #[trigger] predicate.requires((seen, held)),
                forall|j: int|
                    #[trigger] start.has_frame(j) && self@.path.len() <= j ==> exists|
                        seen: &mut T,
                        held: &mut U,
                    |
                        {
                            &&& *seen == start.top_at(j)
                            &&& *held == start.aux[j]
                            &&& *final(seen) == self@.nodes[start.path[j] as int]
                            &&& *final(held) == items@[j - self@.path.len()]
                            &&& predicate.ensures((seen, held), true)
                        },
                forall|n: usize|
                    n < start.nodes.len() && !start.path.skip(self@.path.len() as int).contains(n)
                        ==> self@.nodes[n as int] == start.nodes[n as int],
            decreases self@.path.len(),
        {
            let ghost k = self@.path.len() as int;
            proof {
                // The frame on top has not been shown to the predicate yet.
                lemma_frames_from(start.path, k, k - 1);
                lemma_frame_apart(start.path, k);
                assert(self@.top_index() == start.path[k - 1]);
                assert(self@.top() == start.top_at(k - 1));
                assert(self@.top_aux() == start.aux[k - 1]);
                assert(self@.aux.drop_last() == start.aux.take(k - 1));
            }
            if self.is_at_root() {
                return (self.top_mut(), items);
            }
            let (node, addl) = self.top_mut();
            let go = ask(node, addl);
            assert(exists|seen: &mut T, held: &mut U|
                {
                    &&& *seen == start.top_at(k - 1)
                    &&& *held == start.aux[k - 1]
                    &&& *final(seen) == self@.top()
                    &&& *final(held) == self@.top_aux()
                    &&& predicate.ensures((seen, held), go)
                });
            if !go {
                return (self.top_mut(), items);
            }
            match self.ascend() {
                Some((_, popped)) => {
                    items.push_front(popped);
                },
                None => {},
            }
        }
    }

    /// Forgets the stack and the values it carried, and keeps the node on
    /// top: what is returned gives access to that node and to no other.
    pub fn into_top(self) -> (top: TopMut<T>)
        requires
            self.wf(),
        ensures
            top.wf(),
            top.nodes() == self@.nodes,
            top.index() == self@.top_index(),
    {
        let i: usize = self.data[self.data.len() - 1];
        TopMut::new(self.nodes, i)
    }

    /// Ends the walk and hands the arena back.
    pub fn into_nodes(self) -> (nodes: Vec<T>)
        ensures
            nodes@ == self@.nodes,
    {
        self.nodes
    }
}

/// The decision names no node, or one that the walk can enter.
pub open spec fn admissible<T, U>(walk: WalkWithData<T, U>, decision: MoveDecision<U>) -> bool {
    match decision {
        MoveDecision::Descend(i, _) | MoveDecision::Inject(i, _) => walk.admits(i),
        _ => true,
    }
}

/// Where a decision leads from `walk` and which value it hands back, or why
/// it leads nowhere.
pub open spec fn destination<T, U>(walk: WalkWithData<T, U>, decision: MoveDecision<U>) -> Result<
    (WalkWithData<T, U>, Option<U>),
    MoveError,
> {
    match decision {
        MoveDecision::Ascend => if walk.path.len() == 1 {
            Err(MoveError::AscendAtRoot)
        } else {
            Ok((walk.ascend(), Some(walk.top_aux())))
        },
        MoveDecision::Stay => Ok((walk, None)),
        MoveDecision::Descend(i, carried) | MoveDecision::Inject(i, carried) => Ok(
            (walk.descend(i, carried), None),
        ),
    }
}

} // verus!
