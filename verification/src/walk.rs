//! The path of a cursor as a mathematical sequence, and what sequences of
//! successful moves do to it.

use vstd::prelude::*;

verus! {

/// The path after a successful move down into node `i`.
pub open spec fn descended(path: Seq<usize>, i: usize) -> Seq<usize> {
    path.push(i)
}

/// The path after a successful move up.
pub open spec fn ascended(path: Seq<usize>) -> Seq<usize> {
    path.drop_last()
}

/// The path after every frame above the root has been given up.
pub open spec fn rooted(path: Seq<usize>) -> Seq<usize> {
    path.take(1)
}

/// A path a cursor can stand on: it starts at a root, every frame names a
/// node of an arena of `len` nodes, and no node is named twice.
pub open spec fn valid_path(path: Seq<usize>, len: nat) -> bool {
    &&& path.len() > 0
    &&& forall|j: int| 0 <= j < path.len() ==> path[j] < len
    &&& path.no_duplicates()
}

/// Node `i` exists and is not yet on the path.
pub open spec fn fresh(path: Seq<usize>, len: nat, i: usize) -> bool {
    i < len && !path.contains(i)
}

/// What an unchecked cursor is at one moment: the arena's nodes and the path
/// from the root, whose last frame is the top.
pub struct Walk<T> {
    /// The nodes of the arena, by index.
    pub nodes: Seq<T>,
    /// The frames of the stack, root first.
    pub path: Seq<usize>,
}

impl<T> Walk<T> {
    /// The path is valid for the arena.
    pub open spec fn wf(self) -> bool {
        valid_path(self.path, self.nodes.len())
    }

    /// The node that the top frame names.
    pub open spec fn top_index(self) -> usize {
        self.path.last()
    }

    /// The node on top.
    pub open spec fn top(self) -> T {
        self.nodes[self.path.last() as int]
    }

    /// The stack has a frame `j`, counted from the root, which is frame 0.
    pub open spec fn has_frame(self, j: int) -> bool {
        0 <= j < self.path.len()
    }

    /// The node that frame `j` names.
    pub open spec fn top_at(self, j: int) -> T {
        self.nodes[self.path[j] as int]
    }

    /// Node `i` can be entered: it exists and no frame names it.
    pub open spec fn admits(self, i: usize) -> bool {
        fresh(self.path, self.nodes.len(), i)
    }

    /// The same walk with `now` in place of the node on top.
    pub open spec fn with_top(self, now: T) -> Self {
        Walk { nodes: self.nodes.update(self.path.last() as int, now), path: self.path }
    }

    /// The walk one frame further down, on node `i`.
    pub open spec fn descend(self, i: usize) -> Self {
        Walk { nodes: self.nodes, path: descended(self.path, i) }
    }

    /// The walk one frame further up.
    pub open spec fn ascend(self) -> Self {
        Walk { nodes: self.nodes, path: ascended(self.path) }
    }

    /// The walk back at its root.
    pub open spec fn to_root(self) -> Self {
        Walk { nodes: self.nodes, path: rooted(self.path) }
    }
}

/// A move that changed the path.
pub enum Step {
    /// A frame for the given node was pushed.
    Descend(usize),
    /// The top frame was popped.
    Ascend,
}

/// One step applied to a path.
pub open spec fn step(path: Seq<usize>, s: Step) -> Seq<usize> {
    match s {
        Step::Descend(i) => descended(path, i),
        Step::Ascend => ascended(path),
    }
}

/// The steps applied to a path, first to last.
pub open spec fn run(path: Seq<usize>, steps: Seq<Step>) -> Seq<usize>
    decreases steps.len(),
{
    if steps.len() == 0 {
        path
    } else {
        step(run(path, steps.drop_last()), steps.last())
    }
}

/// Descents minus ascents.
pub open spec fn net_depth(steps: Seq<Step>) -> int
    decreases steps.len(),
{
    if steps.len() == 0 {
        0
    } else {
        net_depth(steps.drop_last()) + match steps.last() {
            Step::Descend(_) => 1int,
            Step::Ascend => -1int,
        }
    }
}

/// At no point have there been more ascents than descents.
pub open spec fn never_above_start(steps: Seq<Step>) -> bool {
    forall|k: int| 0 <= k <= steps.len() ==> net_depth(#[trigger] steps.take(k)) >= 0
}

/// Steps that never rise above their starting frame leave everything up to
/// that frame as it was, and change the depth by their net depth.
pub proof fn lemma_run_keeps_start(path: Seq<usize>, steps: Seq<Step>)
    requires
        never_above_start(steps),
    ensures
        run(path, steps).len() == path.len() + net_depth(steps),
        run(path, steps).take(path.len() as int) == path,
    decreases steps.len(),
{
    if steps.len() == 0 {
        assert(path.take(path.len() as int) == path);
    } else {
        let before = steps.drop_last();
        assert forall|k: int| 0 <= k <= before.len() implies net_depth(
            #[trigger] before.take(k),
        ) >= 0 by {
            assert(before.take(k) == steps.take(k));
        }
        lemma_run_keeps_start(path, before);
        assert(steps.take(steps.len() as int) == steps);
        let mid = run(path, before);
        assert(mid.take(path.len() as int) == path);
        match steps.last() {
            Step::Descend(i) => {
                assert(mid.push(i).take(path.len() as int) == mid.take(path.len() as int));
            },
            Step::Ascend => {
                assert(mid.drop_last().take(path.len() as int) == mid.take(path.len() as int));
            },
        }
    }
}

/// Balanced walks come home: after any sequence of successful descents and
/// ascents in which the ascents never outnumber the descents so far, and
/// which ends with as many of one as of the other, the path (its depth and
/// the node on top) is exactly what it was before.
pub proof fn lemma_balanced_walk_returns(path: Seq<usize>, steps: Seq<Step>)
    requires
        never_above_start(steps),
        net_depth(steps) == 0,
    ensures
        run(path, steps) == path,
{
    lemma_run_keeps_start(path, steps);
    let end = run(path, steps);
    assert(end.take(end.len() as int) == end);
}

/// In a path without repeats, the frames from `k` on name exactly the nodes
/// that they name: none that a frame below `k` names.
pub proof fn lemma_frames_from(path: Seq<usize>, k: int, j: int)
    requires
        path.no_duplicates(),
        0 <= k <= path.len(),
        0 <= j < path.len(),
    ensures
        path.skip(k).contains(path[j]) <==> k <= j,
{
    let tail = path.skip(k);
    if k <= j {
        assert(tail[j - k] == path[j]);
    } else if tail.contains(path[j]) {
        let m = choose|m: int| 0 <= m < tail.len() && tail[m] == path[j];
        assert(path[m + k] == path[j]);
    }
}

/// In a path without repeats, the node of frame `k - 1` is the node of no
/// frame from `k` on; and a node that no frame from `k - 1` on names is
/// neither that node nor the node of a frame from `k` on.
pub proof fn lemma_frame_apart(path: Seq<usize>, k: int)
    requires
        path.no_duplicates(),
        1 <= k <= path.len(),
    ensures
        forall|j: int| k <= j < path.len() ==> #[trigger] path[j] != path[k - 1],
        forall|n: usize|
            !(#[trigger] path.skip(k - 1).contains(n)) ==> n != path[k - 1] && !path.skip(
                k,
            ).contains(n),
{
    assert forall|n: usize| !(#[trigger] path.skip(k - 1).contains(n)) implies n != path[k - 1]
        && !path.skip(k).contains(n) by {
        lemma_frames_from(path, k - 1, k - 1);
        if path.skip(k).contains(n) {
            let m = choose|m: int| 0 <= m < path.skip(k).len() && path.skip(k)[m] == n;
            assert(path.skip(k - 1)[m + 1] == n);
        }
    }
}

} // verus!
