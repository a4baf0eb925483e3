//! An arena whose nodes can each be borrowed by one holder at a time.
//!
//! Every node has a flag that says whether it is borrowed. The flag is set
//! by [`RefCellArena::try_borrow_mut`], which fails where it is set already,
//! and cleared by [`RefCellArena::release`]; nothing else touches it.

use crate::lifo::Event;
use vstd::prelude::*;

verus! {

/// A node was asked for while it was borrowed.
#[derive(Clone, Copy, Debug, PartialEq, Eq)]
pub struct BorrowMutError;

/// What an arena of borrowable nodes is at one moment.
pub struct Cells<T> {
    /// The nodes, by index.
    pub nodes: Seq<T>,
    /// The nodes that are borrowed.
    pub borrowed: Set<usize>,
    /// Every borrow and release so far, oldest first.
    pub log: Seq<Event>,
}

impl<T> Cells<T> {
    /// The arena after node `i` has been borrowed.
    pub open spec fn borrow(self, i: usize) -> Self {
        Cells {
            nodes: self.nodes,
            borrowed: self.borrowed.insert(i),
            log: self.log.push(Event::Acquire(i)),
        }
    }

    /// The arena after node `i` has been given back.
    pub open spec fn release(self, i: usize) -> Self {
        Cells {
            nodes: self.nodes,
            borrowed: self.borrowed.remove(i),
            log: self.log.push(Event::Release(i)),
        }
    }

    /// The arena with `now` in place of node `i`.
    pub open spec fn with_node(self, i: usize, now: T) -> Self {
        Cells { nodes: self.nodes.update(i as int, now), borrowed: self.borrowed, log: self.log }
    }
}

/// An arena of nodes with a borrow flag each.
pub struct RefCellArena<T> {
    /// The nodes.
    nodes: Vec<T>,
    /// For each node, whether it is borrowed.
    flags: Vec<bool>,
    /// Every borrow and release so far.
    log: Ghost<Seq<Event>>,
}

impl<T> View for RefCellArena<T> {
    type V = Cells<T>;

    closed spec fn view(&self) -> Cells<T> {
        Cells {
            nodes: self.nodes@,
            borrowed: Set::new(|i: usize| i < self.flags@.len() && self.flags@[i as int]),
            log: self.log@,
        }
    }
}

impl<T> RefCellArena<T> {
    /// Every node has its flag.
    pub closed spec fn wf(&self) -> bool {
        self.flags@.len() == self.nodes@.len()
    }

    /// Only nodes of the arena are borrowed.
    pub proof fn lemma_borrowed_in_range(&self, i: usize)
        requires
            self.wf(),
            self@.borrowed.contains(i),
        ensures
            i < self@.nodes.len(),
    {
    }

    /// An arena of the given nodes, none of them borrowed.
    pub fn new(nodes: Vec<T>) -> (arena: Self)
        ensures
            arena.wf(),
            arena@ == (Cells { nodes: nodes@, borrowed: Set::<usize>::empty(), log: Seq::<Event>::empty() }),
    {
        let mut flags: Vec<bool> = Vec::new();
        while flags.len() < nodes.len()
            invariant
                flags@.len() <= nodes@.len(),
                forall|i: int| 0 <= i < flags@.len() ==> !flags@[i],
            decreases nodes@.len() - flags@.len(),
        {
            flags.push(false);
        }
        let arena = RefCellArena { nodes, flags, log: Ghost(Seq::empty()) };
        assert(arena@.borrowed =~= Set::<usize>::empty());
        arena
    }

    /// The number of nodes.
    pub fn len(&self) -> (len: usize)
        ensures
            len == self@.nodes.len(),
    {
        self.nodes.len()
    }

    /// Whether node `i` is borrowed.
    pub fn is_borrowed(&self, i: usize) -> (borrowed: bool)
        requires
            self.wf(),
            i < self@.nodes.len(),
        ensures
            borrowed == self@.borrowed.contains(i),
    {
        self.flags[i]
    }

    /// Borrows node `i`, unless it is borrowed already.
    pub fn try_borrow_mut(&mut self, i: usize) -> (taken: Result<(), BorrowMutError>)
        requires
            old(self).wf(),
            i < old(self)@.nodes.len(),
        ensures
            final(self).wf(),
            old(self)@.borrowed.contains(i) ==> taken == Err::<(), BorrowMutError>(BorrowMutError)
                && final(self)@ == old(self)@,
            !old(self)@.borrowed.contains(i) ==> taken == Ok::<(), BorrowMutError>(())
                && final(self)@ == old(self)@.borrow(i),
    {
        if self.flags[i] {
            Err(BorrowMutError)
        } else {
            self.flags[i] = true;
            self.log = Ghost(self.log@.push(Event::Acquire(i)));
            assert(self@.borrowed =~= old(self)@.borrowed.insert(i));
            Ok(())
        }
    }

    /// Gives node `i` back.
    pub(crate) fn release(&mut self, i: usize)
        requires
            old(self).wf(),
            old(self)@.borrowed.contains(i),
        ensures
            final(self).wf(),
            final(self)@ == old(self)@.release(i),
    {
        self.flags[i] = false;
        self.log = Ghost(self.log@.push(Event::Release(i)));
        assert(self@.borrowed =~= old(self)@.borrowed.remove(i));
    }

    /// Node `i`, which the caller has borrowed.
    pub(crate) fn get(&self, i: usize) -> (node: &T)
        requires
            self.wf(),
            self@.borrowed.contains(i),
        ensures
            *node == self@.nodes[i as int],
    {
        &self.nodes[i]
    }

    /// Node `i`, which the caller has borrowed, for writing.
    pub(crate) fn get_mut(&mut self, i: usize) -> (node: &mut T)
        requires
            old(self).wf(),
            old(self)@.borrowed.contains(i),
        ensures
            *node == old(self)@.nodes[i as int],
            final(self)@ == old(self)@.with_node(i, *final(node)),
            final(self).wf(),
    {
        &mut self.nodes[i]
    }

    /// Ends the arena and hands its nodes back, borrowed or not.
    pub fn into_inner(self) -> (nodes: Vec<T>)
        ensures
            nodes@ == self@.nodes,
    {
        self.nodes
    }
}

} // verus!
