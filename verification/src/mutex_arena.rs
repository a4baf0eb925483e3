//! An arena whose nodes can each be locked by one holder at a time, and can
//! be poisoned.
//!
//! Every node has a lock flag and a poison flag. Locking never waits: where
//! the node is locked, [`MutexArena::try_lock`] fails at once. A node is
//! poisoned when a holder failed while it held the node; the flag stays set
//! until [`MutexArena::clear_poison`] clears it, whoever locks the node in
//! between.

use crate::lifo::Event;
use vstd::prelude::*;

verus! {

/// Why a node was not locked, or not locked cleanly.
#[derive(Clone, Copy, Debug, PartialEq, Eq)]
pub enum TryLockError {
    /// The node is poisoned.
    Poisoned,
    /// The node is locked.
    WouldBlock,
}

/// What an arena of lockable nodes is at one moment.
pub struct Locks<T> {
    /// The nodes, by index.
    pub nodes: Seq<T>,
    /// The nodes that are locked.
    pub locked: Set<usize>,
    /// The nodes that are poisoned.
    pub poisoned: Set<usize>,
    /// Every lock and unlock so far, oldest first.
    pub log: Seq<Event>,
}

impl<T> Locks<T> {
    /// The arena after node `i` has been locked.
    pub open spec fn lock(self, i: usize) -> Self {
        Locks {
            nodes: self.nodes,
            locked: self.locked.insert(i),
            poisoned: self.poisoned,
            log: self.log.push(Event::Acquire(i)),
        }
    }

    /// The arena after node `i` has been unlocked.
    pub open spec fn unlock(self, i: usize) -> Self {
        Locks {
            nodes: self.nodes,
            locked: self.locked.remove(i),
            poisoned: self.poisoned,
            log: self.log.push(Event::Release(i)),
        }
    }

    /// The arena with `now` in place of node `i`.
    pub open spec fn with_node(self, i: usize, now: T) -> Self {
        Locks {
            nodes: self.nodes.update(i as int, now),
            locked: self.locked,
            poisoned: self.poisoned,
            log: self.log,
        }
    }

    /// The arena with node `i` poisoned, or not, as `poisoned` says.
    pub open spec fn with_poison(self, i: usize, poisoned: bool) -> Self {
        Locks {
            nodes: self.nodes,
            locked: self.locked,
            poisoned: if poisoned {
                self.poisoned.insert(i)
            } else {
                self.poisoned.remove(i)
            },
            log: self.log,
        }
    }

    /// What an attempt to lock node `i` answers.
    pub open spec fn try_lock_answer(self, i: usize) -> Result<(), TryLockError> {
        if self.locked.contains(i) {
            Err(TryLockError::WouldBlock)
        } else if self.poisoned.contains(i) {
            Err(TryLockError::Poisoned)
        } else {
            Ok(())
        }
    }

    /// What an attempt to lock node `i` leaves: the node locked, unless it
    /// was locked already.
    pub open spec fn try_lock(self, i: usize) -> Self {
        if self.locked.contains(i) {
            self
        } else {
            self.lock(i)
        }
    }
}

/// An arena of nodes with a lock and a poison flag each.
pub struct MutexArena<T> {
    /// The nodes.
    nodes: Vec<T>,
    /// For each node, whether it is locked.
    locked: Vec<bool>,
    /// For each node, whether it is poisoned.
    poisoned: Vec<bool>,
    /// Every lock and unlock so far.
    log: Ghost<Seq<Event>>,
}

impl<T> View for MutexArena<T> {
    type V = Locks<T>;

    closed spec fn view(&self) -> Locks<T> {
        Locks {
            nodes: self.nodes@,
            locked: Set::new(|i: usize| i < self.locked@.len() && self.locked@[i as int]),
            poisoned: Set::new(|i: usize| i < self.poisoned@.len() && self.poisoned@[i as int]),
            log: self.log@,
        }
    }
}

impl<T> MutexArena<T> {
    /// Every node has its flags.
    pub closed spec fn wf(&self) -> bool {
        self.locked@.len() == self.nodes@.len() && self.poisoned@.len() == self.nodes@.len()
    }

    /// Only nodes of the arena are locked.
    pub proof fn lemma_locked_in_range(&self, i: usize)
        requires
            self.wf(),
            self@.locked.contains(i),
        ensures
            i < self@.nodes.len(),
    {
    }

    /// An arena of the given nodes, none of them locked or poisoned.
    pub fn new(nodes: Vec<T>) -> (arena: Self)
        ensures
            arena.wf(),
            arena@ == (Locks {
                nodes: nodes@,
                locked: Set::<usize>::empty(),
                poisoned: Set::<usize>::empty(),
                log: Seq::<Event>::empty(),
            }),
    {
        let mut locked: Vec<bool> = Vec::new();
        let mut poisoned: Vec<bool> = Vec::new();
        while locked.len() < nodes.len()
            invariant
                locked@.len() <= nodes@.len(),
                poisoned@.len() == locked@.len(),
                forall|i: int| 0 <= i < locked@.len() ==> !locked@[i] && !poisoned@[i],
            decreases nodes@.len() - locked@.len(),
        {
            locked.push(false);
            poisoned.push(false);
        }
        let arena = MutexArena { nodes, locked, poisoned, log: Ghost(Seq::empty()) };
        assert(arena@.locked =~= Set::<usize>::empty());
        assert(arena@.poisoned =~= Set::<usize>::empty());
        arena
    }

    /// The number of nodes.
    pub fn len(&self) -> (len: usize)
        ensures
            len == self@.nodes.len(),
    {
        self.nodes.len()
    }

    /// Whether node `i` is locked.
    pub fn is_locked(&self, i: usize) -> (locked: bool)
        requires
            self.wf(),
            i < self@.nodes.len(),
        ensures
            locked == self@.locked.contains(i),
    {
        self.locked[i]
    }

    /// Whether node `i` is poisoned.
    pub fn is_poisoned(&self, i: usize) -> (poisoned: bool)
        requires
            self.wf(),
            i < self@.nodes.len(),
        ensures
            poisoned == self@.poisoned.contains(i),
    {
        self.poisoned[i]
    }

    /// Marks node `i` as poisoned, as a holder that fails leaves it.
    pub fn poison(&mut self, i: usize)
        requires
            old(self).wf(),
            i < old(self)@.nodes.len(),
        ensures
            final(self).wf(),
            final(self)@ == old(self)@.with_poison(i, true),
    {
        self.poisoned[i] = true;
        assert(self@.poisoned =~= old(self)@.poisoned.insert(i));
    }

    /// Clears the poison of node `i`.
    pub fn clear_poison(&mut self, i: usize)
        requires
            old(self).wf(),
            i < old(self)@.nodes.len(),
        ensures
            final(self).wf(),
            final(self)@ == old(self)@.with_poison(i, false),
    {
        self.poisoned[i] = false;
        assert(self@.poisoned =~= old(self)@.poisoned.remove(i));
    }

    /// Locks node `i` unless it is locked already, without waiting. A node
    /// that is poisoned is locked all the same; the answer says that it is
    /// poisoned.
    pub fn try_lock(&mut self, i: usize) -> (answer: Result<(), TryLockError>)
        requires
            old(self).wf(),
            i < old(self)@.nodes.len(),
        ensures
            final(self).wf(),
            answer == old(self)@.try_lock_answer(i),
            final(self)@ == old(self)@.try_lock(i),
    {
        if self.locked[i] {
            Err(TryLockError::WouldBlock)
        } else {
            self.locked[i] = true;
            self.log = Ghost(self.log@.push(Event::Acquire(i)));
            assert(self@.locked =~= old(self)@.locked.insert(i));
            if self.poisoned[i] {
                Err(TryLockError::Poisoned)
            } else {
                Ok(())
            }
        }
    }

    /// Unlocks node `i`.
    pub(crate) fn unlock(&mut self, i: usize)
        requires
            old(self).wf(),
            old(self)@.locked.contains(i),
        ensures
            final(self).wf(),
            final(self)@ == old(self)@.unlock(i),
    {
        self.locked[i] = false;
        self.log = Ghost(self.log@.push(Event::Release(i)));
        assert(self@.locked =~= old(self)@.locked.remove(i));
    }

    /// Node `i`, which the caller has locked.
    pub(crate) fn get(&self, i: usize) -> (node: &T)
        requires
            self.wf(),
            self@.locked.contains(i),
        ensures
            *node == self@.nodes[i as int],
    {
        &self.nodes[i]
    }

    /// Node `i`, which the caller has locked, for writing.
    pub(crate) fn get_mut(&mut self, i: usize) -> (node: &mut T)
        requires
            old(self).wf(),
            old(self)@.locked.contains(i),
        ensures
            *node == old(self)@.nodes[i as int],
            final(self)@ == old(self)@.with_node(i, *final(node)),
            final(self).wf(),
    {
        &mut self.nodes[i]
    }

    /// Ends the arena and hands its nodes back, locked or not.
    pub fn into_inner(self) -> (nodes: Vec<T>)
        ensures
            nodes@ == self@.nodes,
    {
        self.nodes
    }
}

} // verus!
