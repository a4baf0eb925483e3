//! Traversal cursors for recursive, possibly cyclic, mutable structures.
//!
//! The nodes of a structure live in an arena and name each other by index.
//! A cursor owns the arena for as long as it walks, remembers the path it
//! took as a stack of frames, and hands out the node on top of that stack:
//! through a cursor there is never more than one way to write a node. Four
//! cursors share this discipline and differ in how a node is acquired:
//!
//! * [`simple::MutRefStack`]: no run-time check; the caller proves that no
//!   node is entered while a frame names it.
//! * [`with_data::MutRefStackWithData`]: as above, with a caller-defined
//!   value carried by every frame.
//! * [`refcell::RefCellRefMutStack`]: every node has a borrow flag; entering
//!   a node that is borrowed fails, which detects cycles.
//! * [`mutex::MutexGuardStack`]: every node has a lock and a poison flag;
//!   acquisition never waits, and entering a node that is locked fails.
//!
//! [`walk`] holds what all of them share: the path as a sequence, and the law
//! that a balanced walk ends where it began. [`lifo`] holds the log of
//! acquisitions and releases that the checked arenas, [`cell_arena`] and
//! [`mutex_arena`], keep as ghost state, and the law that release is last in,
//! first out.

pub mod cell_arena;
pub mod lifo;
pub mod mutex;
pub mod mutex_arena;
pub mod refcell;
pub mod simple;
pub mod walk;
pub mod with_data;
