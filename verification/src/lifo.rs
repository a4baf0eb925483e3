//! The order in which exclusive access is taken and given back.
//!
//! An arena that checks access at run time keeps, as ghost state, a log of
//! every acquisition and every release. A log replays if every release in it
//! gives back the frame that was acquired last among those still held. The
//! cursors keep their part of the log replayable, so a frame is never
//! released before a frame that was acquired above it.

use vstd::prelude::*;

verus! {

/// One change of who holds what.
pub enum Event {
    /// Exclusive access to the node was taken.
    Acquire(usize),
    /// Exclusive access to the node was given back.
    Release(usize),
}

/// The nodes held after the events of `log`, in the order in which they were
/// acquired; `None` where some release in `log` did not give back the node
/// acquired last among those held at that moment.
pub open spec fn replay(log: Seq<Event>) -> Option<Seq<usize>>
    decreases log.len(),
{
    if log.len() == 0 {
        Some(Seq::empty())
    } else {
        match replay(log.drop_last()) {
            Some(held) => match log.last() {
                Event::Acquire(i) => Some(held.push(i)),
                Event::Release(i) => if held.len() > 0 && held.last() == i {
                    Some(held.drop_last())
                } else {
                    None
                },
            },
            None => None,
        }
    }
}

/// The releases of `frames`, last frame first.
pub open spec fn releases(frames: Seq<usize>) -> Seq<Event> {
    Seq::new(frames.len(), |m: int| Event::Release(frames[frames.len() - 1 - m]))
}

/// Replaying one more acquisition.
pub proof fn lemma_replay_acquire(log: Seq<Event>, i: usize)
    requires
        replay(log) is Some,
    ensures
        replay(log.push(Event::Acquire(i))) == Some(replay(log).unwrap().push(i)),
{
    assert(log.push(Event::Acquire(i)).drop_last() == log);
}

/// Replaying one more release, of the node acquired last.
pub proof fn lemma_replay_release(log: Seq<Event>, i: usize)
    requires
        replay(log) matches Some(held) && held.len() > 0 && held.last() == i,
    ensures
        replay(log.push(Event::Release(i))) == Some(replay(log).unwrap().drop_last()),
{
    assert(log.push(Event::Release(i)).drop_last() == log);
}

/// Every beginning of a log that replays does so too.
pub proof fn lemma_replay_prefix(log: Seq<Event>, k: int)
    requires
        replay(log) is Some,
        0 <= k <= log.len(),
    ensures
        replay(log.take(k)) is Some,
    decreases log.len(),
{
    if k == log.len() {
        assert(log.take(k) == log);
    } else {
        lemma_replay_prefix(log.drop_last(), k);
        assert(log.drop_last().take(k) == log.take(k));
    }
}

/// Release is last in, first out: in a log that replays, every release gives
/// back the node that was acquired last among those held at that moment. A
/// frame is therefore released only when every frame acquired above it has
/// been released before.
pub proof fn lemma_release_is_lifo(log: Seq<Event>, k: int)
    requires
        replay(log) is Some,
        0 <= k < log.len(),
        log[k] is Release,
    ensures
        replay(log.take(k)) matches Some(held) && held.len() > 0 && held.last()
            == log[k]->Release_0,
{
    lemma_replay_prefix(log, k + 1);
    let upto = log.take(k + 1);
    assert(upto.drop_last() == log.take(k));
    assert(upto.last() == log[k]);
}

} // verus!
