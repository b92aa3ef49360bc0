//! The cross-thread wakeup queue.
//!
//! A runtime's shared queue is the one piece of its state that other
//! operating-system threads touch: a mutex-guarded FIFO of wakers plus a
//! "currently sleeping in the kernel" flag.  A remote `wake` pushes the
//! waker and, exactly when the flag is up, owes one byte to the runtime's
//! event descriptor so that the blocking kernel wait returns promptly.
//! The runtime drains the queue before every reactor poll and before it
//! raises the flag again, which is why a sender that saw the flag down
//! need not signal.  The lock, the atomic flag and the descriptor itself
//! live outside the verified boundary; this module fixes what the queue
//! holds and when the signal is owed.

use vstd::prelude::*;

use crate::context::ThreadId;

verus! {

/// How many entries of `s` name `t`.
pub open spec fn count_of(s: Seq<ThreadId>, t: ThreadId) -> int
    decreases s.len(),
{
    if s.len() == 0 {
        0
    } else {
        count_of(s.drop_last(), t) + if s.last() == t {
            1int
        } else {
            0int
        }
    }
}

/// Counting never leaves `0 .. len`.
pub proof fn lemma_count_nonneg(s: Seq<ThreadId>, t: ThreadId)
    ensures
        0 <= count_of(s, t) <= s.len(),
    decreases s.len(),
{
    if s.len() > 0 {
        lemma_count_nonneg(s.drop_last(), t);
    }
}

/// Appending one entry raises exactly that entry's count by one.
pub proof fn lemma_count_push(s: Seq<ThreadId>, x: ThreadId, t: ThreadId)
    ensures
        count_of(s.push(x), t) == count_of(s, t) + if x == t {
            1int
        } else {
            0int
        },
{
    assert(s.push(x).drop_last() =~= s);
    assert(s.push(x).last() == x);
}

/// A non-empty sequence's count splits into its front entry and the rest.
pub proof fn lemma_count_tail(s: Seq<ThreadId>, t: ThreadId)
    requires
        s.len() > 0,
    ensures
        count_of(s, t) == count_of(s.subrange(1, s.len() as int), t) + if s[0] == t {
            1int
        } else {
            0int
        },
    decreases s.len(),
{
    let tail = s.subrange(1, s.len() as int);
    if s.len() == 1 {
        assert(s.drop_last() =~= Seq::<ThreadId>::empty());
        assert(tail =~= Seq::<ThreadId>::empty());
    } else {
        lemma_count_tail(s.drop_last(), t);
        assert(s.drop_last().subrange(1, s.drop_last().len() as int) =~= tail.drop_last());
        assert(s.drop_last()[0] == s[0]);
        assert(tail.last() == s.last());
    }
}

/// The shared wakeup queue: the pending wakers, in arrival order, and the
/// "sleeping in the kernel" flag.
pub struct SharedQueue {
    /// The wakers posted by remote threads and not yet drained, front at
    /// index zero.  Each entry stands for one waker whose cross-thread
    /// reference it carries.
    pub queue: Vec<ThreadId>,
    /// Whether the runtime is blocked in the kernel.  Raised before the
    /// blocking wait, lowered after it; the runtime drains the queue in
    /// between raising the flag and the wait.
    pub is_sleeping: bool,
}

impl SharedQueue {
    /// An empty queue; the runtime is awake.
    pub fn new() -> (q: SharedQueue)
        ensures
            q.queue@.len() == 0,
            !q.is_sleeping,
    {
        SharedQueue { queue: Vec::new(), is_sleeping: false }
    }

    /// Posts a waker from any operating-system thread.  Returns whether
    /// the sender owes a byte to the event descriptor: exactly when the
    /// runtime is blocked in the kernel, so that the post is noticed
    /// promptly.  A sender that saw the flag down need not signal — the
    /// runtime drains the queue before it sleeps again.
    pub fn send(&mut self, w: ThreadId) -> (must_signal: bool)
        ensures
            final(self).queue@ == old(self).queue@.push(w),
            final(self).is_sleeping == old(self).is_sleeping,
            must_signal == old(self).is_sleeping,
    {
        self.queue.push(w);
        self.is_sleeping
    }

    /// Removes and returns the earliest pending waker.
    pub fn pop(&mut self) -> (r: Option<ThreadId>)
        ensures
            old(self).queue@.len() == 0 ==> r is None && *final(self) == *old(self),
            old(self).queue@.len() > 0 ==> {
                &&& r == Some(old(self).queue@[0])
                &&& final(self).queue@ == old(self).queue@.subrange(
                    1,
                    old(self).queue@.len() as int,
                )
                &&& final(self).is_sleeping == old(self).is_sleeping
            },
    {
        if self.queue.len() == 0 {
            return None;
        }
        let w = self.queue.remove(0);
        proof {
            assert(old(self).queue@.remove(0) =~= old(self).queue@.subrange(
                1,
                old(self).queue@.len() as int,
            ));
        }
        Some(w)
    }

    /// Whether any waker is pending.
    pub fn is_empty(&self) -> (r: bool)
        ensures
            r <==> self.queue@.len() == 0,
    {
        self.queue.len() == 0
    }

    /// Raises or lowers the "sleeping in the kernel" flag.
    pub fn set_sleeping(&mut self, v: bool)
        ensures
            final(self).queue@ == old(self).queue@,
            final(self).is_sleeping == v,
    {
        self.is_sleeping = v;
    }
}

} // verus!
