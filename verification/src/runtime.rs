//! The per-operating-system-thread runtime: executor, wakeup queue, and
//! the reactor-facing bookkeeping, bound together under one invariant.
//!
//! Beyond the executor's own discipline, the runtime tracks what the
//! outside world holds on its contexts: every waker sitting in the shared
//! queue carries one cross-thread reference on its target, and every
//! submission tag handed to the kernel carries one local reference on its
//! submitter with an empty completion mailbox.  The operations here are
//! the scheduling pivots of the running system — spawn, unpark, park,
//! yield, the wakeup channel, the submission protocol, join, and
//! shutdown — each preserving the combined invariant.  What only the
//! kernel can do (block for completions, flush the ring) is handed out as
//! a directive and reported back as completions.

use vstd::prelude::*;

use crate::context::{AllocLayout, Context, Lifecycle, Outcome, Status, ThreadId};
use crate::executor::{Executor, ReleaseEffect};
use crate::registers::Registers;
use crate::shared_queue::{count_of, lemma_count_nonneg, lemma_count_push, lemma_count_tail,
    SharedQueue};
use crate::stack::Stack;

verus! {

pub struct Runtime {
    /// The scheduler.
    pub executor: Executor,
    /// The cross-thread wakeup channel.
    pub shared_queue: SharedQueue,
    /// The submitters whose tags are with the kernel: one entry per
    /// in-flight submission, each carrying a local hold on its thread.
    pub inflight: Vec<ThreadId>,
    /// The park counter that bounds reactor starvation: the reactor is
    /// polled at least once every `POLL_PERIOD` parks.
    pub polls: u64,
}

/// The reactor is polled whenever the run queue is empty, and in any case
/// at least once every this many parks.
pub const POLL_PERIOD: u64 = 61;

impl Runtime {
    /// Whether `t` names a live context.
    pub open spec fn occ(self, t: ThreadId) -> bool {
        self.executor.occ(t)
    }

    /// The context named by `t`.
    pub open spec fn ctx(self, t: ThreadId) -> Context {
        self.executor.ctx(t)
    }

    /// How many wakers for `t` sit in the shared queue.
    pub open spec fn sq_count(self, t: ThreadId) -> int {
        count_of(self.shared_queue.queue@, t)
    }

    /// Whether a submission tagged with `t` is with the kernel.
    pub open spec fn intag(self, t: ThreadId) -> bool {
        self.inflight@.contains(t)
    }

    /// Every waker in the shared queue names a live context.
    pub open spec fn sq_members_live(self) -> bool {
        forall|i: int|
            0 <= i < self.shared_queue.queue@.len() ==> self.executor.occ(
                #[trigger] self.shared_queue.queue@[i],
            )
    }

    /// Every waker in the shared queue carries one cross-thread hold on
    /// its target, beyond the unit the local side keeps for itself.
    pub open spec fn sq_counts_ok(self) -> bool {
        forall|t: ThreadId|
            #[trigger] self.executor.occ(t) ==> self.ctx(t).atomic_refcount >= self.sq_count(t) + (
            if self.ctx(t).refcount >= 1 {
                1int
            } else {
                0int
            })
    }

    /// A context a waker can still reach is locally held unless its body
    /// is already gone: the rc-zero window exists only for finished
    /// threads whose payload was dropped.
    pub open spec fn sq_targets_held(self) -> bool {
        forall|t: ThreadId|
            #[trigger] self.executor.occ(t) ==> ((self.sq_count(t) >= 1 && self.ctx(t).lifecycle
                != Lifecycle::Finished && self.ctx(t).lifecycle != Lifecycle::Taken) ==> self.ctx(
                t,
            ).refcount >= 1)
    }

    /// Each in-flight tag names a live submitter, at most once.
    pub open spec fn tags_live(self) -> bool {
        &&& forall|i: int|
            0 <= i < self.inflight@.len() ==> self.executor.occ(#[trigger] self.inflight@[i])
        &&& forall|i: int, j: int|
            0 <= i < j < self.inflight@.len() ==> self.inflight@[i] != self.inflight@[j]
    }

    /// Each in-flight tag carries one local hold on its submitter, beyond
    /// the scheduler's own holds, and the submitter's mailbox is empty
    /// until the completion lands: a completion arrives exactly once per
    /// submission.
    pub open spec fn tags_counts_ok(self) -> bool {
        forall|t: ThreadId|
            #[trigger] self.executor.occ(t) ==> (self.intag(t) ==> self.ctx(t).refcount
                >= self.executor.held_here(t) + 1 && self.ctx(t).io_result is None)
    }

    /// The runtime's invariant.
    pub open spec fn wf(self) -> bool {
        &&& self.executor.wf()
        &&& self.sq_members_live()
        &&& self.sq_counts_ok()
        &&& self.sq_targets_held()
        &&& self.tags_live()
        &&& self.tags_counts_ok()
    }

    /// A fresh runtime: the executor with its operating-system root, an
    /// empty wakeup queue, nothing in flight.
    pub fn new(root_name: Option<String>) -> (rt: Runtime)
        ensures
            rt.wf(),
            rt.executor.contexts@.len() == 1,
            rt.executor.current == (ThreadId(0usize)),
            rt.ctx(rt.executor.current).lifecycle == Lifecycle::OsThread,
            rt.ctx(rt.executor.current).name == root_name,
            rt.ctx(rt.executor.current).status == Status::Waiting,
            rt.ctx(rt.executor.current).refcount == 1,
            rt.ctx(rt.executor.current).atomic_refcount == 1,
            !rt.ctx(rt.executor.current).is_cancelled,
            rt.ctx(rt.executor.current).join_waker is None,
            rt.ctx(rt.executor.current).io_result is None,
            rt.ctx(rt.executor.current).out is None,
            rt.ctx(rt.executor.current).stack.size == 0,
            rt.executor.run_queue@.len() == 0,
            rt.shared_queue.queue@.len() == 0,
            !rt.shared_queue.is_sleeping,
            rt.inflight@.len() == 0,
            rt.polls == 0,
    {
        let rt = Runtime {
            executor: Executor::new(root_name),
            shared_queue: SharedQueue::new(),
            inflight: Vec::new(),
            polls: 0,
        };
        proof {
            assert forall|t: ThreadId| #[trigger] rt.executor.occ(t) implies rt.ctx(
                t,
            ).atomic_refcount >= rt.sq_count(t) + (if rt.ctx(t).refcount >= 1 {
                1int
            } else {
                0int
            }) by {
                assert(rt.sq_count(t) == 0);
            }
            assert forall|t: ThreadId| #[trigger] rt.executor.occ(t) implies rt.sq_count(t)
                == 0 by {}
        }
        rt
    }

    /// The identity of the running thread, without taking a hold.
    pub fn current_id(&self) -> (t: ThreadId)
        ensures
            t == self.executor.current,
    {
        self.executor.current_id()
    }

    /// A cloned handle to the running thread: one more local hold, which
    /// the caller owns and eventually releases.
    pub fn current(&mut self) -> (t: ThreadId)
        requires
            old(self).wf(),
            old(self).ctx(old(self).executor.current).refcount < u64::MAX,
        ensures
            final(self).wf(),
            t == old(self).executor.current,
            final(self).executor.contexts@ == old(self).executor.contexts@.update(
                t.0 as int,
                Some(
                    Context {
                        refcount: (old(self).ctx(t).refcount + 1) as u64,
                        ..old(self).ctx(t)
                    },
                ),
            ),
            final(self).executor.run_queue@ == old(self).executor.run_queue@,
            final(self).executor.current == old(self).executor.current,
            final(self).shared_queue == old(self).shared_queue,
            final(self).inflight@ == old(self).inflight@,
            final(self).polls == old(self).polls,
    {
        let ghost pre = *self;
        let t = self.executor.current();
        proof {
            self.lemma_rt_wf_one_slot(pre, t);
        }
        t
    }

    /// Whether the running thread has been cancelled by shutdown.
    pub fn is_cancelled(&self) -> (r: bool)
        requires
            self.wf(),
        ensures
            r == self.ctx(self.executor.current).is_cancelled,
    {
        let me = self.executor.current_id();
        self.executor.ctx_read(me).is_cancelled
    }

    /// The lifecycle of thread `t`, or nothing once its allocation has
    /// been returned.
    pub fn lifecycle_of(&self, t: ThreadId) -> (r: Option<Lifecycle>)
        ensures
            r == (if self.occ(t) {
                Some(self.ctx(t).lifecycle)
            } else {
                None::<Lifecycle>
            }),
    {
        if t.0 < self.executor.contexts.len() {
            match &self.executor.contexts[t.0] {
                Some(c) => Some(c.lifecycle),
                None => None,
            }
        } else {
            None
        }
    }

    /// The name of thread `t`.
    pub fn thread_name<'a>(&'a self, t: ThreadId) -> (r: &'a Option<String>)
        requires
            self.occ(t),
        ensures
            *r == self.ctx(t).name,
    {
        &self.executor.ctx_read(t).name
    }

    /// Re-establishes the runtime invariant after an executor step that
    /// left the shared queue and the in-flight tags untouched, changed at
    /// most the slot of `t` among occupied slots without freeing any, and
    /// moved `t`'s counts and queue membership in a direction every
    /// clause tolerates.
    proof fn lemma_rt_wf_one_slot(self, pre: Runtime, t: ThreadId)
        requires
            pre.wf(),
            pre.occ(t),
            self.executor.wf(),
            self.shared_queue == pre.shared_queue,
            self.inflight@ == pre.inflight@,
            forall|x: ThreadId| #[trigger] self.executor.occ(x) <==> pre.executor.occ(x),
            forall|x: ThreadId|
                x != t ==> (#[trigger] self.executor.occ(x) ==> self.ctx(x) == pre.ctx(x)
                    && self.executor.held_here(x) >= pre.executor.held_here(x)
                    && (self.executor.held_here(x) > pre.executor.held_here(x)
                    ==> self.ctx(x).refcount > pre.ctx(x).refcount)),
            self.executor.occ(t) ==> ({
                let c0 = pre.ctx(t);
                let c1 = self.ctx(t);
                &&& c1.atomic_refcount >= pre.sq_count(t) + (if c1.refcount >= 1 {
                    1int
                } else {
                    0int
                })
                &&& (pre.sq_count(t) >= 1 && c1.lifecycle != Lifecycle::Finished && c1.lifecycle
                    != Lifecycle::Taken ==> c1.refcount >= 1)
                &&& (pre.intag(t) ==> c1.refcount >= self.executor.held_here(t) + 1
                    && c1.io_result is None)
            }),
        ensures
            self.wf(),
    {
        let post = self;
        assert forall|i: int|
            0 <= i < post.shared_queue.queue@.len() implies post.executor.occ(
            #[trigger] post.shared_queue.queue@[i],
        ) by {
            assert(pre.executor.occ(pre.shared_queue.queue@[i]));
        }
        assert forall|t2: ThreadId| #[trigger] post.executor.occ(t2) implies post.ctx(
            t2,
        ).atomic_refcount >= post.sq_count(t2) + (if post.ctx(t2).refcount >= 1 {
            1int
        } else {
            0int
        }) by {
            assert(pre.executor.occ(t2));
            assert(post.sq_count(t2) == pre.sq_count(t2));
        }
        assert forall|t2: ThreadId| #[trigger] post.executor.occ(t2) implies ((post.sq_count(t2)
            >= 1 && post.ctx(t2).lifecycle != Lifecycle::Finished && post.ctx(t2).lifecycle
            != Lifecycle::Taken) ==> post.ctx(t2).refcount >= 1) by {
            assert(pre.executor.occ(t2));
            assert(post.sq_count(t2) == pre.sq_count(t2));
        }
        assert forall|i: int|
            0 <= i < post.inflight@.len() implies post.executor.occ(
            #[trigger] post.inflight@[i],
        ) by {
            assert(pre.executor.occ(pre.inflight@[i]));
        }
        assert forall|t2: ThreadId| #[trigger] post.executor.occ(t2) implies (post.intag(t2)
            ==> post.ctx(t2).refcount >= post.executor.held_here(t2) + 1 && post.ctx(
            t2,
        ).io_result is None) by {
            assert(pre.executor.occ(t2));
        }
    }

    /// Makes thread `t` runnable, at the tail of the run queue.
    /// Idempotent on an already-runnable thread and a silent no-op on a
    /// finished one.
    pub fn unpark(&mut self, t: ThreadId)
        requires
            old(self).wf(),
            old(self).occ(t),
            old(self).ctx(t).refcount < u64::MAX,
        ensures
            final(self).wf(),
            final(self).shared_queue == old(self).shared_queue,
            final(self).inflight@ == old(self).inflight@,
            final(self).polls == old(self).polls,
            ({
                let c = old(self).ctx(t);
                if c.status == Status::Queued || c.lifecycle == Lifecycle::Finished || c.lifecycle
                    == Lifecycle::Taken {
                    final(self).executor == old(self).executor
                } else {
                    &&& final(self).executor.contexts@ == old(self).executor.contexts@.update(
                        t.0 as int,
                        Some(
                            Context {
                                status: Status::Queued,
                                refcount: (c.refcount + 1) as u64,
                                ..c
                            },
                        ),
                    )
                    &&& final(self).executor.run_queue@ == old(self).executor.run_queue@.push(t)
                    &&& final(self).executor.current == old(self).executor.current
                }
            }),
    {
        let ghost pre = *self;
        self.executor.push(t);
        proof {
            assert forall|x: ThreadId|
                x != t implies (self.executor.run_queue@.contains(x)
                <==> pre.executor.run_queue@.contains(x)) by {
                crate::executor::lemma_contains_push(pre.executor.run_queue@, t, x);
            }
            self.lemma_rt_wf_one_slot(pre, t);
        }
    }

    /// Allocates and schedules a new green thread.
    pub fn spawn(
        &mut self,
        registers: Registers,
        stack: Stack,
        layout: AllocLayout,
        name: Option<String>,
    ) -> (t: ThreadId)
        requires
            old(self).wf(),
            old(self).executor.contexts@.len() < usize::MAX,
        ensures
            final(self).wf(),
            t.0 == old(self).executor.contexts@.len(),
            final(self).occ(t),
            final(self).ctx(t).status == Status::Queued,
            final(self).ctx(t).lifecycle == Lifecycle::New,
            final(self).ctx(t).refcount == 2,
            final(self).ctx(t).atomic_refcount == 1,
            final(self).ctx(t).name == name,
            final(self).ctx(t).registers == registers,
            final(self).ctx(t).stack == stack,
            !final(self).ctx(t).is_cancelled,
            final(self).ctx(t).join_waker is None,
            final(self).ctx(t).io_result is None,
            final(self).ctx(t).out is None,
            final(self).executor.run_queue@ == old(self).executor.run_queue@.push(t),
            final(self).executor.current == old(self).executor.current,
            final(self).executor.contexts@.len() == old(self).executor.contexts@.len() + 1,
            forall|x: ThreadId|
                x != t ==> ((#[trigger] final(self).occ(x) <==> old(self).occ(x)) && (old(
                    self,
                ).occ(x) ==> final(self).ctx(x) == old(self).ctx(x))),
            final(self).shared_queue == old(self).shared_queue,
            final(self).inflight@ == old(self).inflight@,
            final(self).polls == old(self).polls,
    {
        let ghost pre = *self;
        let t = self.executor.spawn(registers, stack, layout, name);
        proof {
            assert forall|x: ThreadId|
                x != t implies (#[trigger] self.executor.occ(x) <==> pre.executor.occ(x)) by {}
            assert forall|i: int|
                0 <= i < self.shared_queue.queue@.len() implies self.executor.occ(
                #[trigger] self.shared_queue.queue@[i],
            ) by {
                assert(pre.executor.occ(pre.shared_queue.queue@[i]));
            }
            assert forall|t2: ThreadId| #[trigger] self.executor.occ(t2) implies self.ctx(
                t2,
            ).atomic_refcount >= self.sq_count(t2) + (if self.ctx(t2).refcount >= 1 {
                1int
            } else {
                0int
            }) by {
                if t2 == t {
                    lemma_count_nonneg(self.shared_queue.queue@, t2);
                    assert(self.sq_count(t) == 0) by {
                        if self.sq_count(t) >= 1 {
                            lemma_count_member(self.shared_queue.queue@, t);
                            let i = choose|i: int|
                                0 <= i < self.shared_queue.queue@.len()
                                    && self.shared_queue.queue@[i] == t;
                            assert(pre.executor.occ(pre.shared_queue.queue@[i]));
                        }
                    }
                } else {
                    assert(pre.executor.occ(t2));
                    assert(self.sq_count(t2) == pre.sq_count(t2));
                }
            }
            assert forall|t2: ThreadId| #[trigger] self.executor.occ(t2) implies ((self.sq_count(
                t2,
            ) >= 1 && self.ctx(t2).lifecycle != Lifecycle::Finished && self.ctx(t2).lifecycle
                != Lifecycle::Taken) ==> self.ctx(t2).refcount >= 1) by {
                if t2 != t {
                    assert(pre.executor.occ(t2));
                    assert(self.sq_count(t2) == pre.sq_count(t2));
                }
            }
            assert forall|i: int|
                0 <= i < self.inflight@.len() implies self.executor.occ(
                #[trigger] self.inflight@[i],
            ) by {
                assert(pre.executor.occ(pre.inflight@[i]));
            }
            assert forall|t2: ThreadId| #[trigger] self.executor.occ(t2) implies (self.intag(t2)
                ==> self.ctx(t2).refcount >= self.executor.held_here(t2) + 1 && self.ctx(
                t2,
            ).io_result is None) by {
                if t2 == t {
                    if self.intag(t) {
                        let i = choose|i: int|
                            0 <= i < self.inflight@.len() && self.inflight@[i] == t;
                        assert(pre.executor.occ(pre.inflight@[i]));
                    }
                } else {
                    assert(pre.executor.occ(t2));
                }
            }
        }
        t
    }

    /// Clones a local handle on `t`.
    pub fn retain(&mut self, t: ThreadId)
        requires
            old(self).wf(),
            old(self).occ(t),
            old(self).ctx(t).refcount >= 1,
            old(self).ctx(t).refcount < u64::MAX,
        ensures
            final(self).wf(),
            final(self).executor.contexts@ == old(self).executor.contexts@.update(
                t.0 as int,
                Some(
                    Context {
                        refcount: (old(self).ctx(t).refcount + 1) as u64,
                        ..old(self).ctx(t)
                    },
                ),
            ),
            final(self).executor.run_queue@ == old(self).executor.run_queue@,
            final(self).executor.current == old(self).executor.current,
            final(self).shared_queue == old(self).shared_queue,
            final(self).inflight@ == old(self).inflight@,
            final(self).polls == old(self).polls,
    {
        let ghost pre = *self;
        self.executor.retain(t);
        proof {
            self.lemma_rt_wf_one_slot(pre, t);
        }
    }

    /// Releases a local handle on `t`, per the drop policy.
    pub fn release(&mut self, t: ThreadId) -> (e: ReleaseEffect)
        requires
            old(self).wf(),
            old(self).occ(t),
            old(self).ctx(t).refcount > old(self).executor.held_here(t) + (if old(self).intag(t) {
                1int
            } else {
                0int
            }),
            old(self).ctx(t).refcount == 1 ==> (old(self).sq_count(t) == 0 || old(self).ctx(
                t,
            ).lifecycle == Lifecycle::Finished || old(self).ctx(t).lifecycle == Lifecycle::Taken),
        ensures
            final(self).wf(),
            final(self).executor.run_queue@ == old(self).executor.run_queue@,
            final(self).executor.current == old(self).executor.current,
            final(self).shared_queue == old(self).shared_queue,
            final(self).inflight@ == old(self).inflight@,
            final(self).polls == old(self).polls,
            ({
                let c = old(self).ctx(t);
                if c.refcount > 1 {
                    &&& e == ReleaseEffect::Kept
                    &&& final(self).executor.contexts@ == old(self).executor.contexts@.update(
                        t.0 as int,
                        Some(Context { refcount: (c.refcount - 1) as u64, ..c }),
                    )
                } else if c.atomic_refcount > 1 {
                    &&& e == ReleaseEffect::PayloadDropped
                    &&& final(self).executor.contexts@ == old(self).executor.contexts@.update(
                        t.0 as int,
                        Some(
                            Context {
                                refcount: 0,
                                atomic_refcount: (c.atomic_refcount - 1) as u64,
                                out: None,
                                ..c
                            },
                        ),
                    )
                } else {
                    &&& e == ReleaseEffect::Deallocated
                    &&& final(self).executor.contexts@ == old(self).executor.contexts@.update(
                        t.0 as int,
                        None,
                    )
                }
            }),
    {
        let ghost pre = *self;
        let e = self.executor.release(t);
        proof {
            if pre.ctx(t).refcount > 1 {
                self.lemma_rt_wf_one_slot(pre, t);
            } else {
                assert(pre.executor.occ(t));
                assert(!pre.intag(t));
                lemma_count_nonneg(pre.shared_queue.queue@, t);
                self.lemma_rt_wf_slot_gone(pre, t);
            }
        }
        e
    }

    /// Creates a cross-thread waker from a local handle: one more atomic
    /// hold on `t`.
    pub fn waker_from(&mut self, t: ThreadId)
        requires
            old(self).wf(),
            old(self).occ(t),
            old(self).ctx(t).refcount >= 1,
            old(self).ctx(t).atomic_refcount < u64::MAX,
        ensures
            final(self).wf(),
            final(self).executor.contexts@ == old(self).executor.contexts@.update(
                t.0 as int,
                Some(
                    Context {
                        atomic_refcount: (old(self).ctx(t).atomic_refcount + 1) as u64,
                        ..old(self).ctx(t)
                    },
                ),
            ),
            final(self).executor.run_queue@ == old(self).executor.run_queue@,
            final(self).executor.current == old(self).executor.current,
            final(self).shared_queue == old(self).shared_queue,
            final(self).inflight@ == old(self).inflight@,
            final(self).polls == old(self).polls,
    {
        let ghost pre = *self;
        self.executor.waker_clone(t);
        proof {
            self.lemma_rt_wf_one_slot(pre, t);
        }
    }

    /// Clones a waker: one more atomic hold on `t`.  The caller owns a
    /// waker, so at least one atomic hold exists beyond those the shared
    /// queue carries.
    pub fn waker_clone(&mut self, t: ThreadId)
        requires
            old(self).wf(),
            old(self).occ(t),
            old(self).ctx(t).atomic_refcount >= 1,
            old(self).ctx(t).atomic_refcount < u64::MAX,
        ensures
            final(self).wf(),
            final(self).executor.contexts@ == old(self).executor.contexts@.update(
                t.0 as int,
                Some(
                    Context {
                        atomic_refcount: (old(self).ctx(t).atomic_refcount + 1) as u64,
                        ..old(self).ctx(t)
                    },
                ),
            ),
            final(self).executor.run_queue@ == old(self).executor.run_queue@,
            final(self).executor.current == old(self).executor.current,
            final(self).shared_queue == old(self).shared_queue,
            final(self).inflight@ == old(self).inflight@,
            final(self).polls == old(self).polls,
    {
        let ghost pre = *self;
        self.executor.waker_clone(t);
        proof {
            self.lemma_rt_wf_one_slot(pre, t);
        }
    }

    /// Releases a waker the caller owns — one that does not sit in the
    /// shared queue.  A waker may outlive its green thread: when the
    /// local side is gone and this was the last hold of any kind, the
    /// allocation is returned; otherwise only the count moves.
    pub fn waker_drop(&mut self, t: ThreadId) -> (e: ReleaseEffect)
        requires
            old(self).wf(),
            old(self).occ(t),
            old(self).ctx(t).atomic_refcount > old(self).sq_count(t) + (if old(self).ctx(
                t,
            ).refcount >= 1 {
                1int
            } else {
                0int
            }) || (old(self).ctx(t).refcount == 0 && old(self).ctx(t).atomic_refcount
                > old(self).sq_count(t)),
        ensures
            final(self).wf(),
            final(self).executor.run_queue@ == old(self).executor.run_queue@,
            final(self).executor.current == old(self).executor.current,
            final(self).shared_queue == old(self).shared_queue,
            final(self).inflight@ == old(self).inflight@,
            final(self).polls == old(self).polls,
            ({
                let c = old(self).ctx(t);
                if c.atomic_refcount > 1 {
                    &&& e == ReleaseEffect::Kept
                    &&& final(self).executor.contexts@ == old(self).executor.contexts@.update(
                        t.0 as int,
                        Some(
                            Context {
                                atomic_refcount: (c.atomic_refcount - 1) as u64,
                                ..c
                            },
                        ),
                    )
                } else {
                    &&& e == ReleaseEffect::Deallocated
                    &&& final(self).executor.contexts@ == old(self).executor.contexts@.update(
                        t.0 as int,
                        None,
                    )
                }
            }),
    {
        let ghost pre = *self;
        proof {
            lemma_count_nonneg(pre.shared_queue.queue@, t);
            if pre.ctx(t).atomic_refcount == 1 {
                assert(pre.ctx(t).refcount == 0);
                assert(pre.sq_count(t) == 0);
            }
        }
        let e = self.executor.waker_drop(t);
        proof {
            if pre.ctx(t).atomic_refcount > 1 {
                self.lemma_rt_wf_one_slot(pre, t);
            } else {
                assert(!pre.intag(t)) by {
                    if pre.intag(t) {
                        assert(pre.executor.occ(t));
                    }
                }
                self.lemma_rt_wf_slot_gone(pre, t);
            }
        }
        e
    }

    /// Posts a wake for `t` from any operating-system thread, consuming
    /// the caller's waker into the shared queue.  Returns whether the
    /// caller owes a byte to the event descriptor — exactly when the
    /// runtime is blocked in the kernel.
    pub fn wake(&mut self, t: ThreadId) -> (must_signal: bool)
        requires
            old(self).wf(),
            old(self).occ(t),
            old(self).ctx(t).atomic_refcount > old(self).sq_count(t) + (if old(self).ctx(
                t,
            ).refcount >= 1 {
                1int
            } else {
                0int
            }),
            old(self).ctx(t).lifecycle == Lifecycle::Finished || old(self).ctx(t).lifecycle
                == Lifecycle::Taken || old(self).ctx(t).refcount >= 1,
        ensures
            final(self).wf(),
            final(self).executor == old(self).executor,
            final(self).shared_queue.queue@ == old(self).shared_queue.queue@.push(t),
            final(self).shared_queue.is_sleeping == old(self).shared_queue.is_sleeping,
            must_signal == old(self).shared_queue.is_sleeping,
            final(self).inflight@ == old(self).inflight@,
            final(self).polls == old(self).polls,
    {
        let ghost pre = *self;
        let must_signal = self.shared_queue.send(t);
        proof {
            let post = *self;
            assert forall|i: int|
                0 <= i < post.shared_queue.queue@.len() implies post.executor.occ(
                #[trigger] post.shared_queue.queue@[i],
            ) by {
                if i < pre.shared_queue.queue@.len() {
                    assert(pre.executor.occ(pre.shared_queue.queue@[i]));
                }
            }
            assert forall|t2: ThreadId| #[trigger] post.executor.occ(t2) implies post.ctx(
                t2,
            ).atomic_refcount >= post.sq_count(t2) + (if post.ctx(t2).refcount >= 1 {
                1int
            } else {
                0int
            }) by {
                assert(pre.executor.occ(t2));
                lemma_count_push(pre.shared_queue.queue@, t, t2);
            }
            assert forall|t2: ThreadId| #[trigger] post.executor.occ(t2) implies ((post.sq_count(
                t2,
            ) >= 1 && post.ctx(t2).lifecycle != Lifecycle::Finished && post.ctx(t2).lifecycle
                != Lifecycle::Taken) ==> post.ctx(t2).refcount >= 1) by {
                assert(pre.executor.occ(t2));
                lemma_count_push(pre.shared_queue.queue@, t, t2);
            }
            assert forall|i: int|
                0 <= i < post.inflight@.len() implies post.executor.occ(
                #[trigger] post.inflight@[i],
            ) by {
                assert(pre.executor.occ(pre.inflight@[i]));
            }
            assert forall|t2: ThreadId| #[trigger] post.executor.occ(t2) implies (post.intag(t2)
                ==> post.ctx(t2).refcount >= post.executor.held_here(t2) + 1 && post.ctx(
                t2,
            ).io_result is None) by {
                assert(pre.executor.occ(t2));
            }
        }
        must_signal
    }

    /// Drains the shared wakeup queue: every posted waker is consumed,
    /// releasing the cross-thread hold it carried, and each target that
    /// can still run is made runnable.  A waker whose thread has already
    /// finished is simply released; when such a waker was the last hold
    /// of any kind, the allocation is returned.  Per target, the outcome
    /// is exactly [`spec_drained_ctx`] of its posted-waker count.
    #[verifier::rlimit(100)]
    pub fn drain_shared_queue(&mut self)
        requires
            old(self).wf(),
            forall|t: ThreadId|
                #[trigger] old(self).occ(t) ==> old(self).ctx(t).refcount < u64::MAX,
        ensures
            final(self).wf(),
            final(self).shared_queue.queue@.len() == 0,
            final(self).shared_queue.is_sleeping == old(self).shared_queue.is_sleeping,
            final(self).executor.current == old(self).executor.current,
            final(self).inflight@ == old(self).inflight@,
            final(self).polls == old(self).polls,
            old(self).executor.run_queue@.len() <= final(self).executor.run_queue@.len(),
            forall|x: ThreadId| #[trigger] final(self).occ(x) ==> old(self).occ(x),
            forall|t: ThreadId|
                #[trigger] old(self).occ(t) ==> ({
                    let n = old(self).sq_count(t);
                    if old(self).ctx(t).refcount == 0 && old(self).ctx(t).atomic_refcount == n
                        && n >= 1 {
                        !final(self).occ(t)
                    } else {
                        final(self).occ(t) && final(self).ctx(t) == spec_drained_ctx(
                            old(self).ctx(t),
                            n,
                        )
                    }
                }),
            old(self).shared_queue.queue@.len() == 0 ==> *final(self) == *old(self),
    {
        let ghost pre = *self;
        proof {
            assert(pre.shared_queue.queue@.subrange(
                0,
                pre.shared_queue.queue@.len() as int,
            ) =~= pre.shared_queue.queue@);
            assert forall|t: ThreadId| #[trigger] pre.occ(t) implies spec_drained_ctx(
                pre.ctx(t),
                0,
            ) == pre.ctx(t) by {
                assert(pre.ctx(t).atomic_refcount - 0 == pre.ctx(t).atomic_refcount);
            }
        }
        while !self.shared_queue.is_empty()
            invariant
                self.wf(),
                self.shared_queue.is_sleeping == pre.shared_queue.is_sleeping,
                self.executor.current == pre.executor.current,
                self.inflight@ == pre.inflight@,
                self.polls == pre.polls,
                pre.wf(),
                forall|t: ThreadId|
                    #[trigger] pre.occ(t) ==> pre.ctx(t).refcount < u64::MAX,
                pre.shared_queue.queue@.len() == 0 ==> *self == pre,
                self.shared_queue.queue@.len() <= pre.shared_queue.queue@.len(),
                self.shared_queue.queue@ == pre.shared_queue.queue@.subrange(
                    pre.shared_queue.queue@.len() - self.shared_queue.queue@.len(),
                    pre.shared_queue.queue@.len() as int,
                ),
                pre.executor.run_queue@.len() <= self.executor.run_queue@.len(),
                forall|x: ThreadId| #[trigger] self.occ(x) ==> pre.occ(x),
                forall|t: ThreadId|
                    #[trigger] pre.occ(t) ==> ({
                        let n = pre.sq_count(t) - count_of(self.shared_queue.queue@, t);
                        if pre.ctx(t).refcount == 0 && pre.ctx(t).atomic_refcount == n && n >= 1 {
                            !self.occ(t)
                        } else {
                            self.occ(t) && self.ctx(t) == spec_drained_ctx(pre.ctx(t), n)
                        }
                    }),
            decreases self.shared_queue.queue@.len(),
        {
            let ghost step = *self;
            let w = match self.shared_queue.pop() {
                None => vstd::pervasive::unreached(),
                Some(w) => w,
            };
            let ghost n_w = pre.sq_count(w) - count_of(step.shared_queue.queue@, w);
            proof {
                assert(step.executor.occ(step.shared_queue.queue@[0]));
                assert(pre.occ(w));
                assert(step.sq_count(w) >= 1) by {
                    assert(step.shared_queue.queue@.contains(w)) by {
                        assert(step.shared_queue.queue@[0] == w);
                    }
                    lemma_member_count(step.shared_queue.queue@, w);
                }
                lemma_count_nonneg(step.shared_queue.queue@, w);
                lemma_count_tail(step.shared_queue.queue@, w);
                assert forall|t2: ThreadId|
                    count_of(
                        self.shared_queue.queue@,
                        t2,
                    ) == step.sq_count(t2) - (if t2 == w {
                        1int
                    } else {
                        0int
                    }) by {
                    lemma_count_tail(step.shared_queue.queue@, t2);
                }
                // the shorter queue is the corresponding suffix of the
                // original
                assert(self.shared_queue.queue@ =~= pre.shared_queue.queue@.subrange(
                    pre.shared_queue.queue@.len() - self.shared_queue.queue@.len(),
                    pre.shared_queue.queue@.len() as int,
                ));
                // the popped target is occupied, so the invariant's kept
                // branch applies to it
                assert(step.occ(w));
                assert(step.ctx(w) == spec_drained_ctx(pre.ctx(w), n_w));
                assert(0 <= n_w) by {
                    lemma_count_suffix_le(
                        pre.shared_queue.queue@,
                        pre.shared_queue.queue@.len() - step.shared_queue.queue@.len(),
                        w,
                    );
                }
            }
            let ghost mid = *self;
            // mid: the queue entry is popped but its atomic hold is still
            // counted; re-establish liveness against the shorter queue
            proof {
                assert forall|i: int|
                    0 <= i < self.shared_queue.queue@.len() implies self.executor.occ(
                    #[trigger] self.shared_queue.queue@[i],
                ) by {
                    assert(step.executor.occ(step.shared_queue.queue@[i + 1]));
                }
            }
            let (live, waiting) = {
                let c = self.executor.ctx_read(w);
                (
                    !matches!(c.lifecycle, Lifecycle::Finished) && !matches!(
                        c.lifecycle,
                        Lifecycle::Taken,
                    ),
                    matches!(c.status, Status::Waiting),
                )
            };
            proof {
                assert(step.ctx(w).atomic_refcount >= step.sq_count(w) + (if step.ctx(
                    w,
                ).refcount >= 1 {
                    1int
                } else {
                    0int
                }));
                if live {
                    assert(step.ctx(w).refcount >= 1);
                    assert(step.ctx(w).atomic_refcount >= 2);
                }
                if step.ctx(w).atomic_refcount == 1 {
                    assert(step.ctx(w).refcount == 0);
                    assert(step.sq_count(w) == 1);
                }
            }
            let e = self.executor.waker_drop(w);
            proof {
                let pre2 = mid;
                if step.ctx(w).atomic_refcount > 1 {
                    self.lemma_rt_wf_one_slot(pre2, w);
                } else {
                    assert(!pre2.intag(w)) by {
                        if pre2.intag(w) {
                            assert(pre2.executor.occ(w));
                        }
                    }
                    self.lemma_rt_wf_slot_gone(pre2, w);
                }
            }
            if live && waiting {
                let ghost before_push = *self;
                proof {
                    assert(step.occ(w));
                    assert(step.ctx(w).status == Status::Waiting);
                    assert(step.ctx(w).refcount < u64::MAX) by {
                        assert(pre.ctx(w).refcount < u64::MAX);
                        assert(step.ctx(w).refcount == pre.ctx(w).refcount || step.ctx(
                            w,
                        ).refcount == pre.ctx(w).refcount + 1);
                    }
                    assert(before_push.ctx(w).refcount == step.ctx(w).refcount);
                    assert(before_push.executor.occ(w));
                }
                self.executor.push(w);
                proof {
                    assert forall|x: ThreadId|
                        x != w implies (self.executor.run_queue@.contains(x)
                        <==> before_push.executor.run_queue@.contains(x)) by {
                        crate::executor::lemma_contains_push(
                            before_push.executor.run_queue@,
                            w,
                            x,
                        );
                    }
                    self.lemma_rt_wf_one_slot(before_push, w);
                }
            }
            proof {
                assert forall|t: ThreadId|
                    #[trigger] pre.occ(t) implies ({
                    let n = pre.sq_count(t) - count_of(self.shared_queue.queue@, t);
                    if pre.ctx(t).refcount == 0 && pre.ctx(t).atomic_refcount == n && n >= 1 {
                        !self.occ(t)
                    } else {
                        self.occ(t) && self.ctx(t) == spec_drained_ctx(pre.ctx(t), n)
                    }
                }) by {
                    if t == w {
                        let n1 = n_w + 1;
                        assert(count_of(self.shared_queue.queue@, w) == step.sq_count(w) - 1);
                        assert(pre.sq_count(w) - count_of(self.shared_queue.queue@, w) == n1);
                        let c0 = pre.ctx(w);
                        let cs = step.ctx(w);
                        if cs.atomic_refcount == 1 && cs.refcount == 0 {
                            // the popped waker was the last hold: freed
                            assert(c0.refcount == 0);
                            assert(c0.atomic_refcount == n1);
                            assert(!self.occ(w));
                        } else {
                            assert(self.occ(w));
                            if live && waiting {
                                assert(self.ctx(w) == spec_drained_ctx(c0, n1));
                            } else {
                                assert(self.ctx(w).atomic_refcount == cs.atomic_refcount - 1);
                                assert(self.ctx(w) == spec_drained_ctx(c0, n1));
                            }
                        }
                    } else {
                        assert(count_of(self.shared_queue.queue@, t) == step.sq_count(t));
                        if step.occ(t) {
                            assert(self.ctx(t) == step.ctx(t));
                        } else {
                            assert(!self.occ(t));
                        }
                    }
                }
                assert forall|x: ThreadId| #[trigger] self.occ(x) implies pre.occ(x) by {
                    assert(step.occ(x));
                }
            }
        }
        proof {
            assert forall|t: ThreadId|
                count_of(final(self).shared_queue.queue@, t) == 0 by {
                lemma_count_nonneg(final(self).shared_queue.queue@, t);
            }
        }
    }

    /// Registers a kernel submission by the running thread: the tag that
    /// travels with the submission is a cloned handle on the submitter,
    /// returned here so the shell can stamp it onto the entry.  A thread
    /// has at most one submission in flight, and its mailbox must be
    /// empty — every completion is consumed before the next submission.
    pub fn submit(&mut self) -> (tag: ThreadId)
        requires
            old(self).wf(),
            !old(self).intag(old(self).executor.current),
            old(self).ctx(old(self).executor.current).io_result is None,
            old(self).ctx(old(self).executor.current).refcount < u64::MAX,
            old(self).inflight@.len() < usize::MAX,
        ensures
            final(self).wf(),
            tag == old(self).executor.current,
            final(self).executor.contexts@ == old(self).executor.contexts@.update(
                tag.0 as int,
                Some(
                    Context {
                        refcount: (old(self).ctx(tag).refcount + 1) as u64,
                        ..old(self).ctx(tag)
                    },
                ),
            ),
            final(self).executor.run_queue@ == old(self).executor.run_queue@,
            final(self).executor.current == old(self).executor.current,
            final(self).shared_queue == old(self).shared_queue,
            final(self).inflight@ == old(self).inflight@.push(tag),
            final(self).polls == old(self).polls,
    {
        let ghost pre = *self;
        let me = self.executor.current_id();
        proof {
            assert(pre.executor.occ(me));
            assert(pre.ctx(me).refcount >= pre.executor.held_here(me));
            assert(pre.executor.exec_hold(me));
        }
        self.executor.retain(me);
        self.inflight.push(me);
        proof {
            let post = *self;
            assert forall|i: int|
                0 <= i < post.shared_queue.queue@.len() implies post.executor.occ(
                #[trigger] post.shared_queue.queue@[i],
            ) by {
                assert(pre.executor.occ(pre.shared_queue.queue@[i]));
            }
            assert forall|t2: ThreadId| #[trigger] post.executor.occ(t2) implies post.ctx(
                t2,
            ).atomic_refcount >= post.sq_count(t2) + (if post.ctx(t2).refcount >= 1 {
                1int
            } else {
                0int
            }) by {
                assert(pre.executor.occ(t2));
            }
            assert forall|t2: ThreadId| #[trigger] post.executor.occ(t2) implies ((post.sq_count(
                t2,
            ) >= 1 && post.ctx(t2).lifecycle != Lifecycle::Finished && post.ctx(t2).lifecycle
                != Lifecycle::Taken) ==> post.ctx(t2).refcount >= 1) by {
                assert(pre.executor.occ(t2));
            }
            assert forall|i: int|
                0 <= i < post.inflight@.len() implies post.executor.occ(
                #[trigger] post.inflight@[i],
            ) by {
                if i < pre.inflight@.len() {
                    assert(pre.executor.occ(pre.inflight@[i]));
                }
            }
            assert forall|i: int, j: int|
                0 <= i < j < post.inflight@.len() implies post.inflight@[i]
                != post.inflight@[j] by {
                if j == post.inflight@.len() - 1 {
                    if pre.inflight@[i] == me {
                        assert(pre.inflight@.contains(me));
                    }
                }
            }
            assert forall|t2: ThreadId| #[trigger] post.executor.occ(t2) implies (post.intag(t2)
                ==> post.ctx(t2).refcount >= post.executor.held_here(t2) + 1 && post.ctx(
                t2,
            ).io_result is None) by {
                assert(pre.executor.occ(t2));
                crate::executor::lemma_contains_push(pre.inflight@, me, t2);
                if t2 != me && post.intag(t2) {
                    assert(pre.intag(t2));
                }
            }
        }
        me
    }

    /// Delivers a kernel completion: the result lands in the tagged
    /// thread's mailbox, the thread is made runnable again, and the tag's
    /// hold is released.  A completion whose tag is not in flight — the
    /// standing wakeup watch reports with an empty tag — changes nothing.
    #[verifier::rlimit(100)]
    pub fn complete(&mut self, t: ThreadId, result: i32)
        requires
            old(self).wf(),
            old(self).intag(t) ==> old(self).ctx(t).refcount < u64::MAX - 1,
        ensures
            final(self).wf(),
            !old(self).intag(t) ==> *final(self) == *old(self),
            old(self).intag(t) ==> ({
                let c = old(self).ctx(t);
                let live = c.lifecycle != Lifecycle::Finished && c.lifecycle != Lifecycle::Taken;
                &&& !final(self).intag(t)
                &&& final(self).inflight@.len() == old(self).inflight@.len() - 1
                &&& (forall|x: ThreadId|
                    x != t ==> (final(self).intag(x) <==> old(self).intag(x)))
                &&& final(self).shared_queue == old(self).shared_queue
                &&& final(self).polls == old(self).polls
                &&& final(self).executor.current == old(self).executor.current
                &&& (live && c.status == Status::Waiting ==> {
                    &&& final(self).executor.run_queue@ == old(self).executor.run_queue@.push(t)
                    &&& final(self).executor.contexts@ == old(self).executor.contexts@.update(
                        t.0 as int,
                        Some(
                            Context {
                                status: Status::Queued,
                                io_result: Some(result),
                                ..c
                            },
                        ),
                    )
                })
                &&& (c.status == Status::Queued ==> {
                    &&& final(self).executor.run_queue@ == old(self).executor.run_queue@
                    &&& final(self).executor.contexts@ == old(self).executor.contexts@.update(
                        t.0 as int,
                        Some(
                            Context {
                                refcount: (c.refcount - 1) as u64,
                                io_result: Some(result),
                                ..c
                            },
                        ),
                    )
                })
                &&& (!live ==> final(self).executor.run_queue@ == old(self).executor.run_queue@)
            }),
    {
        let ghost pre = *self;
        let mut idx: usize = 0;
        let n = self.inflight.len();
        let mut found: bool = false;
        while !found && idx < n
            invariant
                *self == pre,
                n == self.inflight@.len(),
                idx <= n,
                !found ==> forall|k: int| 0 <= k < idx ==> self.inflight@[k] != t,
                found ==> idx < n && self.inflight@[idx as int] == t,
            decreases n - idx + (if found {
                0int
            } else {
                1int
            }),
        {
            if self.inflight[idx].0 == t.0 {
                found = true;
            } else {
                idx = idx + 1;
            }
        }
        if !found {
            proof {
                assert(!pre.intag(t)) by {
                    if pre.inflight@.contains(t) {
                        let k = choose|k: int|
                            0 <= k < pre.inflight@.len() && pre.inflight@[k] == t;
                        assert(pre.inflight@[k] != t);
                    }
                }
            }
            return ;
        }
        proof {
            assert(pre.inflight@.contains(t)) by {
                assert(pre.inflight@[idx as int] == t);
            }
            assert(pre.executor.occ(t));
            assert(pre.ctx(t).refcount >= pre.executor.held_here(t) + 1);
            assert(pre.ctx(t).io_result is None);
        }
        self.inflight.remove(idx);
        proof {
            assert forall|x: ThreadId|
                #[trigger] self.inflight@.contains(x) <==> (pre.inflight@.contains(x) && x
                != t) by {
                lemma_remove_distinct_contains(pre.inflight@, idx as int, x);
            }
            assert forall|i2: int|
                0 <= i2 < self.inflight@.len() implies pre.inflight@.contains(
                #[trigger] self.inflight@[i2],
            ) by {
                if i2 < idx {
                    assert(self.inflight@[i2] == pre.inflight@[i2]);
                } else {
                    assert(self.inflight@[i2] == pre.inflight@[i2 + 1]);
                }
            }
            assert forall|i2: int, j2: int|
                0 <= i2 < j2 < self.inflight@.len() implies self.inflight@[i2]
                != self.inflight@[j2] by {
                let a = if i2 < idx { i2 } else { i2 + 1 };
                let b = if j2 < idx { j2 } else { j2 + 1 };
                assert(self.inflight@[i2] == pre.inflight@[a]);
                assert(self.inflight@[j2] == pre.inflight@[b]);
            }
        }
        let ghost mid0 = *self;
        proof {
            self.lemma_rt_wf_untag(pre, t);
        }
        self.executor.set_io_result(t, result);
        proof {
            let ghost mid = *self;
            self.lemma_rt_wf_one_slot(mid0, t);
        }
        let ghost mid1 = *self;
        let live = {
            let c = self.executor.ctx_read(t);
            !matches!(c.lifecycle, Lifecycle::Finished) && !matches!(c.lifecycle, Lifecycle::Taken)
        };
        let waiting = matches!(self.executor.ctx_read(t).status, Status::Waiting);
        if live && waiting {
            self.executor.push(t);
            proof {
                assert forall|x: ThreadId|
                    x != t implies (self.executor.run_queue@.contains(x)
                    <==> mid1.executor.run_queue@.contains(x)) by {
                    crate::executor::lemma_contains_push(mid1.executor.run_queue@, t, x);
                }
                self.lemma_rt_wf_one_slot(mid1, t);
            }
        }
        let ghost mid2 = *self;
        proof {
            assert(mid2.ctx(t).refcount >= mid2.executor.held_here(t) + 1);
        }
        let e = self.executor.release(t);
        proof {
            if mid2.ctx(t).refcount > 1 {
                self.lemma_rt_wf_one_slot(mid2, t);
            } else {
                assert(!mid2.intag(t));
                lemma_count_nonneg(mid2.shared_queue.queue@, t);
                self.lemma_rt_wf_slot_gone(mid2, t);
            }
        }
    }

    /// Re-establishes the runtime invariant after the in-flight tag of
    /// `t` was removed with everything else untouched.
    proof fn lemma_rt_wf_untag(self, pre: Runtime, t: ThreadId)
        requires
            pre.wf(),
            self.executor == pre.executor,
            self.shared_queue == pre.shared_queue,
            forall|x: ThreadId|
                #[trigger] self.inflight@.contains(x) <==> (pre.inflight@.contains(x) && x != t),
            forall|i: int, j: int|
                0 <= i < j < self.inflight@.len() ==> self.inflight@[i] != self.inflight@[j],
            forall|i: int|
                0 <= i < self.inflight@.len() ==> pre.inflight@.contains(
                    #[trigger] self.inflight@[i],
                ),
        ensures
            self.wf(),
    {
        let post = self;
        assert forall|i: int|
            0 <= i < post.shared_queue.queue@.len() implies post.executor.occ(
            #[trigger] post.shared_queue.queue@[i],
        ) by {
            assert(pre.executor.occ(pre.shared_queue.queue@[i]));
        }
        assert forall|i: int|
            0 <= i < post.inflight@.len() implies post.executor.occ(
            #[trigger] post.inflight@[i],
        ) by {
            assert(post.inflight@.contains(post.inflight@[i]));
            let x = post.inflight@[i];
            let k = choose|k: int| 0 <= k < pre.inflight@.len() && pre.inflight@[k] == x;
            assert(pre.executor.occ(pre.inflight@[k]));
        }
        assert forall|t2: ThreadId| #[trigger] post.executor.occ(t2) implies (post.intag(t2)
            ==> post.ctx(t2).refcount >= post.executor.held_here(t2) + 1 && post.ctx(
            t2,
        ).io_result is None) by {
            assert(pre.executor.occ(t2));
        }
        assert forall|t2: ThreadId| #[trigger] post.executor.occ(t2) implies post.ctx(
            t2,
        ).atomic_refcount >= post.sq_count(t2) + (if post.ctx(t2).refcount >= 1 {
            1int
        } else {
            0int
        }) by {
            assert(pre.executor.occ(t2));
        }
        assert forall|t2: ThreadId| #[trigger] post.executor.occ(t2) implies ((post.sq_count(t2)
            >= 1 && post.ctx(t2).lifecycle != Lifecycle::Finished && post.ctx(t2).lifecycle
            != Lifecycle::Taken) ==> post.ctx(t2).refcount >= 1) by {
            assert(pre.executor.occ(t2));
        }
    }

    /// Drains thread `t`'s completion mailbox: the submitter consumes
    /// its completion exactly once, before its next submission.
    pub fn take_io_result(&mut self, t: ThreadId) -> (r: Option<i32>)
        requires
            old(self).wf(),
            old(self).occ(t),
        ensures
            final(self).wf(),
            r == old(self).ctx(t).io_result,
            final(self).executor.contexts@ == old(self).executor.contexts@.update(
                t.0 as int,
                Some(Context { io_result: None, ..old(self).ctx(t) }),
            ),
            final(self).executor.run_queue@ == old(self).executor.run_queue@,
            final(self).executor.current == old(self).executor.current,
            final(self).shared_queue == old(self).shared_queue,
            final(self).inflight@ == old(self).inflight@,
            final(self).polls == old(self).polls,
    {
        let ghost pre = *self;
        let r = self.executor.take_io_result(t);
        proof {
            self.lemma_rt_wf_one_slot(pre, t);
        }
        r
    }

    /// Marks the runtime as about to block in the kernel: a remote wake
    /// posted from here on signals the event descriptor.
    pub fn begin_kernel_wait(&mut self)
        requires
            old(self).wf(),
        ensures
            final(self).wf(),
            final(self).shared_queue.queue@ == old(self).shared_queue.queue@,
            final(self).shared_queue.is_sleeping,
            final(self).executor == old(self).executor,
            final(self).inflight@ == old(self).inflight@,
            final(self).polls == old(self).polls,
    {
        self.shared_queue.set_sleeping(true);
    }

    /// Marks the runtime as returned from the kernel.
    pub fn end_kernel_wait(&mut self)
        requires
            old(self).wf(),
        ensures
            final(self).wf(),
            final(self).shared_queue.queue@ == old(self).shared_queue.queue@,
            !final(self).shared_queue.is_sleeping,
            final(self).executor == old(self).executor,
            final(self).inflight@ == old(self).inflight@,
            final(self).polls == old(self).polls,
    {
        self.shared_queue.set_sleeping(false);
    }

    /// Takes the next runnable thread off the run queue and hands the
    /// machine to it.  When the queue is empty nothing changes and the
    /// caller should drive the reactor before parking again.
    pub fn park_resume(&mut self, machine: &mut Registers) -> (r: ParkResult)
        requires
            old(self).wf(),
            old(self).ctx(old(self).executor.current).lifecycle != Lifecycle::Finished,
        ensures
            final(self).wf(),
            final(self).shared_queue == old(self).shared_queue,
            final(self).inflight@ == old(self).inflight@,
            final(self).polls == old(self).polls,
            old(self).executor.run_queue@.len() == 0 ==> r == ParkResult::Idle && *final(self)
                == *old(self) && *final(machine) == *old(machine),
            old(self).executor.run_queue@.len() > 0 ==> ({
                let next = old(self).executor.run_queue@[0];
                let prev = old(self).executor.current;
                let nc = old(self).ctx(next);
                &&& r == ParkResult::Switched
                &&& final(self).executor.run_queue@ == old(self).executor.run_queue@.subrange(
                    1,
                    old(self).executor.run_queue@.len() as int,
                )
                &&& final(self).executor.current == next
                &&& final(self).occ(next)
                &&& final(self).ctx(next) == spec_resumed_ctx(nc)
                &&& (next != prev ==> *final(machine) == nc.registers && final(self).occ(prev)
                    && final(self).ctx(prev) == (Context {
                    registers: *old(machine),
                    ..old(self).ctx(prev)
                }) && final(self).executor.contexts@ == old(self).executor.contexts@.update(
                    next.0 as int,
                    Some(spec_resumed_ctx(nc)),
                ).update(
                    prev.0 as int,
                    Some(Context { registers: *old(machine), ..old(self).ctx(prev) }),
                ))
                &&& (next == prev ==> *final(machine) == *old(machine) && final(self).executor.contexts@ == old(self).executor.contexts@.update(
                    next.0 as int,
                    Some(spec_resumed_ctx(nc)),
                ))
                &&& (forall|x: ThreadId|
                    x != next && x != prev ==> ((#[trigger] final(self).occ(x) <==> old(
                        self,
                    ).occ(x)) && (old(self).occ(x) ==> final(self).ctx(x) == old(self).ctx(x))))
            }),
    {
        let ghost pre = *self;
        let next = match self.executor.pop() {
            None => {
                return ParkResult::Idle;
            },
            Some(next) => next,
        };
        let ghost mid = *self;
        proof {
            assert(pre.executor.occ(next));
            assert(pre.executor.run_queue@.contains(next)) by {
                assert(pre.executor.run_queue@[0] == next);
            }
            assert(pre.ctx(next).refcount >= pre.executor.held_here(next));
            // the shorter queue changes no other membership
            assert forall|x: ThreadId|
                x != next implies (mid.executor.run_queue@.contains(x)
                <==> pre.executor.run_queue@.contains(x)) by {
                lemma_tail_contains(pre.executor.run_queue@, x);
            }
            assert(!mid.executor.run_queue@.contains(next)) by {
                if mid.executor.run_queue@.contains(next) {
                    let k = choose|k: int|
                        0 <= k < mid.executor.run_queue@.len() && mid.executor.run_queue@[k]
                            == next;
                    assert(pre.executor.run_queue@[k + 1] == next);
                }
            }
            self.lemma_rt_wf_after_pop(pre, next);
        }
        self.executor.switch_to(next, machine);
        proof {
            let post = *self;
            assert(post.ctx(next).refcount >= 1) by {
                if pre.ctx(next).lifecycle == Lifecycle::New && next != mid.executor.current {
                } else {
                    assert(pre.executor.occ(next));
                    assert(pre.ctx(next).refcount >= pre.executor.held_here(next));
                }
            }
            assert forall|i: int|
                0 <= i < post.shared_queue.queue@.len() implies post.executor.occ(
                #[trigger] post.shared_queue.queue@[i],
            ) by {
                assert(mid.executor.occ(mid.shared_queue.queue@[i]));
            }
            assert forall|t2: ThreadId| #[trigger] post.executor.occ(t2) implies post.ctx(
                t2,
            ).atomic_refcount >= post.sq_count(t2) + (if post.ctx(t2).refcount >= 1 {
                1int
            } else {
                0int
            }) by {
                assert(mid.executor.occ(t2));
                assert(pre.executor.occ(t2));
                assert(post.sq_count(t2) == pre.sq_count(t2));
            }
            assert forall|t2: ThreadId| #[trigger] post.executor.occ(t2) implies ((post.sq_count(
                t2,
            ) >= 1 && post.ctx(t2).lifecycle != Lifecycle::Finished && post.ctx(t2).lifecycle
                != Lifecycle::Taken) ==> post.ctx(t2).refcount >= 1) by {
                assert(mid.executor.occ(t2));
                assert(pre.executor.occ(t2));
                assert(post.sq_count(t2) == pre.sq_count(t2));
                if t2 == next {
                    assert(post.ctx(next).refcount >= 1);
                }
            }
            assert forall|i: int|
                0 <= i < post.inflight@.len() implies post.executor.occ(
                #[trigger] post.inflight@[i],
            ) by {
                assert(mid.executor.occ(mid.inflight@[i]));
            }
            assert forall|t2: ThreadId| #[trigger] post.executor.occ(t2) implies (post.intag(t2)
                ==> post.ctx(t2).refcount >= post.executor.held_here(t2) + 1 && post.ctx(
                t2,
            ).io_result is None) by {
                assert(mid.executor.occ(t2));
                assert(pre.executor.occ(t2));
            }
        }
        ParkResult::Switched
    }

    /// Re-establishes the runtime invariant after a pop whose target the
    /// scheduler is about to switch into — the one moment a fresh
    /// dangling context may have no holder, covered by the switch that
    /// follows at once.
    proof fn lemma_rt_wf_after_pop(self, pre: Runtime, next: ThreadId)
        requires
            pre.wf(),
            pre.executor.run_queue@.len() > 0,
            next == pre.executor.run_queue@[0],
            self.executor.wf(),
            self.shared_queue == pre.shared_queue,
            self.inflight@ == pre.inflight@,
            self.executor.run_queue@ == pre.executor.run_queue@.subrange(
                1,
                pre.executor.run_queue@.len() as int,
            ),
            self.executor.current == pre.executor.current,
            self.executor.contexts@ == pre.executor.contexts@.update(
                next.0 as int,
                Some(
                    Context {
                        status: Status::Waiting,
                        refcount: (pre.ctx(next).refcount - 1) as u64,
                        ..pre.ctx(next)
                    },
                ),
            ),
            !self.executor.run_queue@.contains(next),
            pre.ctx(next).lifecycle != Lifecycle::Finished,
            pre.ctx(next).lifecycle != Lifecycle::Taken,
        ensures
            self.sq_members_live(),
            self.sq_counts_ok(),
            self.tags_live(),
            self.tags_counts_ok(),
    {
        let pre_rt = pre;
        let post = self;
        assert(pre.executor.occ(next));
        assert(pre.executor.run_queue@.contains(next));
        assert(pre.ctx(next).refcount >= pre.executor.held_here(next));
        assert forall|i: int|
            0 <= i < post.shared_queue.queue@.len() implies post.executor.occ(
            #[trigger] post.shared_queue.queue@[i],
        ) by {
            assert(pre.executor.occ(pre.shared_queue.queue@[i]));
        }
        assert forall|t2: ThreadId| #[trigger] post.executor.occ(t2) implies post.ctx(
            t2,
        ).atomic_refcount >= post.sq_count(t2) + (if post.ctx(t2).refcount >= 1 {
            1int
        } else {
            0int
        }) by {
            assert(pre.executor.occ(t2));
            assert(post.sq_count(t2) == pre.sq_count(t2));
        }
        assert forall|i: int|
            0 <= i < post.inflight@.len() implies post.executor.occ(
            #[trigger] post.inflight@[i],
        ) by {
            assert(pre.executor.occ(pre.inflight@[i]));
        }
        assert forall|t2: ThreadId| #[trigger] post.executor.occ(t2) implies (post.intag(t2)
            ==> post.ctx(t2).refcount >= post.executor.held_here(t2) + 1 && post.ctx(
            t2,
        ).io_result is None) by {
            assert(pre.executor.occ(t2));
        }
    }

    /// The scheduling pivot: counts the park, polls the reactor when the
    /// count or an empty run queue demands it, and otherwise hands the
    /// machine to the next runnable thread.  When reactor work is owed
    /// the caller flushes the ring — blocking exactly when the result
    /// says so, with the sleeping flag already raised — feeds the
    /// completions back, and parks again.
    #[verifier::rlimit(100)]
    pub fn park(&mut self, machine: &mut Registers) -> (r: ParkResult)
        requires
            old(self).wf(),
            old(self).ctx(old(self).executor.current).lifecycle != Lifecycle::Finished,
            old(self).polls < POLL_PERIOD,
            !old(self).shared_queue.is_sleeping,
            forall|t: ThreadId|
                #[trigger] old(self).occ(t) ==> old(self).ctx(t).refcount < u64::MAX,
        ensures
            final(self).wf(),
            final(self).polls == (old(self).polls + 1) % (POLL_PERIOD as int),
            final(self).polls < POLL_PERIOD,
            ({
                let gate = (old(self).polls + 1) % (POLL_PERIOD as int) == 0 || old(
                    self,
                ).executor.run_queue@.len() == 0;
                &&& (!gate ==> r == ParkResult::Switched && final(self).shared_queue == old(
                    self,
                ).shared_queue && final(self).inflight@ == old(self).inflight@)
                &&& (gate ==> r == (ParkResult::NeedReactor {
                    block: final(self).executor.run_queue@.len() == 0,
                }))
                &&& (gate ==> final(self).shared_queue.is_sleeping == (final(self).executor.run_queue@.len() == 0))
                &&& (gate ==> final(self).shared_queue.queue@.len() == 0)
                &&& (gate ==> final(self).inflight@ == old(self).inflight@)
                &&& (gate ==> old(self).executor.run_queue@.len() <= final(self).executor.run_queue@.len())
                &&& (gate ==> (forall|t: ThreadId|
                    #[trigger] old(self).occ(t) ==> (old(self).ctx(t).status == Status::Queued
                        ==> final(self).occ(t) && final(self).ctx(t).status == Status::Queued
                        && final(self).ctx(t).lifecycle == old(self).ctx(t).lifecycle)))
                &&& (gate && old(self).shared_queue.queue@.len() == 0 ==> final(self).executor
                    == old(self).executor)
            }),
            ({
                let gate = (old(self).polls + 1) % (POLL_PERIOD as int) == 0 || old(
                    self,
                ).executor.run_queue@.len() == 0;
                !gate ==> ({
                    let next = old(self).executor.run_queue@[0];
                    let prev = old(self).executor.current;
                    let nc = old(self).ctx(next);
                    &&& final(self).executor.run_queue@ == old(self).executor.run_queue@.subrange(
                        1,
                        old(self).executor.run_queue@.len() as int,
                    )
                    &&& final(self).executor.current == next
                    &&& final(self).occ(next)
                    &&& final(self).ctx(next) == spec_resumed_ctx(nc)
                    &&& (next != prev ==> *final(machine) == nc.registers && final(self).occ(
                        prev,
                    ) && final(self).ctx(prev) == (Context {
                        registers: *old(machine),
                        ..old(self).ctx(prev)
                    }) && final(self).executor.contexts@ == old(self).executor.contexts@.update(
                        next.0 as int,
                        Some(spec_resumed_ctx(nc)),
                    ).update(
                        prev.0 as int,
                        Some(Context { registers: *old(machine), ..old(self).ctx(prev) }),
                    ))
                    &&& (next == prev ==> *final(machine) == *old(machine) && final(self).executor.contexts@ == old(self).executor.contexts@.update(
                        next.0 as int,
                        Some(spec_resumed_ctx(nc)),
                    ))
                })
            }),
    {
        self.polls = (self.polls + 1) % POLL_PERIOD;
        let gate = self.polls == 0 || self.executor.is_empty();
        if !gate {
            return self.park_resume(machine);
        }
        proof {
            assert forall|t: ThreadId| #[trigger] self.occ(t) implies self.ctx(t).refcount
                < u64::MAX by {
                assert(old(self).occ(t));
            }
        }
        // the no-lost-wakeup order: raise the sleeping flag, then drain,
        // then (if still nothing is runnable) the kernel wait — a remote
        // wake landing after the drain sees the flag up and signals
        self.begin_kernel_wait();
        proof {
            assert forall|t: ThreadId| #[trigger] self.occ(t) implies self.ctx(t).refcount
                < u64::MAX by {
                assert(old(self).occ(t));
            }
        }
        let ghost before_drain = *self;
        self.drain_shared_queue();
        proof {
            assert forall|t: ThreadId| #[trigger] old(self).occ(t) implies (old(self).ctx(
                t,
            ).status == Status::Queued ==> self.occ(t) && self.ctx(t).status == Status::Queued
                && self.ctx(t).lifecycle == old(self).ctx(t).lifecycle) by {
                assert(before_drain.occ(t) == old(self).occ(t));
                if old(self).occ(t) {
                    assert(before_drain.occ(t));
                }
            }
        }
        if self.executor.is_empty() {
            ParkResult::NeedReactor { block: true }
        } else {
            self.end_kernel_wait();
            ParkResult::NeedReactor { block: false }
        }
    }

    /// Cooperatively gives up the timeslice: the running thread re-enters
    /// the run queue at the tail and the machine is handed to whoever is
    /// next — which is the caller itself when nothing else is runnable.
    /// The caller always remains schedulable: it ends the step either
    /// running or queued.
    pub fn yield_now(&mut self, machine: &mut Registers) -> (r: ParkResult)
        requires
            old(self).wf(),
            old(self).ctx(old(self).executor.current).lifecycle != Lifecycle::Finished,
            old(self).polls < POLL_PERIOD,
            !old(self).shared_queue.is_sleeping,
            forall|t: ThreadId|
                #[trigger] old(self).occ(t) ==> old(self).ctx(t).refcount < u64::MAX - 1,
        ensures
            final(self).wf(),
            final(self).polls == (old(self).polls + 1) % (POLL_PERIOD as int),
            ({
                let me = old(self).executor.current;
                &&& r != ParkResult::Idle
                &&& final(self).occ(me)
                &&& final(self).ctx(me).lifecycle == old(self).ctx(me).lifecycle
                &&& (final(self).ctx(me).status == Status::Queued || final(self).executor.current
                    == me)
            }),
            ({
                let me = old(self).executor.current;
                let q1 = if old(self).ctx(me).status == Status::Queued {
                    old(self).executor.run_queue@
                } else {
                    old(self).executor.run_queue@.push(me)
                };
                let gate = (old(self).polls + 1) % (POLL_PERIOD as int) == 0;
                &&& (!gate ==> r == ParkResult::Switched && final(self).executor.current == q1[0]
                    && final(self).executor.run_queue@ == q1.subrange(1, q1.len() as int))
                &&& (!gate && q1[0] != me ==> *final(machine) == old(self).ctx(q1[0]).registers
                    && final(self).ctx(me).registers == *old(machine))
                &&& (!gate && q1[0] == me ==> *final(machine) == *old(machine))
                &&& (gate ==> r == (ParkResult::NeedReactor { block: false }))
            }),
    {
        let ghost pre = *self;
        let me = self.executor.current_id();
        self.unpark(me);
        proof {
            assert forall|t: ThreadId| #[trigger] self.occ(t) implies self.ctx(t).refcount
                < u64::MAX by {
                assert(pre.occ(t));
            }
            assert(self.executor.run_queue@.len() > 0) by {
                if pre.ctx(me).status == Status::Queued {
                    assert(pre.executor.run_queue@.contains(me));
                }
            }
        }
        let ghost mid_y = *self;
        let r = self.park(machine);
        proof {
            assert(mid_y.occ(me));
            assert(mid_y.polls == pre.polls);
            assert(mid_y.executor.run_queue@.len() > 0);
            assert(mid_y.ctx(me).status == Status::Queued) by {
                if pre.ctx(me).status != Status::Queued {
                    assert(mid_y.ctx(me).status == Status::Queued);
                }
            }
            let gate = (mid_y.polls + 1) % (POLL_PERIOD as int) == 0
                || mid_y.executor.run_queue@.len() == 0;
            if gate {
                assert(self.occ(me) && self.ctx(me).status == Status::Queued && self.ctx(
                    me,
                ).lifecycle == mid_y.ctx(me).lifecycle);
            } else {
                let next = mid_y.executor.run_queue@[0];
                if next == me {
                    assert(self.occ(me));
                } else {
                    assert(self.occ(me));
                    assert(self.ctx(me).status == Status::Queued);
                }
            }
            let ghost q1 = if pre.ctx(me).status == Status::Queued {
                pre.executor.run_queue@
            } else {
                pre.executor.run_queue@.push(me)
            };
            assert(mid_y.executor.run_queue@ == q1);
        }
        r
    }

    /// Records that the running thread's body has returned: the thread
    /// becomes `Finished` with the body's report in its output slot, and
    /// the thread waiting in `join` on it, if any, is made runnable.
    pub fn finish_current(&mut self, out: Outcome)
        requires
            old(self).wf(),
            old(self).ctx(old(self).executor.current).lifecycle == Lifecycle::Running,
            old(self).ctx(old(self).executor.current).status == Status::Waiting,
            forall|t: ThreadId|
                #[trigger] old(self).occ(t) ==> old(self).ctx(t).refcount < u64::MAX,
        ensures
            final(self).wf(),
            final(self).executor.current == old(self).executor.current,
            final(self).executor.contexts@.len() == old(self).executor.contexts@.len(),
            final(self).shared_queue == old(self).shared_queue,
            final(self).inflight@ == old(self).inflight@,
            final(self).polls == old(self).polls,
            ({
                let me = old(self).executor.current;
                &&& final(self).occ(me)
                &&& final(self).ctx(me) == (Context {
                    lifecycle: Lifecycle::Finished,
                    out: Some(out),
                    join_waker: None,
                    ..old(self).ctx(me)
                })
            }),
            ({
                let me = old(self).executor.current;
                match old(self).ctx(me).join_waker {
                    None => final(self).executor.run_queue@ == old(self).executor.run_queue@,
                    Some(j) => (old(self).occ(j) && j != me && old(self).ctx(j).status
                        == Status::Waiting && old(self).ctx(j).lifecycle != Lifecycle::Finished
                        && old(self).ctx(j).lifecycle != Lifecycle::Taken) ==> (final(self).ctx(
                        j,
                    ) == (Context {
                        status: Status::Queued,
                        refcount: (old(self).ctx(j).refcount + 1) as u64,
                        ..old(self).ctx(j)
                    }) && final(self).executor.run_queue@ == old(self).executor.run_queue@.push(
                        j,
                    )),
                }
            }),
    {
        let ghost pre = *self;
        let joiner = self.executor.finish_current(out);
        proof {
            self.lemma_rt_wf_one_slot(pre, self.executor.current);
        }
        let ghost mid = *self;
        if let Some(j) = joiner {
            if j.0 < self.executor.contexts.len() {
                if self.executor.contexts[j.0].is_some() {
                    proof {
                        assert(mid.occ(j));
                        if j != pre.executor.current {
                            assert(mid.ctx(j) == pre.ctx(j));
                            assert(pre.occ(j));
                        }
                        assert(mid.ctx(j).refcount < u64::MAX);
                    }
                    self.unpark(j);
                }
            }
        }
    }

    /// The exit path of a finished thread: hand the machine to the next
    /// runnable thread, releasing the finished frame's hold on its own
    /// context — or, when nothing is runnable, ask the caller to drive
    /// the reactor and try again.
    pub fn exit(&mut self, machine: &mut Registers) -> (r: ExitStep)
        requires
            old(self).wf(),
            old(self).ctx(old(self).executor.current).lifecycle == Lifecycle::Finished,
            !old(self).shared_queue.is_sleeping,
            forall|t: ThreadId|
                #[trigger] old(self).occ(t) ==> old(self).ctx(t).refcount < u64::MAX,
        ensures
            final(self).wf(),
            final(self).polls == old(self).polls,
            final(self).inflight@ == old(self).inflight@,
            old(self).executor.run_queue@.len() > 0 ==> ({
                let me = old(self).executor.current;
                let next = old(self).executor.run_queue@[0];
                let c = old(self).ctx(me);
                let me_slot: Option<Context> = if c.refcount > 1 {
                    Some(Context { refcount: (c.refcount - 1) as u64, ..c })
                } else if c.atomic_refcount > 1 {
                    Some(
                        Context {
                            refcount: 0,
                            atomic_refcount: (c.atomic_refcount - 1) as u64,
                            out: None,
                            ..c
                        },
                    )
                } else {
                    None
                };
                &&& r matches ExitStep::Switched(_)
                &&& final(self).executor.current == next
                &&& final(self).occ(next)
                &&& final(self).ctx(next) == spec_resumed_ctx(old(self).ctx(next))
                &&& *final(machine) == old(self).ctx(next).registers
                &&& final(self).executor.run_queue@ == old(self).executor.run_queue@.subrange(
                    1,
                    old(self).executor.run_queue@.len() as int,
                )
                &&& final(self).executor.contexts@ == old(self).executor.contexts@.update(
                    me.0 as int,
                    me_slot,
                ).update(next.0 as int, Some(spec_resumed_ctx(old(self).ctx(next))))
                &&& (c.refcount > 1 ==> final(self).occ(me) && final(self).ctx(me) == (Context {
                    refcount: (c.refcount - 1) as u64,
                    ..c
                }))
                &&& (c.refcount == 1 && c.atomic_refcount == 1 ==> !final(self).occ(me) && r
                    == ExitStep::Switched(ReleaseEffect::Deallocated))
            }),
            old(self).executor.run_queue@.len() == 0 ==> ({
                &&& r == (ExitStep::NeedReactor {
                    block: final(self).executor.run_queue@.len() == 0,
                })
                &&& final(self).shared_queue.queue@.len() == 0
                &&& final(self).shared_queue.is_sleeping == (final(self).executor.run_queue@.len() == 0)
                &&& (old(self).shared_queue.queue@.len() == 0 ==> final(self).executor == old(
                    self,
                ).executor)
            }),
    {
        let ghost pre = *self;
        let next = match self.executor.pop() {
            None => {
                // flag up, then drain, then the wait: a wake landing in
                // between is never lost
                self.begin_kernel_wait();
                proof {
                    assert forall|t: ThreadId| #[trigger] self.occ(t) implies self.ctx(
                        t,
                    ).refcount < u64::MAX by {
                        assert(old(self).occ(t));
                    }
                }
                self.drain_shared_queue();
                if self.executor.is_empty() {
                    return ExitStep::NeedReactor { block: true };
                } else {
                    self.end_kernel_wait();
                    return ExitStep::NeedReactor { block: false };
                }
            },
            Some(next) => next,
        };
        let ghost mid = *self;
        proof {
            assert(pre.executor.occ(next));
            assert(pre.executor.run_queue@.contains(next)) by {
                assert(pre.executor.run_queue@[0] == next);
            }
            assert(pre.ctx(next).refcount >= pre.executor.held_here(next));
            assert(next != pre.executor.current) by {
                if next == pre.executor.current {
                    assert(pre.ctx(next).status == Status::Queued);
                }
            }
            assert(!mid.executor.run_queue@.contains(next)) by {
                if mid.executor.run_queue@.contains(next) {
                    let k = choose|k: int|
                        0 <= k < mid.executor.run_queue@.len() && mid.executor.run_queue@[k]
                            == next;
                    assert(pre.executor.run_queue@[k + 1] == next);
                }
            }
            self.lemma_rt_wf_after_pop(pre, next);
            let me = pre.executor.current;
            assert(pre.executor.occ(me));
            assert(pre.ctx(me).refcount >= 1) by {
                assert(pre.ctx(me).refcount >= pre.executor.held_here(me));
                assert(pre.executor.exec_hold(me));
            }
            if pre.ctx(me).refcount == 1 {
                assert(pre.ctx(me).atomic_refcount >= 1);
                if pre.ctx(me).atomic_refcount == 1 {
                    lemma_count_nonneg(pre.shared_queue.queue@, me);
                    assert(pre.sq_count(me) == 0);
                }
                assert(!pre.intag(me)) by {
                    if pre.intag(me) {
                        assert(pre.ctx(me).refcount >= pre.executor.held_here(me) + 1);
                        assert(pre.executor.exec_hold(me));
                    }
                }
            }
        }
        let e = self.executor.exit_to(next, machine);
        proof {
            let post = *self;
            let me = pre.executor.current;
            assert(post.ctx(next).refcount >= 1) by {
                if pre.ctx(next).lifecycle == Lifecycle::New {
                } else {
                    assert(pre.ctx(next).refcount >= pre.executor.held_here(next));
                }
            }
            assert forall|i: int|
                0 <= i < post.shared_queue.queue@.len() implies post.executor.occ(
                #[trigger] post.shared_queue.queue@[i],
            ) by {
                assert(pre.executor.occ(pre.shared_queue.queue@[i]));
                if pre.shared_queue.queue@[i] == me && !post.executor.occ(me) {
                    assert(pre.shared_queue.queue@.contains(me));
                    lemma_member_count(pre.shared_queue.queue@, me);
                }
            }
            assert forall|t2: ThreadId| #[trigger] post.executor.occ(t2) implies post.ctx(
                t2,
            ).atomic_refcount >= post.sq_count(t2) + (if post.ctx(t2).refcount >= 1 {
                1int
            } else {
                0int
            }) by {
                assert(pre.executor.occ(t2));
                assert(post.sq_count(t2) == pre.sq_count(t2));
            }
            assert forall|t2: ThreadId| #[trigger] post.executor.occ(t2) implies ((post.sq_count(
                t2,
            ) >= 1 && post.ctx(t2).lifecycle != Lifecycle::Finished && post.ctx(t2).lifecycle
                != Lifecycle::Taken) ==> post.ctx(t2).refcount >= 1) by {
                assert(pre.executor.occ(t2));
                assert(post.sq_count(t2) == pre.sq_count(t2));
                if t2 == next {
                    assert(post.ctx(next).refcount >= 1);
                }
            }
            assert forall|i: int|
                0 <= i < post.inflight@.len() implies post.executor.occ(
                #[trigger] post.inflight@[i],
            ) by {
                assert(pre.executor.occ(pre.inflight@[i]));
                if pre.inflight@[i] == me && !post.executor.occ(me) {
                    assert(pre.intag(me));
                }
            }
            assert forall|t2: ThreadId| #[trigger] post.executor.occ(t2) implies (post.intag(t2)
                ==> post.ctx(t2).refcount >= post.executor.held_here(t2) + 1 && post.ctx(
                t2,
            ).io_result is None) by {
                assert(pre.executor.occ(t2));
            }
        }
        ExitStep::Switched(e)
    }

    /// One turn of a join: a finished target hands over its output and
    /// becomes `Taken`; otherwise the running thread is recorded as the
    /// joiner — to be woken when the target finishes — and should park.
    pub fn try_join_step(&mut self, handle: ThreadId) -> (r: JoinPoll)
        requires
            old(self).wf(),
            old(self).occ(handle),
            handle != old(self).executor.current,
            old(self).ctx(handle).lifecycle != Lifecycle::Taken,
            old(self).ctx(handle).lifecycle != Lifecycle::OsThread,
            old(self).ctx(handle).refcount >= 1,
        ensures
            final(self).wf(),
            final(self).executor.current == old(self).executor.current,
            final(self).executor.run_queue@ == old(self).executor.run_queue@,
            final(self).shared_queue == old(self).shared_queue,
            final(self).inflight@ == old(self).inflight@,
            final(self).polls == old(self).polls,
            old(self).ctx(handle).lifecycle == Lifecycle::Finished ==> ({
                &&& r == JoinPoll::Ready(old(self).ctx(handle).out->0)
                &&& final(self).ctx(handle) == (Context {
                    lifecycle: Lifecycle::Taken,
                    out: None,
                    ..old(self).ctx(handle)
                })
                &&& final(self).executor.contexts@ == old(self).executor.contexts@.update(
                    handle.0 as int,
                    Some(
                        Context {
                            lifecycle: Lifecycle::Taken,
                            out: None,
                            ..old(self).ctx(handle)
                        },
                    ),
                )
            }),
            old(self).ctx(handle).lifecycle != Lifecycle::Finished ==> ({
                &&& r == JoinPoll::NotYet
                &&& final(self).ctx(handle) == (Context {
                    join_waker: Some(old(self).executor.current),
                    ..old(self).ctx(handle)
                })
                &&& final(self).executor.contexts@ == old(self).executor.contexts@.update(
                    handle.0 as int,
                    Some(
                        Context {
                            join_waker: Some(old(self).executor.current),
                            ..old(self).ctx(handle)
                        },
                    ),
                )
            }),
    {
        let ghost pre = *self;
        let finished = matches!(self.executor.ctx_read(handle).lifecycle, Lifecycle::Finished);
        if finished {
            let out = self.executor.take_output(handle);
            proof {
                self.lemma_rt_wf_one_slot(pre, handle);
            }
            JoinPoll::Ready(out)
        } else {
            self.executor.subscribe_join(handle);
            proof {
                self.lemma_rt_wf_one_slot(pre, handle);
            }
            JoinPoll::NotYet
        }
    }

    /// One turn of the shutdown loop: while any green thread whose body
    /// has not finished remains beyond the operating-system root, every
    /// live context is cancelled and made runnable, and the caller should
    /// yield; once the root alone is still at work, shutdown is complete
    /// — a finished thread whose handle is merely still held does not
    /// stall it.
    pub fn shutdown_step(&mut self) -> (done: bool)
        requires
            old(self).wf(),
            forall|t: ThreadId|
                #[trigger] old(self).occ(t) ==> old(self).ctx(t).refcount < u64::MAX,
        ensures
            final(self).wf(),
            done <==> crate::executor::spec_unfinished_slots(old(self).executor.contexts@) <= 1,
            done ==> *final(self) == *old(self),
            !done ==> ({
                &&& final(self).executor.current == old(self).executor.current
                &&& final(self).shared_queue == old(self).shared_queue
                &&& final(self).inflight@ == old(self).inflight@
                &&& final(self).polls == old(self).polls
                &&& forall|t: ThreadId|
                    #[trigger] final(self).occ(t) ==> final(self).ctx(t).is_cancelled && (final(self).ctx(t).lifecycle != Lifecycle::Finished && final(self).ctx(t).lifecycle
                        != Lifecycle::Taken ==> final(self).ctx(t).status == Status::Queued)
            }),
    {
        let ghost pre = *self;
        if self.executor.unfinished_contexts() > 1 {
            proof {
                assert forall|t: ThreadId| #[trigger] self.executor.occ(t) implies self.executor.ctx(
                    t,
                ).refcount < u64::MAX by {
                    assert(pre.occ(t));
                }
            }
            self.executor.unpark_all();
            proof {
                let post = *self;
                assert forall|i: int|
                    0 <= i < post.shared_queue.queue@.len() implies post.executor.occ(
                    #[trigger] post.shared_queue.queue@[i],
                ) by {
                    assert(pre.executor.occ(pre.shared_queue.queue@[i]));
                }
                assert forall|t2: ThreadId| #[trigger] post.executor.occ(t2) implies post.ctx(
                    t2,
                ).atomic_refcount >= post.sq_count(t2) + (if post.ctx(t2).refcount >= 1 {
                    1int
                } else {
                    0int
                }) by {
                    assert(pre.executor.occ(t2));
                    assert(post.sq_count(t2) == pre.sq_count(t2));
                    if pre.ctx(t2).refcount == 0 && post.ctx(t2).refcount >= 1 {
                        assert(pre.ctx(t2).lifecycle != Lifecycle::Finished && pre.ctx(
                            t2,
                        ).lifecycle != Lifecycle::Taken);
                        lemma_count_nonneg(pre.shared_queue.queue@, t2);
                        assert(pre.sq_count(t2) == 0);
                        assert(pre.ctx(t2).atomic_refcount >= 1);
                    }
                }
                assert forall|t2: ThreadId| #[trigger] post.executor.occ(t2) implies ((
                post.sq_count(t2) >= 1 && post.ctx(t2).lifecycle != Lifecycle::Finished
                    && post.ctx(t2).lifecycle != Lifecycle::Taken) ==> post.ctx(t2).refcount
                    >= 1) by {
                    assert(pre.executor.occ(t2));
                    assert(post.sq_count(t2) == pre.sq_count(t2));
                }
                assert forall|i: int|
                    0 <= i < post.inflight@.len() implies post.executor.occ(
                    #[trigger] post.inflight@[i],
                ) by {
                    assert(pre.executor.occ(pre.inflight@[i]));
                }
                assert forall|t2: ThreadId| #[trigger] post.executor.occ(t2) implies (post.intag(
                    t2,
                ) ==> post.ctx(t2).refcount >= post.executor.held_here(t2) + 1 && post.ctx(
                    t2,
                ).io_result is None) by {
                    assert(pre.executor.occ(t2));
                }
            }
            false
        } else {
            true
        }
    }

    /// Re-establishes the runtime invariant after an executor step that
    /// freed `t`'s slot — or emptied its counts — while `t` had no waker
    /// in the shared queue and no tag in flight, with everything else
    /// untouched.
    proof fn lemma_rt_wf_slot_gone(self, pre: Runtime, t: ThreadId)
        requires
            pre.wf(),
            pre.occ(t),
            !pre.intag(t),
            self.executor.wf(),
            self.shared_queue == pre.shared_queue,
            self.inflight@ == pre.inflight@,
            forall|x: ThreadId|
                x != t ==> ((#[trigger] self.executor.occ(x) <==> pre.executor.occ(x)) && (
                pre.executor.occ(x) ==> self.ctx(x) == pre.ctx(x) && self.executor.held_here(x)
                    == pre.executor.held_here(x))),
            !self.executor.occ(t) ==> pre.sq_count(t) == 0,
            self.executor.occ(t) ==> ({
                let c1 = self.ctx(t);
                &&& c1.atomic_refcount >= pre.sq_count(t) + (if c1.refcount >= 1 {
                    1int
                } else {
                    0int
                })
                &&& (pre.sq_count(t) >= 1 && c1.lifecycle != Lifecycle::Finished && c1.lifecycle
                    != Lifecycle::Taken ==> c1.refcount >= 1)
            }),
        ensures
            self.wf(),
    {
        let post = self;
        assert forall|i: int|
            0 <= i < post.shared_queue.queue@.len() implies post.executor.occ(
            #[trigger] post.shared_queue.queue@[i],
        ) by {
            assert(pre.executor.occ(pre.shared_queue.queue@[i]));
            if pre.shared_queue.queue@[i] == t && !post.executor.occ(t) {
                assert(pre.shared_queue.queue@.contains(t));
                lemma_member_count(pre.shared_queue.queue@, t);
            }
        }
        assert forall|t2: ThreadId| #[trigger] post.executor.occ(t2) implies post.ctx(
            t2,
        ).atomic_refcount >= post.sq_count(t2) + (if post.ctx(t2).refcount >= 1 {
            1int
        } else {
            0int
        }) by {
            if t2 == t {
                assert(post.sq_count(t) == pre.sq_count(t));
            } else {
                assert(pre.executor.occ(t2));
                assert(post.sq_count(t2) == pre.sq_count(t2));
            }
        }
        assert forall|t2: ThreadId| #[trigger] post.executor.occ(t2) implies ((post.sq_count(t2)
            >= 1 && post.ctx(t2).lifecycle != Lifecycle::Finished && post.ctx(t2).lifecycle
            != Lifecycle::Taken) ==> post.ctx(t2).refcount >= 1) by {
            if t2 == t {
                assert(post.sq_count(t) == pre.sq_count(t));
            } else {
                assert(pre.executor.occ(t2));
                assert(post.sq_count(t2) == pre.sq_count(t2));
            }
        }
        assert forall|i: int|
            0 <= i < post.inflight@.len() implies post.executor.occ(
            #[trigger] post.inflight@[i],
        ) by {
            assert(pre.executor.occ(pre.inflight@[i]));
            if pre.inflight@[i] == t {
                assert(pre.intag(t));
            }
        }
        assert forall|t2: ThreadId| #[trigger] post.executor.occ(t2) implies (post.intag(t2)
            ==> post.ctx(t2).refcount >= post.executor.held_here(t2) + 1 && post.ctx(
            t2,
        ).io_result is None) by {
            if t2 == t {
                if post.intag(t) {
                    assert(pre.intag(t));
                }
            } else {
                assert(pre.executor.occ(t2));
            }
        }
    }
}

/// The context of a thread the scheduler just popped and switched into:
/// the queue entry's hold released and — on first entry — the body
/// entered, its new frame taking a hold of its own.
pub open spec fn spec_resumed_ctx(c: Context) -> Context {
    Context {
        status: Status::Waiting,
        lifecycle: if c.lifecycle == Lifecycle::New {
            Lifecycle::Running
        } else {
            c.lifecycle
        },
        refcount: if c.lifecycle == Lifecycle::New {
            c.refcount
        } else {
            (c.refcount - 1) as u64
        },
        ..c
    }
}

/// The context of a thread after the drain consumed `n` of its posted
/// wakers: `n` cross-thread holds released; a target that could still
/// run is `Queued`, a waiting one took the run-queue entry's local hold.
pub open spec fn spec_drained_ctx(c: Context, n: int) -> Context {
    Context {
        atomic_refcount: (c.atomic_refcount - n) as u64,
        refcount: if c.status == Status::Waiting && c.lifecycle != Lifecycle::Finished
            && c.lifecycle != Lifecycle::Taken && n >= 1 {
            (c.refcount + 1) as u64
        } else {
            c.refcount
        },
        status: if c.status == Status::Queued || (c.lifecycle != Lifecycle::Finished
            && c.lifecycle != Lifecycle::Taken && n >= 1) {
            Status::Queued
        } else {
            c.status
        },
        ..c
    }
}

/// What one exit step asked of its caller.
#[derive(PartialEq, Eq, Structural, Debug, Clone, Copy)]
pub enum ExitStep {
    /// The machine was handed to the next runnable thread; the payload
    /// says what became of the finished context's allocation.
    Switched(ReleaseEffect),
    /// Nothing is runnable: drive the reactor — blocking exactly when
    /// `block` says so — feed the completions back, and exit again.
    NeedReactor { block: bool },
}

/// What one join turn produced.
#[derive(PartialEq, Eq, Debug)]
pub enum JoinPoll {
    /// The target finished: its report, a value or a panic message.
    Ready(Outcome),
    /// The target is still at work; the caller is recorded as its joiner
    /// and should park.
    NotYet,
}

/// What one park asked of its caller.
#[derive(PartialEq, Eq, Structural, Debug, Clone, Copy)]
pub enum ParkResult {
    /// The machine was handed to the next runnable thread; the caller
    /// resumes when it is scheduled again.
    Switched,
    /// Nothing is runnable and no reactor work was owed; park again.
    Idle,
    /// The reactor must be driven: flush pending submissions, block for
    /// completions exactly when `block` says so, feed each completion
    /// back, then park again.
    NeedReactor { block: bool },
}

/// Removing the front entry of a sequence changes no other membership.
proof fn lemma_tail_contains(s: Seq<ThreadId>, x: ThreadId)
    requires
        s.len() > 0,
        x != s[0],
    ensures
        s.subrange(1, s.len() as int).contains(x) <==> s.contains(x),
{
    let tail = s.subrange(1, s.len() as int);
    if tail.contains(x) {
        let k = choose|k: int| 0 <= k < tail.len() && tail[k] == x;
        assert(s[k + 1] == x);
    }
    if s.contains(x) {
        let k = choose|k: int| 0 <= k < s.len() && s[k] == x;
        assert(tail[k - 1] == x);
    }
}

/// Removing one entry of a duplicate-free sequence removes exactly that
/// member.
proof fn lemma_remove_distinct_contains(s: Seq<ThreadId>, i: int, x: ThreadId)
    requires
        0 <= i < s.len(),
        forall|a: int, b: int| 0 <= a < b < s.len() ==> s[a] != s[b],
    ensures
        s.remove(i).contains(x) <==> (s.contains(x) && x != s[i]),
{
    let r = s.remove(i);
    if r.contains(x) {
        let k = choose|k: int| 0 <= k < r.len() && r[k] == x;
        if k < i {
            assert(s[k] == x);
        } else {
            assert(s[k + 1] == x);
        }
        assert(s.contains(x));
    }
    if s.contains(x) && x != s[i] {
        let k = choose|k: int| 0 <= k < s.len() && s[k] == x;
        if k < i {
            assert(r[k] == x);
        } else {
            assert(r[k - 1] == x);
        }
        assert(r.contains(x));
    }
}

/// Dropping a prefix never raises a count.
proof fn lemma_count_suffix_le(s: Seq<ThreadId>, k: int, t: ThreadId)
    requires
        0 <= k <= s.len(),
    ensures
        count_of(s.subrange(k, s.len() as int), t) <= count_of(s, t),
    decreases k,
{
    if k == 0 {
        assert(s.subrange(0, s.len() as int) =~= s);
    } else {
        lemma_count_suffix_le(s, k - 1, t);
        let a = s.subrange(k - 1, s.len() as int);
        lemma_count_tail(a, t);
        assert(a.subrange(1, a.len() as int) =~= s.subrange(k, s.len() as int));
    }
}

/// A sequence with a positive count for `t` contains `t`.
proof fn lemma_count_member(s: Seq<ThreadId>, t: ThreadId)
    requires
        count_of(s, t) >= 1,
    ensures
        s.contains(t),
    decreases s.len(),
{
    if s.len() > 0 {
        if s.last() == t {
            assert(s[s.len() - 1] == t);
        } else {
            lemma_count_member(s.drop_last(), t);
            let i = choose|i: int| 0 <= i < s.drop_last().len() && s.drop_last()[i] == t;
            assert(s[i] == t);
        }
    }
}

/// A sequence containing `t` counts `t` at least once.
proof fn lemma_member_count(s: Seq<ThreadId>, t: ThreadId)
    requires
        s.contains(t),
    ensures
        count_of(s, t) >= 1,
    decreases s.len(),
{
    lemma_count_nonneg(s.drop_last(), t);
    if s.last() != t {
        let i = choose|i: int| 0 <= i < s.len() && s[i] == t;
        assert(s.drop_last()[i] == t);
        lemma_member_count(s.drop_last(), t);
    }
}

} // verus!
