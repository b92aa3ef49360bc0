//! The per-operating-system-thread scheduler.
//!
//! The executor owns every live context of its runtime in one table,
//! indexed by `ThreadId`, together with the FIFO run queue and the
//! `current` slot.  Its well-formedness predicate ties the pieces
//! together: a context's `Queued` flag holds exactly when the context sits
//! in the run queue, the queue never holds a context twice, a finished
//! context is never runnable, and the reference counts never fall below
//! the holds the scheduler itself has on a context.  Every operation
//! preserves the predicate, and the FIFO discipline of the queue is part
//! of each operation's contract.

use vstd::prelude::*;

use crate::context::{Context, Lifecycle, Outcome, Status, ThreadId};
use crate::registers::Registers;

verus! {

/// What the release of a local handle did to the context's allocation.
#[derive(Clone, Copy, PartialEq, Eq, Structural, Debug)]
pub enum ReleaseEffect {
    /// Other local handles remain; only the count moved.
    Kept,
    /// The last local handle went away: the payload was destroyed, but
    /// live cross-thread wakers keep the allocation.
    PayloadDropped,
    /// Both counts reached zero: the allocation was returned.
    Deallocated,
}

pub struct Executor {
    /// The context table: one slot per identifier, `None` once the
    /// allocation has been returned.
    pub contexts: Vec<Option<Context>>,
    /// The FIFO run queue, front at index zero.
    pub run_queue: Vec<ThreadId>,
    /// The context whose stack the machine is executing on.
    pub current: ThreadId,
}

impl Executor {
    /// Whether `t` names a live context.
    pub open spec fn occ(self, t: ThreadId) -> bool {
        t.0 < self.contexts@.len() && self.contexts@[t.0 as int] is Some
    }

    /// The context named by `t`.
    pub open spec fn ctx(self, t: ThreadId) -> Context {
        self.contexts@[t.0 as int]->0
    }

    /// Whether `t`'s suspended or running frame holds a reference on its
    /// own context: true from the first switch into the body (which takes
    /// the hold) until the exit path releases it, and always true for the
    /// operating-system root.
    pub open spec fn exec_hold(self, t: ThreadId) -> bool {
        ||| self.ctx(t).lifecycle == Lifecycle::Running
        ||| self.ctx(t).lifecycle == Lifecycle::OsThread
        ||| (self.ctx(t).lifecycle == Lifecycle::Finished && t == self.current)
    }

    /// How many holds the scheduler itself has on `t`: one for a run-queue
    /// entry, one for the live frame of a context that has been entered.
    pub open spec fn held_here(self, t: ThreadId) -> int {
        (if self.run_queue@.contains(t) {
            1int
        } else {
            0int
        }) + (if self.exec_hold(t) {
            1int
        } else {
            0int
        })
    }

    /// Every run-queue entry names a live context.
    pub open spec fn queue_members_live(self) -> bool {
        forall|i: int|
            0 <= i < self.run_queue@.len() ==> self.occ(#[trigger] self.run_queue@[i])
    }

    /// A context appears in the run queue at most once.
    pub open spec fn queue_distinct(self) -> bool {
        forall|i: int, j: int|
            0 <= i < j < self.run_queue@.len() ==> self.run_queue@[i] != self.run_queue@[j]
    }

    /// A context's `Queued` flag holds exactly when the context sits in
    /// the run queue.
    pub open spec fn statuses_match_queue(self) -> bool {
        forall|t: ThreadId|
            #[trigger] self.occ(t) ==> (self.ctx(t).status == Status::Queued <==> self.run_queue@.contains(
                t,
            ))
    }

    /// A context whose body has finished is never runnable again.
    pub open spec fn finished_not_queued(self) -> bool {
        forall|t: ThreadId|
            #[trigger] self.occ(t) ==> ((self.ctx(t).lifecycle == Lifecycle::Finished
                || self.ctx(t).lifecycle == Lifecycle::Taken) ==> self.ctx(t).status
                == Status::Waiting)
    }

    /// The `current` slot names a live context that is mid-execution: its
    /// body is running, it is the operating-system root, or it has just
    /// finished and stands in its exit path.
    pub open spec fn current_live(self) -> bool {
        &&& self.occ(self.current)
        &&& (self.ctx(self.current).lifecycle == Lifecycle::Running || self.ctx(
            self.current,
        ).lifecycle == Lifecycle::OsThread || self.ctx(self.current).lifecycle
            == Lifecycle::Finished)
    }

    /// The reference-count discipline: a live context is held by someone,
    /// the local count covers the scheduler's own holds, and the local
    /// side keeps one cross-thread unit as long as any local handle lives.
    pub open spec fn counts_ok(self) -> bool {
        forall|t: ThreadId|
            #[trigger] self.occ(t) ==> {
                &&& self.ctx(t).refcount + self.ctx(t).atomic_refcount >= 1
                &&& self.ctx(t).refcount >= self.held_here(t)
                &&& (self.ctx(t).refcount >= 1 ==> self.ctx(t).atomic_refcount >= 1)
            }
    }

    /// The output slot follows the lifecycle: only a finished body has
    /// reported an output, and it is still there as long as a local handle
    /// could join on it.
    pub open spec fn outputs_match(self) -> bool {
        forall|t: ThreadId|
            #[trigger] self.occ(t) ==> {
                &&& (self.ctx(t).out is Some ==> self.ctx(t).lifecycle == Lifecycle::Finished)
                &&& (self.ctx(t).lifecycle == Lifecycle::Finished && self.ctx(t).refcount >= 1
                    ==> self.ctx(t).out is Some)
            }
    }

    /// The executor's invariant.
    pub open spec fn wf(self) -> bool {
        &&& self.queue_members_live()
        &&& self.queue_distinct()
        &&& self.statuses_match_queue()
        &&& self.finished_not_queued()
        &&& self.current_live()
        &&& self.counts_ok()
        &&& self.outputs_match()
    }

    /// A fresh executor: its only context is the operating-system root,
    /// which is current — holding the one local handle its live frame
    /// carries and the local side's cross-thread unit — and the run queue
    /// is empty.
    pub fn new(root_name: Option<String>) -> (e: Executor)
        ensures
            e.wf(),
            e.contexts@.len() == 1,
            e.current == (ThreadId(0usize)),
            e.occ(e.current),
            e.ctx(e.current).lifecycle == Lifecycle::OsThread,
            e.ctx(e.current).name == root_name,
            e.ctx(e.current).status == Status::Waiting,
            e.ctx(e.current).refcount == 1,
            e.ctx(e.current).atomic_refcount == 1,
            !e.ctx(e.current).is_cancelled,
            e.ctx(e.current).join_waker is None,
            e.ctx(e.current).io_result is None,
            e.ctx(e.current).out is None,
            e.ctx(e.current).stack.size == 0,
            e.run_queue@.len() == 0,
    {
        let root = Context::for_os_thread(root_name);
        let mut contexts: Vec<Option<Context>> = Vec::new();
        contexts.push(Some(root));
        let e = Executor { contexts, run_queue: Vec::new(), current: ThreadId(0) };
        proof {
            assert forall|t: ThreadId| #[trigger] e.occ(t) implies t == (ThreadId(0usize)) by {}
        }
        e
    }

    /// The identity of the running context, without taking a hold.
    pub fn current_id(&self) -> (t: ThreadId)
        ensures
            t == self.current,
    {
        self.current
    }

    /// A cloned handle to the running context: one more local hold,
    /// which the caller owns and eventually releases.
    pub fn current(&mut self) -> (t: ThreadId)
        requires
            old(self).wf(),
            old(self).ctx(old(self).current).refcount < u64::MAX,
        ensures
            final(self).wf(),
            t == old(self).current,
            final(self).contexts@ == old(self).contexts@.update(
                t.0 as int,
                Some(
                    Context {
                        refcount: (old(self).ctx(t).refcount + 1) as u64,
                        ..old(self).ctx(t)
                    },
                ),
            ),
            final(self).run_queue@ == old(self).run_queue@,
            final(self).current == old(self).current,
    {
        let t = self.current;
        proof {
            assert(self.occ(t));
            assert(self.ctx(t).refcount >= self.held_here(t));
            assert(self.exec_hold(t));
        }
        self.retain(t);
        t
    }

    /// Whether the run queue is empty.
    pub fn is_empty(&self) -> (r: bool)
        ensures
            r <==> self.run_queue@.len() == 0,
    {
        self.run_queue.len() == 0
    }

    /// A borrow of the context named by `t`.
    pub fn ctx_read(&self, t: ThreadId) -> (c: &Context)
        requires
            self.occ(t),
        ensures
            *c == self.ctx(t),
    {
        match &self.contexts[t.0] {
            Some(c) => c,
            None => vstd::pervasive::unreached(),
        }
    }

    /// Makes `t` runnable: appends it to the tail of the run queue and
    /// takes one hold on it.  Idempotent on an already-queued context, and
    /// a silent no-op on a finished one.
    pub fn push(&mut self, t: ThreadId)
        requires
            old(self).wf(),
            old(self).occ(t),
            old(self).ctx(t).refcount < u64::MAX,
        ensures
            final(self).wf(),
            ({
                let c = old(self).ctx(t);
                if c.status == Status::Queued || c.lifecycle == Lifecycle::Finished || c.lifecycle
                    == Lifecycle::Taken {
                    *final(self) == *old(self)
                } else {
                    &&& final(self).contexts@ == old(self).contexts@.update(
                        t.0 as int,
                        Some(
                            Context {
                                status: Status::Queued,
                                refcount: (c.refcount + 1) as u64,
                                ..c
                            },
                        ),
                    )
                    &&& final(self).run_queue@ == old(self).run_queue@.push(t)
                    &&& final(self).current == old(self).current
                }
            }),
    {
        let ghost pre = *self;
        let c = self.ctx_read(t);
        if matches!(c.status, Status::Queued) || matches!(c.lifecycle, Lifecycle::Finished)
            || matches!(c.lifecycle, Lifecycle::Taken) {
            return ;
        }
        let cm = ctx_mut(&mut self.contexts, t);
        cm.status = Status::Queued;
        cm.refcount = cm.refcount + 1;
        self.run_queue.push(t);
        proof {
            let post = *self;
            lemma_contains_push(pre.run_queue@, t, t);
            assert forall|x: ThreadId| #[trigger] post.occ(x) implies pre.occ(x) by {}
            assert forall|i: int|
                0 <= i < post.run_queue@.len() implies post.occ(
                #[trigger] post.run_queue@[i],
            ) by {
                if i < pre.run_queue@.len() {
                    assert(pre.occ(pre.run_queue@[i]));
                }
            }
            assert forall|i: int, j: int|
                0 <= i < j < post.run_queue@.len() implies post.run_queue@[i]
                != post.run_queue@[j] by {
                if j == post.run_queue@.len() - 1 {
                    // the new tail entry is t, which was not queued before
                    assert(post.run_queue@[j] == t);
                    assert(pre.run_queue@[i] == post.run_queue@[i]);
                    if pre.run_queue@[i] == t {
                        assert(pre.run_queue@.contains(t));
                        assert(pre.ctx(t).status == Status::Queued);
                    }
                }
            }
            assert forall|x: ThreadId| #[trigger] post.occ(x) implies (post.ctx(x).status
                == Status::Queued <==> post.run_queue@.contains(x)) by {
                lemma_contains_push(pre.run_queue@, t, x);
                assert(pre.occ(x));
            }
            assert forall|x: ThreadId| #[trigger] post.occ(x) implies ((post.ctx(x).lifecycle
                == Lifecycle::Finished || post.ctx(x).lifecycle == Lifecycle::Taken) ==> post.ctx(
                x,
            ).status == Status::Waiting) by {
                assert(pre.occ(x));
            }
            assert forall|x: ThreadId| #[trigger] post.occ(x) implies {
                &&& post.ctx(x).refcount + post.ctx(x).atomic_refcount >= 1
                &&& post.ctx(x).refcount >= post.held_here(x)
                &&& (post.ctx(x).refcount >= 1 ==> post.ctx(x).atomic_refcount >= 1)
            } by {
                assert(pre.occ(x));
                lemma_contains_push(pre.run_queue@, t, x);
            }
            assert forall|x: ThreadId| #[trigger] post.occ(x) implies {
                &&& (post.ctx(x).out is Some ==> post.ctx(x).lifecycle == Lifecycle::Finished)
                &&& (post.ctx(x).lifecycle == Lifecycle::Finished && post.ctx(x).refcount >= 1
                    ==> post.ctx(x).out is Some)
            } by {
                assert(pre.occ(x));
            }
        }
    }

    /// Removes and returns the front of the run queue, releasing its
    /// `Queued` flag and the hold the queue entry had on it.  The queue is
    /// FIFO: the context returned is exactly the one that entered the
    /// queue earliest.
    pub fn pop(&mut self) -> (r: Option<ThreadId>)
        requires
            old(self).wf(),
        ensures
            final(self).wf(),
            old(self).run_queue@.len() == 0 ==> r is None && *final(self) == *old(self),
            old(self).run_queue@.len() > 0 ==> {
                let t = old(self).run_queue@[0];
                &&& r == Some(t)
                &&& old(self).occ(t)
                &&& final(self).run_queue@ == old(self).run_queue@.subrange(
                    1,
                    old(self).run_queue@.len() as int,
                )
                &&& final(self).contexts@ == old(self).contexts@.update(
                    t.0 as int,
                    Some(
                        Context {
                            status: Status::Waiting,
                            refcount: (old(self).ctx(t).refcount - 1) as u64,
                            ..old(self).ctx(t)
                        },
                    ),
                )
                &&& final(self).current == old(self).current
                &&& old(self).ctx(t).lifecycle != Lifecycle::Finished
                &&& old(self).ctx(t).lifecycle != Lifecycle::Taken
            },
    {
        let ghost pre = *self;
        if self.run_queue.len() == 0 {
            return None;
        }
        let t = self.run_queue.remove(0);
        proof {
            assert(pre.run_queue@.remove(0) =~= pre.run_queue@.subrange(
                1,
                pre.run_queue@.len() as int,
            ));
            assert(pre.run_queue@.contains(t)) by {
                assert(pre.run_queue@[0] == t);
            }
            assert(pre.occ(t));
            assert(pre.ctx(t).status == Status::Queued);
            assert(pre.ctx(t).refcount >= pre.held_here(t));
        }
        let cm = ctx_mut(&mut self.contexts, t);
        cm.status = Status::Waiting;
        cm.refcount = cm.refcount - 1;
        proof {
            let post = *self;
            assert forall|x: ThreadId| #[trigger] post.occ(x) implies pre.occ(x) by {}
            assert forall|i: int|
                0 <= i < post.run_queue@.len() implies post.occ(
                #[trigger] post.run_queue@[i],
            ) by {
                assert(post.run_queue@[i] == pre.run_queue@[i + 1]);
                assert(pre.occ(pre.run_queue@[i + 1]));
            }
            assert forall|i: int, j: int|
                0 <= i < j < post.run_queue@.len() implies post.run_queue@[i]
                != post.run_queue@[j] by {
                assert(post.run_queue@[i] == pre.run_queue@[i + 1]);
                assert(post.run_queue@[j] == pre.run_queue@[j + 1]);
            }
            // t does not remain in the tail of the queue
            assert(!post.run_queue@.contains(t)) by {
                if post.run_queue@.contains(t) {
                    let k = choose|k: int|
                        0 <= k < post.run_queue@.len() && post.run_queue@[k] == t;
                    assert(pre.run_queue@[k + 1] == t);
                    assert(pre.run_queue@[0] == t);
                }
            }
            assert forall|x: ThreadId| #[trigger] post.occ(x) implies (post.ctx(x).status
                == Status::Queued <==> post.run_queue@.contains(x)) by {
                assert(pre.occ(x));
                if x != t {
                    if post.run_queue@.contains(x) {
                        let k = choose|k: int|
                            0 <= k < post.run_queue@.len() && post.run_queue@[k] == x;
                        assert(pre.run_queue@[k + 1] == x);
                        assert(pre.run_queue@.contains(x));
                    }
                    if pre.run_queue@.contains(x) {
                        let k = choose|k: int|
                            0 <= k < pre.run_queue@.len() && pre.run_queue@[k] == x;
                        assert(k != 0);
                        assert(post.run_queue@[k - 1] == x);
                        assert(post.run_queue@.contains(x));
                    }
                }
            }
            assert forall|x: ThreadId| #[trigger] post.occ(x) implies ((post.ctx(x).lifecycle
                == Lifecycle::Finished || post.ctx(x).lifecycle == Lifecycle::Taken) ==> post.ctx(
                x,
            ).status == Status::Waiting) by {
                assert(pre.occ(x));
            }
            assert forall|x: ThreadId| #[trigger] post.occ(x) implies {
                &&& post.ctx(x).refcount + post.ctx(x).atomic_refcount >= 1
                &&& post.ctx(x).refcount >= post.held_here(x)
                &&& (post.ctx(x).refcount >= 1 ==> post.ctx(x).atomic_refcount >= 1)
            } by {
                assert(pre.occ(x));
                if post.run_queue@.contains(x) {
                    let k = choose|k: int|
                        0 <= k < post.run_queue@.len() && post.run_queue@[k] == x;
                    assert(pre.run_queue@[k + 1] == x);
                    assert(pre.run_queue@.contains(x));
                }
            }
            assert forall|x: ThreadId| #[trigger] post.occ(x) implies {
                &&& (post.ctx(x).out is Some ==> post.ctx(x).lifecycle == Lifecycle::Finished)
                &&& (post.ctx(x).lifecycle == Lifecycle::Finished && post.ctx(x).refcount >= 1
                    ==> post.ctx(x).out is Some)
            } by {
                assert(pre.occ(x));
            }
        }
        Some(t)
    }
    /// Hands the machine to `next`: saves the machine's callee-saved state
    /// into the outgoing context's bank, loads the incoming context's
    /// bank, and moves the `current` slot.  A switch to the context that
    /// is already current is a no-op.  The first switch into a fresh
    /// context enters its body: its lifecycle moves from `New` to
    /// `Running` and its new frame takes a hold on it.  The outgoing
    /// context keeps its own hold — it lives on in its suspended frame
    /// until the context is resumed or exits.
    pub fn switch_to(&mut self, next: ThreadId, machine: &mut Registers)
        requires
            old(self).wf(),
            old(self).occ(next),
            old(self).ctx(next).status == Status::Waiting || next == old(self).current,
            old(self).ctx(next).lifecycle != Lifecycle::Finished,
            old(self).ctx(next).lifecycle != Lifecycle::Taken,
            old(self).ctx(old(self).current).lifecycle != Lifecycle::Finished,
            old(self).ctx(next).refcount < u64::MAX,
        ensures
            final(self).wf(),
            next == old(self).current ==> *final(self) == *old(self) && *final(machine) == *old(
                machine,
            ),
            next != old(self).current ==> ({
                let prev = old(self).current;
                let pc = old(self).ctx(prev);
                let nc = old(self).ctx(next);
                &&& final(self).current == next
                &&& final(self).run_queue@ == old(self).run_queue@
                &&& final(self).contexts@ == old(self).contexts@.update(
                    prev.0 as int,
                    Some(Context { registers: *old(machine), ..pc }),
                ).update(
                    next.0 as int,
                    Some(
                        Context {
                            lifecycle: if nc.lifecycle == Lifecycle::New {
                                Lifecycle::Running
                            } else {
                                nc.lifecycle
                            },
                            refcount: if nc.lifecycle == Lifecycle::New {
                                (nc.refcount + 1) as u64
                            } else {
                                nc.refcount
                            },
                            ..nc
                        },
                    ),
                )
                &&& *final(machine) == nc.registers
            }),
    {
        let ghost pre = *self;
        let prev = self.current;
        if next.0 == prev.0 {
            return ;
        }
        proof {
            assert(pre.occ(pre.current));
        }
        let pm = ctx_mut(&mut self.contexts, prev);
        pm.registers = *machine;
        let nm = ctx_mut(&mut self.contexts, next);
        if matches!(nm.lifecycle, Lifecycle::New) {
            nm.lifecycle = Lifecycle::Running;
            nm.refcount = nm.refcount + 1;
        }
        *machine = nm.registers;
        self.current = next;
        proof {
            let post = *self;
            assert forall|x: ThreadId| #[trigger] post.occ(x) implies pre.occ(x) by {}
            assert forall|i: int|
                0 <= i < post.run_queue@.len() implies post.occ(
                #[trigger] post.run_queue@[i],
            ) by {
                assert(pre.occ(pre.run_queue@[i]));
            }
            assert forall|x: ThreadId| #[trigger] post.occ(x) implies (post.ctx(x).status
                == Status::Queued <==> post.run_queue@.contains(x)) by {
                assert(pre.occ(x));
            }
            assert forall|x: ThreadId| #[trigger] post.occ(x) implies ((post.ctx(x).lifecycle
                == Lifecycle::Finished || post.ctx(x).lifecycle == Lifecycle::Taken) ==> post.ctx(
                x,
            ).status == Status::Waiting) by {
                assert(pre.occ(x));
            }
            assert forall|x: ThreadId| #[trigger] post.occ(x) implies {
                &&& post.ctx(x).refcount + post.ctx(x).atomic_refcount >= 1
                &&& post.ctx(x).refcount >= post.held_here(x)
                &&& (post.ctx(x).refcount >= 1 ==> post.ctx(x).atomic_refcount >= 1)
            } by {
                assert(pre.occ(x));
                assert(pre.ctx(x).refcount >= pre.held_here(x));
            }
            assert forall|x: ThreadId| #[trigger] post.occ(x) implies {
                &&& (post.ctx(x).out is Some ==> post.ctx(x).lifecycle == Lifecycle::Finished)
                &&& (post.ctx(x).lifecycle == Lifecycle::Finished && post.ctx(x).refcount >= 1
                    ==> post.ctx(x).out is Some)
            } by {
                assert(pre.occ(x));
            }
        }
    }

    /// Records that the current context's body has returned: the
    /// lifecycle moves to `Finished`, the output slot takes the body's
    /// report, and the join slot is emptied and handed back so the caller
    /// can unpark the joined thread.
    pub fn finish_current(&mut self, out: Outcome) -> (joiner: Option<ThreadId>)
        requires
            old(self).wf(),
            old(self).ctx(old(self).current).lifecycle == Lifecycle::Running,
            old(self).ctx(old(self).current).status == Status::Waiting,
        ensures
            final(self).wf(),
            joiner == old(self).ctx(old(self).current).join_waker,
            ({
                let me = old(self).current;
                let c = old(self).ctx(me);
                &&& final(self).contexts@ == old(self).contexts@.update(
                    me.0 as int,
                    Some(
                        Context {
                            lifecycle: Lifecycle::Finished,
                            out: Some(out),
                            join_waker: None,
                            ..c
                        },
                    ),
                )
                &&& final(self).run_queue@ == old(self).run_queue@
                &&& final(self).current == old(self).current
            }),
    {
        let ghost pre = *self;
        let me = self.current;
        let cm = ctx_mut(&mut self.contexts, me);
        cm.lifecycle = Lifecycle::Finished;
        cm.out = Some(out);
        let joiner = cm.join_waker.take();
        proof {
            let post = *self;
            assert forall|x: ThreadId| #[trigger] post.occ(x) implies pre.occ(x) by {}
            assert forall|i: int|
                0 <= i < post.run_queue@.len() implies post.occ(
                #[trigger] post.run_queue@[i],
            ) by {
                assert(pre.occ(pre.run_queue@[i]));
            }
            assert(!pre.run_queue@.contains(me));
            assert forall|x: ThreadId| #[trigger] post.occ(x) implies (post.ctx(x).status
                == Status::Queued <==> post.run_queue@.contains(x)) by {
                assert(pre.occ(x));
            }
            assert forall|x: ThreadId| #[trigger] post.occ(x) implies ((post.ctx(x).lifecycle
                == Lifecycle::Finished || post.ctx(x).lifecycle == Lifecycle::Taken) ==> post.ctx(
                x,
            ).status == Status::Waiting) by {
                assert(pre.occ(x));
            }
            assert forall|x: ThreadId| #[trigger] post.occ(x) implies {
                &&& post.ctx(x).refcount + post.ctx(x).atomic_refcount >= 1
                &&& post.ctx(x).refcount >= post.held_here(x)
                &&& (post.ctx(x).refcount >= 1 ==> post.ctx(x).atomic_refcount >= 1)
            } by {
                assert(pre.occ(x));
                assert(pre.ctx(x).refcount >= pre.held_here(x));
            }
            assert forall|x: ThreadId| #[trigger] post.occ(x) implies {
                &&& (post.ctx(x).out is Some ==> post.ctx(x).lifecycle == Lifecycle::Finished)
                &&& (post.ctx(x).lifecycle == Lifecycle::Finished && post.ctx(x).refcount >= 1
                    ==> post.ctx(x).out is Some)
            } by {
                assert(pre.occ(x));
            }
        }
        joiner
    }

    /// Extracts a finished context's output for a join: the lifecycle
    /// moves to `Taken` and the output slot is emptied.
    pub fn take_output(&mut self, t: ThreadId) -> (out: Outcome)
        requires
            old(self).wf(),
            old(self).occ(t),
            t != old(self).current,
            old(self).ctx(t).lifecycle == Lifecycle::Finished,
            old(self).ctx(t).refcount >= 1,
        ensures
            final(self).wf(),
            Some(out) == old(self).ctx(t).out,
            final(self).contexts@ == old(self).contexts@.update(
                t.0 as int,
                Some(Context { lifecycle: Lifecycle::Taken, out: None, ..old(self).ctx(t) }),
            ),
            final(self).run_queue@ == old(self).run_queue@,
            final(self).current == old(self).current,
    {
        let ghost pre = *self;
        let cm = ctx_mut(&mut self.contexts, t);
        cm.lifecycle = Lifecycle::Taken;
        let out = match cm.out.take() {
            Some(out) => out,
            None => vstd::pervasive::unreached(),
        };
        proof {
            let post = *self;
            assert forall|x: ThreadId| #[trigger] post.occ(x) implies pre.occ(x) by {}
            assert forall|i: int|
                0 <= i < post.run_queue@.len() implies post.occ(
                #[trigger] post.run_queue@[i],
            ) by {
                assert(pre.occ(pre.run_queue@[i]));
            }
            assert forall|x: ThreadId| #[trigger] post.occ(x) implies (post.ctx(x).status
                == Status::Queued <==> post.run_queue@.contains(x)) by {
                assert(pre.occ(x));
            }
            assert forall|x: ThreadId| #[trigger] post.occ(x) implies ((post.ctx(x).lifecycle
                == Lifecycle::Finished || post.ctx(x).lifecycle == Lifecycle::Taken) ==> post.ctx(
                x,
            ).status == Status::Waiting) by {
                assert(pre.occ(x));
            }
            assert forall|x: ThreadId| #[trigger] post.occ(x) implies {
                &&& post.ctx(x).refcount + post.ctx(x).atomic_refcount >= 1
                &&& post.ctx(x).refcount >= post.held_here(x)
                &&& (post.ctx(x).refcount >= 1 ==> post.ctx(x).atomic_refcount >= 1)
            } by {
                assert(pre.occ(x));
                assert(pre.ctx(x).refcount >= pre.held_here(x));
            }
            assert forall|x: ThreadId| #[trigger] post.occ(x) implies {
                &&& (post.ctx(x).out is Some ==> post.ctx(x).lifecycle == Lifecycle::Finished)
                &&& (post.ctx(x).lifecycle == Lifecycle::Finished && post.ctx(x).refcount >= 1
                    ==> post.ctx(x).out is Some)
            } by {
                assert(pre.occ(x));
            }
        }
        out
    }
    /// Allocates a fresh context, inserts it into the table, and makes it
    /// runnable at the tail of the run queue.  The returned identifier
    /// carries the one local handle `spawn` hands to its caller; the
    /// queue entry holds a second.
    pub fn spawn(
        &mut self,
        registers: Registers,
        stack: crate::stack::Stack,
        layout: crate::context::AllocLayout,
        name: Option<String>,
    ) -> (t: ThreadId)
        requires
            old(self).wf(),
            old(self).contexts@.len() < usize::MAX,
        ensures
            final(self).wf(),
            t.0 == old(self).contexts@.len(),
            final(self).contexts@ == old(self).contexts@.push(
                Some(
                    Context {
                        registers,
                        stack,
                        layout,
                        name,
                        lifecycle: Lifecycle::New,
                        status: Status::Queued,
                        refcount: 2,
                        atomic_refcount: 1,
                        is_cancelled: false,
                        join_waker: None,
                        io_result: None,
                        out: None,
                    },
                ),
            ),
            final(self).run_queue@ == old(self).run_queue@.push(t),
            final(self).current == old(self).current,
    {
        let ghost pre = *self;
        let t = ThreadId(self.contexts.len());
        let fresh = Context::fresh(registers, stack, layout, name);
        self.contexts.push(Some(fresh));
        proof {
            let mid = *self;
            assert(mid.occ(t));
            assert(!mid.run_queue@.contains(t)) by {
                if mid.run_queue@.contains(t) {
                    let k = choose|k: int|
                        0 <= k < mid.run_queue@.len() && mid.run_queue@[k] == t;
                    assert(pre.occ(pre.run_queue@[k]));
                }
            }
            assert forall|x: ThreadId| #[trigger] mid.occ(x) && x != t implies pre.occ(x) by {}
            assert forall|i: int|
                0 <= i < mid.run_queue@.len() implies mid.occ(#[trigger] mid.run_queue@[i]) by {
                assert(pre.occ(pre.run_queue@[i]));
            }
            assert forall|x: ThreadId| #[trigger] mid.occ(x) implies (mid.ctx(x).status
                == Status::Queued <==> mid.run_queue@.contains(x)) by {
                if x != t {
                    assert(pre.occ(x));
                }
            }
            assert forall|x: ThreadId| #[trigger] mid.occ(x) implies ((mid.ctx(x).lifecycle
                == Lifecycle::Finished || mid.ctx(x).lifecycle == Lifecycle::Taken) ==> mid.ctx(
                x,
            ).status == Status::Waiting) by {
                if x != t {
                    assert(pre.occ(x));
                }
            }
            assert forall|x: ThreadId| #[trigger] mid.occ(x) implies {
                &&& mid.ctx(x).refcount + mid.ctx(x).atomic_refcount >= 1
                &&& mid.ctx(x).refcount >= mid.held_here(x)
                &&& (mid.ctx(x).refcount >= 1 ==> mid.ctx(x).atomic_refcount >= 1)
            } by {
                if x != t {
                    assert(pre.occ(x));
                    assert(pre.ctx(x).refcount >= pre.held_here(x));
                }
            }
            assert forall|x: ThreadId| #[trigger] mid.occ(x) implies {
                &&& (mid.ctx(x).out is Some ==> mid.ctx(x).lifecycle == Lifecycle::Finished)
                &&& (mid.ctx(x).lifecycle == Lifecycle::Finished && mid.ctx(x).refcount >= 1
                    ==> mid.ctx(x).out is Some)
            } by {
                if x != t {
                    assert(pre.occ(x));
                }
            }
            assert(mid.wf());
        }
        let ghost mid = *self;
        self.push(t);
        proof {
            assert(final(self).contexts@ =~= pre.contexts@.push(
                Some(
                    Context {
                        registers,
                        stack,
                        layout,
                        name: mid.ctx(t).name,
                        lifecycle: Lifecycle::New,
                        status: Status::Queued,
                        refcount: 2,
                        atomic_refcount: 1,
                        is_cancelled: false,
                        join_waker: None,
                        io_result: None,
                        out: None,
                    },
                ),
            ));
        }
        t
    }

    /// Clones a local handle: one more local hold on `t`.
    pub fn retain(&mut self, t: ThreadId)
        requires
            old(self).wf(),
            old(self).occ(t),
            old(self).ctx(t).refcount >= 1,
            old(self).ctx(t).refcount < u64::MAX,
        ensures
            final(self).wf(),
            final(self).contexts@ == old(self).contexts@.update(
                t.0 as int,
                Some(
                    Context {
                        refcount: (old(self).ctx(t).refcount + 1) as u64,
                        ..old(self).ctx(t)
                    },
                ),
            ),
            final(self).run_queue@ == old(self).run_queue@,
            final(self).current == old(self).current,
    {
        let ghost pre = *self;
        let cm = ctx_mut(&mut self.contexts, t);
        cm.refcount = cm.refcount + 1;
        proof {
            self.lemma_wf_after_slot_change(pre, t);
        }
    }

    /// Releases a local handle.  When the last local handle goes away the
    /// payload is destroyed — per the drop policy of [`drop_action`] — and
    /// the local side's cross-thread unit is released; when no waker
    /// remains either, the allocation is returned.  Releasing the last
    /// handle of a context whose frame is still live, or one still sitting
    /// in the run queue, is a programming error and excluded.
    ///
    /// [`drop_action`]: crate::context::drop_action
    pub fn release(&mut self, t: ThreadId) -> (e: ReleaseEffect)
        requires
            old(self).wf(),
            old(self).occ(t),
            old(self).ctx(t).refcount > old(self).held_here(t),
        ensures
            final(self).wf(),
            final(self).run_queue@ == old(self).run_queue@,
            final(self).current == old(self).current,
            ({
                let c = old(self).ctx(t);
                if c.refcount > 1 {
                    &&& e == ReleaseEffect::Kept
                    &&& final(self).contexts@ == old(self).contexts@.update(
                        t.0 as int,
                        Some(Context { refcount: (c.refcount - 1) as u64, ..c }),
                    )
                } else if c.atomic_refcount > 1 {
                    &&& e == ReleaseEffect::PayloadDropped
                    &&& final(self).contexts@ == old(self).contexts@.update(
                        t.0 as int,
                        Some(
                            Context {
                                refcount: 0,
                                atomic_refcount: (c.atomic_refcount - 1) as u64,
                                out: None,
                                ..c
                            },
                        ),
                    )
                } else {
                    &&& e == ReleaseEffect::Deallocated
                    &&& final(self).contexts@ == old(self).contexts@.update(t.0 as int, None)
                }
            }),
    {
        let ghost pre = *self;
        proof {
            assert(pre.ctx(t).refcount >= 1);
            if pre.ctx(t).refcount == 1 {
                assert(pre.held_here(t) == 0);
                assert(pre.ctx(t).atomic_refcount >= 1);
            }
        }
        let rc = self.ctx_read(t).refcount;
        if rc > 1 {
            let cm = ctx_mut(&mut self.contexts, t);
            cm.refcount = cm.refcount - 1;
            proof {
                self.lemma_wf_after_slot_change(pre, t);
            }
            ReleaseEffect::Kept
        } else {
            let atomic = self.ctx_read(t).atomic_refcount;
            if atomic > 1 {
                let cm = ctx_mut(&mut self.contexts, t);
                cm.refcount = 0;
                cm.atomic_refcount = cm.atomic_refcount - 1;
                cm.out = None;
                proof {
                    self.lemma_wf_after_slot_change(pre, t);
                }
                ReleaseEffect::PayloadDropped
            } else {
                slot_clear(&mut self.contexts, t);
                proof {
                    self.lemma_wf_after_slot_freed(pre, t);
                }
                ReleaseEffect::Deallocated
            }
        }
    }

    /// Clones a cross-thread waker: one more atomic hold on `t`.  Callable
    /// from any operating-system thread in the running system; here the
    /// count moves on the shared record.
    pub fn waker_clone(&mut self, t: ThreadId)
        requires
            old(self).wf(),
            old(self).occ(t),
            old(self).ctx(t).atomic_refcount >= 1,
            old(self).ctx(t).atomic_refcount < u64::MAX,
        ensures
            final(self).wf(),
            final(self).contexts@ == old(self).contexts@.update(
                t.0 as int,
                Some(
                    Context {
                        atomic_refcount: (old(self).ctx(t).atomic_refcount + 1) as u64,
                        ..old(self).ctx(t)
                    },
                ),
            ),
            final(self).run_queue@ == old(self).run_queue@,
            final(self).current == old(self).current,
    {
        let ghost pre = *self;
        let cm = ctx_mut(&mut self.contexts, t);
        cm.atomic_refcount = cm.atomic_refcount + 1;
        proof {
            self.lemma_wf_after_slot_change(pre, t);
        }
    }

    /// Releases a cross-thread waker.  A waker may outlive its green
    /// thread: when the local side is already gone and this was the last
    /// waker, the drop returns the allocation; otherwise only the count
    /// moves.  The local side's own unit can never be released this way.
    pub fn waker_drop(&mut self, t: ThreadId) -> (e: ReleaseEffect)
        requires
            old(self).wf(),
            old(self).occ(t),
            old(self).ctx(t).atomic_refcount >= 1,
            old(self).ctx(t).atomic_refcount == 1 ==> old(self).ctx(t).refcount == 0,
        ensures
            final(self).wf(),
            final(self).run_queue@ == old(self).run_queue@,
            final(self).current == old(self).current,
            ({
                let c = old(self).ctx(t);
                if c.atomic_refcount > 1 {
                    &&& e == ReleaseEffect::Kept
                    &&& final(self).contexts@ == old(self).contexts@.update(
                        t.0 as int,
                        Some(
                            Context {
                                atomic_refcount: (c.atomic_refcount - 1) as u64,
                                ..c
                            },
                        ),
                    )
                } else {
                    &&& e == ReleaseEffect::Deallocated
                    &&& final(self).contexts@ == old(self).contexts@.update(t.0 as int, None)
                }
            }),
    {
        let ghost pre = *self;
        let atomic = self.ctx_read(t).atomic_refcount;
        if atomic > 1 {
            let cm = ctx_mut(&mut self.contexts, t);
            cm.atomic_refcount = cm.atomic_refcount - 1;
            proof {
                self.lemma_wf_after_slot_change(pre, t);
            }
            ReleaseEffect::Kept
        } else {
            proof {
                assert(pre.ctx(t).refcount >= pre.held_here(t));
            }
            slot_clear(&mut self.contexts, t);
            proof {
                self.lemma_wf_after_slot_freed(pre, t);
            }
            ReleaseEffect::Deallocated
        }
    }

    /// Records the current context as the joiner of `t`: when `t`'s body
    /// finishes, the scheduler will wake the recorded thread.
    pub fn subscribe_join(&mut self, t: ThreadId)
        requires
            old(self).wf(),
            old(self).occ(t),
        ensures
            final(self).wf(),
            final(self).contexts@ == old(self).contexts@.update(
                t.0 as int,
                Some(Context { join_waker: Some(old(self).current), ..old(self).ctx(t) }),
            ),
            final(self).run_queue@ == old(self).run_queue@,
            final(self).current == old(self).current,
    {
        let ghost pre = *self;
        let me = self.current;
        let cm = ctx_mut(&mut self.contexts, t);
        cm.join_waker = Some(me);
        proof {
            self.lemma_wf_after_slot_change(pre, t);
        }
    }

    /// Writes a kernel completion value into `t`'s mailbox.  The mailbox
    /// must be empty: a completion arrives at most once per submitted
    /// operation.
    pub fn set_io_result(&mut self, t: ThreadId, value: i32)
        requires
            old(self).wf(),
            old(self).occ(t),
            old(self).ctx(t).io_result is None,
        ensures
            final(self).wf(),
            final(self).contexts@ == old(self).contexts@.update(
                t.0 as int,
                Some(Context { io_result: Some(value), ..old(self).ctx(t) }),
            ),
            final(self).run_queue@ == old(self).run_queue@,
            final(self).current == old(self).current,
    {
        let ghost pre = *self;
        let cm = ctx_mut(&mut self.contexts, t);
        cm.io_result = Some(value);
        proof {
            self.lemma_wf_after_slot_change(pre, t);
        }
    }

    /// Drains `t`'s completion mailbox.
    pub fn take_io_result(&mut self, t: ThreadId) -> (r: Option<i32>)
        requires
            old(self).wf(),
            old(self).occ(t),
        ensures
            final(self).wf(),
            r == old(self).ctx(t).io_result,
            final(self).contexts@ == old(self).contexts@.update(
                t.0 as int,
                Some(Context { io_result: None, ..old(self).ctx(t) }),
            ),
            final(self).run_queue@ == old(self).run_queue@,
            final(self).current == old(self).current,
    {
        let ghost pre = *self;
        let cm = ctx_mut(&mut self.contexts, t);
        let r = cm.io_result.take();
        proof {
            self.lemma_wf_after_slot_change(pre, t);
        }
        r
    }

    /// The exit path of a finished green thread: its frame's hold on its
    /// own context is released — possibly returning the allocation, when
    /// nobody joined and no waker remains — and the machine is handed to
    /// `next` without saving, since the finished thread never resumes.
    pub fn exit_to(&mut self, next: ThreadId, machine: &mut Registers) -> (e: ReleaseEffect)
        requires
            old(self).wf(),
            old(self).ctx(old(self).current).lifecycle == Lifecycle::Finished,
            old(self).occ(next),
            next != old(self).current,
            old(self).ctx(next).status == Status::Waiting,
            old(self).ctx(next).lifecycle != Lifecycle::Finished,
            old(self).ctx(next).lifecycle != Lifecycle::Taken,
            old(self).ctx(next).refcount < u64::MAX,
        ensures
            final(self).wf(),
            final(self).current == next,
            final(self).run_queue@ == old(self).run_queue@,
            *final(machine) == old(self).ctx(next).registers,
            ({
                let me = old(self).current;
                let c = old(self).ctx(me);
                let nc = old(self).ctx(next);
                let me_slot: Option<Context> = if c.refcount > 1 {
                    Some(Context { refcount: (c.refcount - 1) as u64, ..c })
                } else if c.atomic_refcount > 1 {
                    Some(
                        Context {
                            refcount: 0,
                            atomic_refcount: (c.atomic_refcount - 1) as u64,
                            out: None,
                            ..c
                        },
                    )
                } else {
                    None
                };
                &&& final(self).contexts@ == old(self).contexts@.update(
                    me.0 as int,
                    me_slot,
                ).update(
                    next.0 as int,
                    Some(
                        Context {
                            lifecycle: if nc.lifecycle == Lifecycle::New {
                                Lifecycle::Running
                            } else {
                                nc.lifecycle
                            },
                            refcount: if nc.lifecycle == Lifecycle::New {
                                (nc.refcount + 1) as u64
                            } else {
                                nc.refcount
                            },
                            ..nc
                        },
                    ),
                )
                &&& e == (if c.refcount > 1 {
                    ReleaseEffect::Kept
                } else if c.atomic_refcount > 1 {
                    ReleaseEffect::PayloadDropped
                } else {
                    ReleaseEffect::Deallocated
                })
            }),
    {
        let ghost pre = *self;
        let me = self.current;
        proof {
            assert(pre.occ(me));
            assert(pre.ctx(me).refcount >= pre.held_here(me));
            assert(pre.exec_hold(me));
            assert(!pre.run_queue@.contains(me));
            assert(pre.ctx(me).refcount >= 1);
            if pre.ctx(me).refcount == 1 {
                assert(pre.ctx(me).atomic_refcount >= 1);
            }
        }
        let rc = self.ctx_read(me).refcount;
        let e = if rc > 1 {
            let cm = ctx_mut(&mut self.contexts, me);
            cm.refcount = cm.refcount - 1;
            ReleaseEffect::Kept
        } else {
            let atomic = self.ctx_read(me).atomic_refcount;
            if atomic > 1 {
                let cm = ctx_mut(&mut self.contexts, me);
                cm.refcount = 0;
                cm.atomic_refcount = cm.atomic_refcount - 1;
                cm.out = None;
                ReleaseEffect::PayloadDropped
            } else {
                slot_clear(&mut self.contexts, me);
                ReleaseEffect::Deallocated
            }
        };
        let nm = ctx_mut(&mut self.contexts, next);
        if matches!(nm.lifecycle, Lifecycle::New) {
            nm.lifecycle = Lifecycle::Running;
            nm.refcount = nm.refcount + 1;
        }
        *machine = nm.registers;
        self.current = next;
        proof {
            let post = *self;
            assert forall|x: ThreadId| #[trigger] post.occ(x) implies pre.occ(x) by {}
            assert forall|i: int|
                0 <= i < post.run_queue@.len() implies post.occ(
                #[trigger] post.run_queue@[i],
            ) by {
                assert(pre.occ(pre.run_queue@[i]));
                if pre.run_queue@[i] == me {
                    assert(pre.run_queue@.contains(me));
                }
            }
            assert forall|x: ThreadId| #[trigger] post.occ(x) implies (post.ctx(x).status
                == Status::Queued <==> post.run_queue@.contains(x)) by {
                assert(pre.occ(x));
            }
            assert forall|x: ThreadId| #[trigger] post.occ(x) implies ((post.ctx(x).lifecycle
                == Lifecycle::Finished || post.ctx(x).lifecycle == Lifecycle::Taken) ==> post.ctx(
                x,
            ).status == Status::Waiting) by {
                assert(pre.occ(x));
            }
            assert forall|x: ThreadId| #[trigger] post.occ(x) implies {
                &&& post.ctx(x).refcount + post.ctx(x).atomic_refcount >= 1
                &&& post.ctx(x).refcount >= post.held_here(x)
                &&& (post.ctx(x).refcount >= 1 ==> post.ctx(x).atomic_refcount >= 1)
            } by {
                assert(pre.occ(x));
                assert(pre.ctx(x).refcount >= pre.held_here(x));
            }
            assert forall|x: ThreadId| #[trigger] post.occ(x) implies {
                &&& (post.ctx(x).out is Some ==> post.ctx(x).lifecycle == Lifecycle::Finished)
                &&& (post.ctx(x).lifecycle == Lifecycle::Finished && post.ctx(x).refcount >= 1
                    ==> post.ctx(x).out is Some)
            } by {
                assert(pre.occ(x));
            }
        }
        e
    }

    /// The shutdown broadcast: marks every live context cancelled and
    /// makes every one of them runnable, so that cooperating threads can
    /// observe the flag and wind down.
    pub fn unpark_all(&mut self)
        requires
            old(self).wf(),
            forall|t: ThreadId|
                #[trigger] old(self).occ(t) ==> old(self).ctx(t).refcount < u64::MAX,
        ensures
            final(self).wf(),
            final(self).current == old(self).current,
            final(self).contexts@.len() == old(self).contexts@.len(),
            forall|t: ThreadId| #[trigger] final(self).occ(t) <==> old(self).occ(t),
            forall|t: ThreadId|
                #[trigger] final(self).occ(t) ==> {
                    let c0 = old(self).ctx(t);
                    let c1 = final(self).ctx(t);
                    &&& c1.is_cancelled
                    &&& c1.lifecycle == c0.lifecycle
                    &&& c1.out == c0.out
                    &&& c1.name == c0.name
                    &&& c1.join_waker == c0.join_waker
                    &&& c1.io_result == c0.io_result
                    &&& c1.atomic_refcount == c0.atomic_refcount
                    &&& (c0.lifecycle != Lifecycle::Finished && c0.lifecycle != Lifecycle::Taken
                        ==> c1.status == Status::Queued)
                    &&& (if c0.status == Status::Waiting && c0.lifecycle != Lifecycle::Finished
                        && c0.lifecycle != Lifecycle::Taken {
                        c1.refcount == c0.refcount + 1
                    } else {
                        c1.refcount == c0.refcount && c1.status == c0.status
                    })
                },
    {
        let ghost pre = *self;
        let n = self.contexts.len();
        let mut i: usize = 0;
        while i < n
            invariant
                self.wf(),
                self.contexts@.len() == n,
                self.current == pre.current,
                pre.wf(),
                i <= n,
                forall|t: ThreadId|
                    #[trigger] pre.occ(t) ==> pre.ctx(t).refcount < u64::MAX,
                forall|t: ThreadId| #[trigger] self.occ(t) <==> pre.occ(t),
                forall|t: ThreadId|
                    #[trigger] self.occ(t) ==> {
                        let c0 = pre.ctx(t);
                        let c1 = self.ctx(t);
                        &&& c1.lifecycle == c0.lifecycle
                        &&& c1.out == c0.out
                        &&& c1.name == c0.name
                        &&& c1.join_waker == c0.join_waker
                        &&& c1.io_result == c0.io_result
                        &&& c1.atomic_refcount == c0.atomic_refcount
                        &&& (t.0 >= i ==> c1.refcount == c0.refcount && c1.status == c0.status
                            && c1.is_cancelled == c0.is_cancelled)
                        &&& (t.0 < i ==> c1.is_cancelled)
                        &&& (t.0 < i && c0.lifecycle != Lifecycle::Finished && c0.lifecycle
                            != Lifecycle::Taken ==> c1.status == Status::Queued)
                        &&& (t.0 < i ==> (if c0.status == Status::Waiting && c0.lifecycle
                            != Lifecycle::Finished && c0.lifecycle != Lifecycle::Taken {
                            c1.refcount == c0.refcount + 1
                        } else {
                            c1.refcount == c0.refcount && c1.status == c0.status
                        }))
                    },
            decreases n - i,
        {
            let t = ThreadId(i);
            let ghost step0 = *self;
            if self.contexts[i].is_some() {
                proof {
                    assert(step0.occ(t));
                    assert(pre.occ(t));
                }
                let cm = ctx_mut(&mut self.contexts, t);
                cm.is_cancelled = true;
                proof {
                    self.lemma_wf_after_slot_change(step0, t);
                }
                let ghost step1 = *self;
                self.push(t);
                proof {
                    assert forall|x: ThreadId| #[trigger] self.occ(x) <==> pre.occ(x) by {
                        assert(self.occ(x) <==> step1.occ(x));
                        assert(step1.occ(x) <==> step0.occ(x));
                    }
                    assert forall|x: ThreadId| #[trigger] self.occ(x) implies {
                        let c0 = pre.ctx(x);
                        let c1 = self.ctx(x);
                        &&& c1.lifecycle == c0.lifecycle
                        &&& c1.out == c0.out
                        &&& c1.name == c0.name
                        &&& c1.join_waker == c0.join_waker
                        &&& c1.io_result == c0.io_result
                        &&& c1.atomic_refcount == c0.atomic_refcount
                        &&& (x.0 >= i + 1 ==> c1.refcount == c0.refcount && c1.status == c0.status
                            && c1.is_cancelled == c0.is_cancelled)
                        &&& (x.0 < i + 1 ==> c1.is_cancelled)
                        &&& (x.0 < i + 1 && c0.lifecycle != Lifecycle::Finished && c0.lifecycle
                            != Lifecycle::Taken ==> c1.status == Status::Queued)
                    } by {
                        assert(pre.occ(x));
                        assert(step0.occ(x));
                        assert(step1.occ(x));
                        if x == t {
                            if step1.ctx(t).status == Status::Queued {
                                assert(self.ctx(t) == step1.ctx(t));
                            }
                        }
                    }
                }
            }
            i = i + 1;
        }
    }

    /// The number of live contexts whose bodies have not yet finished.
    pub fn unfinished_contexts(&self) -> (n: usize)
        ensures
            n == spec_unfinished_slots(self.contexts@),
    {
        let mut n: usize = 0;
        let mut i: usize = 0;
        proof {
            lemma_unfinished_slots_bound(self.contexts@.subrange(0, self.contexts@.len() as int));
        }
        while i < self.contexts.len()
            invariant
                i <= self.contexts@.len(),
                n == spec_unfinished_slots(self.contexts@.subrange(0, i as int)),
                n <= i,
            decreases self.contexts@.len() - i,
        {
            proof {
                assert(self.contexts@.subrange(0, i as int + 1).drop_last() =~= self.contexts@.subrange(
                    0,
                    i as int,
                ));
                assert(self.contexts@.subrange(0, i as int + 1).last() == self.contexts@[i as int]);
                lemma_unfinished_slots_bound(self.contexts@.subrange(0, i as int));
            }
            let unfinished = match &self.contexts[i] {
                Some(c) => !matches!(c.lifecycle, Lifecycle::Finished) && !matches!(
                    c.lifecycle,
                    Lifecycle::Taken,
                ),
                None => false,
            };
            if unfinished {
                n = n + 1;
            }
            i = i + 1;
        }
        proof {
            assert(self.contexts@.subrange(0, self.contexts@.len() as int) =~= self.contexts@);
        }
        n
    }

    /// The number of live contexts in the table.
    pub fn live_contexts(&self) -> (n: usize)
        ensures
            n == spec_live_slots(self.contexts@),
    {
        let mut n: usize = 0;
        let mut i: usize = 0;
        proof {
            lemma_live_slots_bound(self.contexts@.subrange(0, self.contexts@.len() as int));
        }
        while i < self.contexts.len()
            invariant
                i <= self.contexts@.len(),
                n == spec_live_slots(self.contexts@.subrange(0, i as int)),
                n <= i,
            decreases self.contexts@.len() - i,
        {
            proof {
                assert(self.contexts@.subrange(0, i as int + 1).drop_last() =~= self.contexts@.subrange(
                    0,
                    i as int,
                ));
                assert(self.contexts@.subrange(0, i as int + 1).last() == self.contexts@[i as int]);
                lemma_live_slots_bound(self.contexts@.subrange(0, i as int));
            }
            if self.contexts[i].is_some() {
                n = n + 1;
            }
            i = i + 1;
        }
        proof {
            assert(self.contexts@.subrange(0, self.contexts@.len() as int) =~= self.contexts@);
        }
        n
    }

    /// Re-establishes the invariant after a change to one slot that did
    /// not move the slot's occupancy, the run queue, or the `current`
    /// slot, and that touched none of the fields the invariant watches —
    /// or moved them in a direction every clause tolerates.
    proof fn lemma_wf_after_slot_change(self, pre: Executor, t: ThreadId)
        requires
            pre.wf(),
            pre.occ(t),
            self.run_queue@ == pre.run_queue@,
            self.current == pre.current,
            self.contexts@.len() == pre.contexts@.len(),
            self.contexts@ == pre.contexts@.update(t.0 as int, self.contexts@[t.0 as int]),
            self.contexts@[t.0 as int] is Some,
            ({
                let c0 = pre.ctx(t);
                let c1 = self.ctx(t);
                &&& c1.status == c0.status
                &&& (c1.lifecycle == c0.lifecycle || (c0.lifecycle == Lifecycle::Finished
                    && c1.lifecycle == Lifecycle::Taken && t != pre.current))
                &&& (c1.refcount >= c0.refcount || (c1.refcount + 1 == c0.refcount
                    && c0.refcount > pre.held_here(t)) || (c1.refcount == 0 && c0.refcount == 1
                    && pre.held_here(t) == 0))
                &&& (c1.refcount >= 1 ==> c1.atomic_refcount >= 1)
                &&& c1.refcount + c1.atomic_refcount >= 1
                &&& (c1.out is Some ==> c1.lifecycle == Lifecycle::Finished)
                &&& (c1.lifecycle == Lifecycle::Finished && c1.refcount >= 1 ==> c1.out is Some)
            }),
        ensures
            self.wf(),
    {
        let post = self;
        assert forall|x: ThreadId| #[trigger] post.occ(x) implies pre.occ(x) by {}
        assert forall|i: int|
            0 <= i < post.run_queue@.len() implies post.occ(#[trigger] post.run_queue@[i]) by {
            assert(pre.occ(pre.run_queue@[i]));
        }
        assert forall|x: ThreadId| #[trigger] post.occ(x) implies (post.ctx(x).status
            == Status::Queued <==> post.run_queue@.contains(x)) by {
            assert(pre.occ(x));
        }
        assert forall|x: ThreadId| #[trigger] post.occ(x) implies ((post.ctx(x).lifecycle
            == Lifecycle::Finished || post.ctx(x).lifecycle == Lifecycle::Taken) ==> post.ctx(
            x,
        ).status == Status::Waiting) by {
            assert(pre.occ(x));
        }
        assert forall|x: ThreadId| #[trigger] post.occ(x) implies {
            &&& post.ctx(x).refcount + post.ctx(x).atomic_refcount >= 1
            &&& post.ctx(x).refcount >= post.held_here(x)
            &&& (post.ctx(x).refcount >= 1 ==> post.ctx(x).atomic_refcount >= 1)
        } by {
            assert(pre.occ(x));
            assert(pre.ctx(x).refcount >= pre.held_here(x));
        }
        assert forall|x: ThreadId| #[trigger] post.occ(x) implies {
            &&& (post.ctx(x).out is Some ==> post.ctx(x).lifecycle == Lifecycle::Finished)
            &&& (post.ctx(x).lifecycle == Lifecycle::Finished && post.ctx(x).refcount >= 1
                ==> post.ctx(x).out is Some)
        } by {
            assert(pre.occ(x));
        }
    }

    /// Re-establishes the invariant after one slot was freed.  The freed
    /// context must have had no scheduler holds: not in the run queue and
    /// without a live frame.
    proof fn lemma_wf_after_slot_freed(self, pre: Executor, t: ThreadId)
        requires
            pre.wf(),
            pre.occ(t),
            pre.held_here(t) == 0,
            t != pre.current,
            self.run_queue@ == pre.run_queue@,
            self.current == pre.current,
            self.contexts@ == pre.contexts@.update(t.0 as int, None),
        ensures
            self.wf(),
    {
        let post = self;
        assert forall|x: ThreadId| #[trigger] post.occ(x) implies pre.occ(x) && x != t by {}
        assert forall|i: int|
            0 <= i < post.run_queue@.len() implies post.occ(#[trigger] post.run_queue@[i]) by {
            assert(pre.occ(pre.run_queue@[i]));
            if pre.run_queue@[i] == t {
                assert(pre.run_queue@.contains(t));
            }
        }
        assert forall|x: ThreadId| #[trigger] post.occ(x) implies (post.ctx(x).status
            == Status::Queued <==> post.run_queue@.contains(x)) by {
            assert(pre.occ(x));
        }
        assert forall|x: ThreadId| #[trigger] post.occ(x) implies ((post.ctx(x).lifecycle
            == Lifecycle::Finished || post.ctx(x).lifecycle == Lifecycle::Taken) ==> post.ctx(
            x,
        ).status == Status::Waiting) by {
            assert(pre.occ(x));
        }
        assert forall|x: ThreadId| #[trigger] post.occ(x) implies {
            &&& post.ctx(x).refcount + post.ctx(x).atomic_refcount >= 1
            &&& post.ctx(x).refcount >= post.held_here(x)
            &&& (post.ctx(x).refcount >= 1 ==> post.ctx(x).atomic_refcount >= 1)
        } by {
            assert(pre.occ(x));
            assert(pre.ctx(x).refcount >= pre.held_here(x));
        }
        assert forall|x: ThreadId| #[trigger] post.occ(x) implies {
            &&& (post.ctx(x).out is Some ==> post.ctx(x).lifecycle == Lifecycle::Finished)
            &&& (post.ctx(x).lifecycle == Lifecycle::Finished && post.ctx(x).refcount >= 1
                ==> post.ctx(x).out is Some)
        } by {
            assert(pre.occ(x));
        }
    }
}

/// Frees slot `t` of the table.
fn slot_clear(contexts: &mut Vec<Option<Context>>, t: ThreadId)
    requires
        t.0 < old(contexts)@.len(),
    ensures
        final(contexts)@ == old(contexts)@.update(t.0 as int, None),
{
    let slot = &mut contexts[t.0];
    *slot = None;
}

/// A mutable borrow of the context in slot `t` of the table.
fn ctx_mut(contexts: &mut Vec<Option<Context>>, t: ThreadId) -> (c: &mut Context)
    requires
        t.0 < old(contexts)@.len(),
        old(contexts)@[t.0 as int] is Some,
    ensures
        *c == old(contexts)@[t.0 as int]->0,
        final(contexts)@ == old(contexts)@.update(t.0 as int, Some(*final(c))),
{
    match &mut contexts[t.0] {
        Some(c) => c,
        None => vstd::pervasive::unreached(),
    }
}

/// The number of occupied slots in a context table.
pub open spec fn spec_live_slots(s: Seq<Option<Context>>) -> int
    decreases s.len(),
{
    if s.len() == 0 {
        0
    } else {
        spec_live_slots(s.drop_last()) + if s.last() is Some {
            1int
        } else {
            0int
        }
    }
}

/// A table never holds more live slots than slots.
proof fn lemma_live_slots_bound(s: Seq<Option<Context>>)
    ensures
        0 <= spec_live_slots(s) <= s.len(),
    decreases s.len(),
{
    if s.len() > 0 {
        lemma_live_slots_bound(s.drop_last());
    }
}

/// The number of live contexts whose bodies have not yet finished: the
/// threads shutdown still has to wait for.
pub open spec fn spec_unfinished_slots(s: Seq<Option<Context>>) -> int
    decreases s.len(),
{
    if s.len() == 0 {
        0
    } else {
        spec_unfinished_slots(s.drop_last()) + (match s.last() {
            Some(c) => if c.lifecycle != Lifecycle::Finished && c.lifecycle != Lifecycle::Taken {
                1int
            } else {
                0int
            },
            None => 0int,
        })
    }
}

/// A table never holds more unfinished contexts than slots.
proof fn lemma_unfinished_slots_bound(s: Seq<Option<Context>>)
    ensures
        0 <= spec_unfinished_slots(s) <= s.len(),
    decreases s.len(),
{
    if s.len() > 0 {
        lemma_unfinished_slots_bound(s.drop_last());
    }
}

/// Every context's `Queued` flag agrees with its membership in the run
/// queue: a context is marked `Queued` exactly when some executor's run
/// queue holds it.
pub proof fn lemma_queued_iff_in_run_queue(e: Executor, t: ThreadId)
    requires
        e.wf(),
        e.occ(t),
    ensures
        e.ctx(t).status == Status::Queued <==> e.run_queue@.contains(t),
{
}

/// Every live context is held by someone: its local and cross-thread
/// reference counts never both reach zero while the context is reachable
/// from the executor or from any waker — reachability is occupancy of its
/// slot, and a slot is freed exactly when both counts are gone.
pub proof fn lemma_live_context_is_referenced(e: Executor, t: ThreadId)
    requires
        e.wf(),
        e.occ(t),
    ensures
        e.ctx(t).refcount + e.ctx(t).atomic_refcount >= 1,
{
}

/// At any scheduling point the machine executes exactly one context per
/// runtime — the executor's `current`, a single slot — and that context
/// is mid-execution: its body is running, it is the operating-system
/// root, or it stands in its exit path.  Every other context is `Waiting`
/// or `Queued`.
pub proof fn lemma_one_context_executes(e: Executor)
    requires
        e.wf(),
    ensures
        e.occ(e.current),
        e.ctx(e.current).lifecycle == Lifecycle::Running || e.ctx(e.current).lifecycle
            == Lifecycle::OsThread || e.ctx(e.current).lifecycle == Lifecycle::Finished,
        forall|t: ThreadId|
            #[trigger] e.occ(t) && t != e.current ==> (e.ctx(t).status == Status::Waiting
                || e.ctx(t).status == Status::Queued),
{
}

/// The run queue is first-in, first-out: after `a` and then `b` become
/// runnable in an empty queue, the next context the scheduler pops is
/// `a`.
pub fn unpark_two_pops_first(e: &mut Executor, a: ThreadId, b: ThreadId) -> (r: Option<ThreadId>)
    requires
        old(e).wf(),
        old(e).occ(a),
        old(e).occ(b),
        a != b,
        old(e).run_queue@.len() == 0,
        old(e).ctx(a).lifecycle != Lifecycle::Finished,
        old(e).ctx(a).lifecycle != Lifecycle::Taken,
        old(e).ctx(b).lifecycle != Lifecycle::Finished,
        old(e).ctx(b).lifecycle != Lifecycle::Taken,
        old(e).ctx(a).refcount < u64::MAX,
        old(e).ctx(b).refcount < u64::MAX,
    ensures
        r == Some(a),
        final(e).wf(),
{
    proof {
        assert(!old(e).run_queue@.contains(a));
        assert(!old(e).run_queue@.contains(b));
    }
    e.push(a);
    e.push(b);
    e.pop()
}

/// Appending to a sequence adds exactly one possible member.
pub proof fn lemma_contains_push(s: Seq<ThreadId>, x: ThreadId, y: ThreadId)
    ensures
        s.push(x).contains(y) <==> (s.contains(y) || y == x),
{
    if s.push(x).contains(y) {
        let k = choose|k: int| 0 <= k < s.push(x).len() && s.push(x)[k] == y;
        if k < s.len() {
            assert(s[k] == y);
        }
    }
    if s.contains(y) {
        let k = choose|k: int| 0 <= k < s.len() && s[k] == y;
        assert(s.push(x)[k] == y);
    }
    if y == x {
        assert(s.push(x)[s.len() as int] == y);
    }
}

} // verus!
