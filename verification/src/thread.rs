//! The public green-thread surface: spawn, current, park, yield, join.
//!
//! These are the entry points a thread's body uses, phrased over the
//! runtime they run on.  In the running system the runtime is an
//! operating-system-thread local; here it is passed in, which is also
//! what lets every call state exactly what it does to the scheduler.

use vstd::prelude::*;

use crate::builder::Builder;
use crate::context::{AllocLayout, Context, Lifecycle, Outcome, Status, ThreadId};
use crate::registers::Registers;
use crate::runtime::{JoinPoll, ParkResult, Runtime};
use crate::stack::Stack;

verus! {

/// A handle to a green thread.
#[derive(Clone, Copy, PartialEq, Eq, Structural, Debug)]
pub struct Thread(pub ThreadId);

impl Thread {
    /// The thread's identifier.
    pub fn id(&self) -> (r: ThreadId)
        ensures
            r == self.0,
    {
        self.0
    }

    /// The thread's name.
    pub fn name<'a>(&self, rt: &'a Runtime) -> (r: &'a Option<String>)
        requires
            rt.occ(self.0),
        ensures
            *r == rt.ctx(self.0).name,
    {
        rt.thread_name(self.0)
    }

    /// Wakes the thread to run in the future: unless it is already
    /// runnable or already finished, it enters the run queue at the tail
    /// — exactly once, the queue entry taking one hold on it — and its
    /// flag flips to `Queued`.
    pub fn unpark(&self, rt: &mut Runtime)
        requires
            old(rt).wf(),
            old(rt).occ(self.0),
            old(rt).ctx(self.0).refcount < u64::MAX,
        ensures
            final(rt).wf(),
            final(rt).shared_queue == old(rt).shared_queue,
            final(rt).inflight@ == old(rt).inflight@,
            final(rt).polls == old(rt).polls,
            ({
                let c = old(rt).ctx(self.0);
                if c.status == Status::Queued || c.lifecycle == Lifecycle::Finished || c.lifecycle
                    == Lifecycle::Taken {
                    final(rt).executor == old(rt).executor
                } else {
                    &&& final(rt).executor.contexts@ == old(rt).executor.contexts@.update(
                        self.0.0 as int,
                        Some(
                            Context {
                                status: Status::Queued,
                                refcount: (c.refcount + 1) as u64,
                                ..c
                            },
                        ),
                    )
                    &&& final(rt).executor.run_queue@ == old(rt).executor.run_queue@.push(self.0)
                    &&& final(rt).executor.current == old(rt).executor.current
                }
            }),
            ({
                let c = old(rt).ctx(self.0);
                (c.lifecycle != Lifecycle::Finished && c.lifecycle != Lifecycle::Taken)
                    ==> final(rt).ctx(self.0).status == Status::Queued && final(rt).executor.run_queue@.contains(self.0)
            }),
    {
        rt.unpark(self.0);
        proof {
            if old(rt).ctx(self.0).status == Status::Queued {
                assert(final(rt).ctx(self.0).status == Status::Queued);
                assert(final(rt).executor.run_queue@.contains(self.0));
            } else if old(rt).ctx(self.0).lifecycle != Lifecycle::Finished && old(rt).ctx(
                self.0,
            ).lifecycle != Lifecycle::Taken {
                assert(final(rt).executor.run_queue@.contains(self.0)) by {
                    let q = final(rt).executor.run_queue@;
                    assert(q[q.len() - 1] == self.0);
                }
            }
        }
    }
}

/// An owned permission to join on a green thread.  It carries one local
/// handle on the thread; releasing it without joining detaches the
/// thread.
pub struct JoinHandle(pub ThreadId);

impl JoinHandle {
    /// The handle's thread.
    pub fn thread(&self) -> (r: Thread)
        ensures
            r == (Thread(self.0)),
    {
        Thread(self.0)
    }

    /// One turn of a join: the finished target's report, or a
    /// subscription to be woken when it finishes, after which the caller
    /// parks and polls again.
    pub fn try_join_step(&self, rt: &mut Runtime) -> (r: JoinPoll)
        requires
            old(rt).wf(),
            old(rt).occ(self.0),
            self.0 != old(rt).executor.current,
            old(rt).ctx(self.0).lifecycle != Lifecycle::Taken,
            old(rt).ctx(self.0).lifecycle != Lifecycle::OsThread,
            old(rt).ctx(self.0).refcount >= 1,
        ensures
            final(rt).wf(),
            final(rt).executor.current == old(rt).executor.current,
            final(rt).executor.run_queue@ == old(rt).executor.run_queue@,
            final(rt).shared_queue == old(rt).shared_queue,
            final(rt).inflight@ == old(rt).inflight@,
            final(rt).polls == old(rt).polls,
            old(rt).ctx(self.0).lifecycle == Lifecycle::Finished ==> r == JoinPoll::Ready(
                old(rt).ctx(self.0).out->0,
            ) && final(rt).executor.contexts@ == old(rt).executor.contexts@.update(
                self.0.0 as int,
                Some(
                    Context {
                        lifecycle: Lifecycle::Taken,
                        out: None,
                        ..old(rt).ctx(self.0)
                    },
                ),
            ),
            old(rt).ctx(self.0).lifecycle != Lifecycle::Finished ==> r == JoinPoll::NotYet
                && final(rt).executor.contexts@ == old(rt).executor.contexts@.update(
                self.0.0 as int,
                Some(
                    Context {
                        join_waker: Some(old(rt).executor.current),
                        ..old(rt).ctx(self.0)
                    },
                ),
            ),
    {
        rt.try_join_step(self.0)
    }
}

/// Spawns an unnamed green thread with the builder defaults onto `rt`,
/// over the given mapped stack and initial register bank.
pub fn spawn(rt: &mut Runtime, stack: Stack, registers: Registers, layout: AllocLayout) -> (h:
    JoinHandle)
    requires
        old(rt).wf(),
        old(rt).executor.contexts@.len() < usize::MAX,
    ensures
        final(rt).wf(),
        h.0.0 == old(rt).executor.contexts@.len(),
        final(rt).occ(h.0),
        final(rt).ctx(h.0).lifecycle == Lifecycle::New,
        final(rt).ctx(h.0).status == Status::Queued,
        final(rt).ctx(h.0).name is None,
        final(rt).ctx(h.0).stack == stack,
        final(rt).ctx(h.0).registers == registers,
        final(rt).ctx(h.0).refcount == 2,
        final(rt).ctx(h.0).atomic_refcount == 1,
        !final(rt).ctx(h.0).is_cancelled,
        final(rt).ctx(h.0).join_waker is None,
        final(rt).ctx(h.0).io_result is None,
        final(rt).ctx(h.0).out is None,
        final(rt).executor.run_queue@ == old(rt).executor.run_queue@.push(h.0),
        final(rt).executor.contexts@.len() == old(rt).executor.contexts@.len() + 1,
        final(rt).shared_queue == old(rt).shared_queue,
        final(rt).inflight@ == old(rt).inflight@,
        final(rt).polls == old(rt).polls,
        final(rt).executor.current == old(rt).executor.current,
        forall|x: ThreadId|
            x != h.0 ==> ((#[trigger] final(rt).occ(x) <==> old(rt).occ(x)) && (old(rt).occ(x)
                ==> final(rt).ctx(x) == old(rt).ctx(x))),
{
    let t = Builder::new().spawn(rt, stack, registers, layout);
    JoinHandle(t)
}

/// A handle to the running thread: a clone, so the caller takes one
/// local hold and eventually releases it.
pub fn current(rt: &mut Runtime) -> (r: Thread)
    requires
        old(rt).wf(),
        old(rt).ctx(old(rt).executor.current).refcount < u64::MAX,
    ensures
        final(rt).wf(),
        r == (Thread(old(rt).executor.current)),
        final(rt).executor.contexts@ == old(rt).executor.contexts@.update(
            r.0.0 as int,
            Some(
                Context {
                    refcount: (old(rt).ctx(r.0).refcount + 1) as u64,
                    ..old(rt).ctx(r.0)
                },
            ),
        ),
        final(rt).executor.run_queue@ == old(rt).executor.run_queue@,
        final(rt).executor.current == old(rt).executor.current,
        final(rt).shared_queue == old(rt).shared_queue,
        final(rt).inflight@ == old(rt).inflight@,
        final(rt).polls == old(rt).polls,
{
    Thread(rt.current())
}

/// The identity of the running thread, without taking a hold.
pub fn current_id(rt: &Runtime) -> (r: ThreadId)
    ensures
        r == rt.executor.current,
{
    rt.current_id()
}

/// Suspends the running thread until somebody unparks it: hands the
/// machine to the next runnable thread, polling the reactor when the
/// park counter or an empty run queue demands it.  Without a reactor
/// poll the machine goes to the run queue's front; with one, the wakeup
/// queue is drained and the caller owes the runtime a turn of reactor
/// work before parking again.
pub fn park(rt: &mut Runtime, machine: &mut Registers) -> (r: ParkResult)
    requires
        old(rt).wf(),
        old(rt).ctx(old(rt).executor.current).lifecycle != Lifecycle::Finished,
        old(rt).polls < crate::runtime::POLL_PERIOD,
        !old(rt).shared_queue.is_sleeping,
        forall|t: ThreadId| #[trigger] old(rt).occ(t) ==> old(rt).ctx(t).refcount < u64::MAX,
    ensures
        final(rt).wf(),
        final(rt).polls == (old(rt).polls + 1) % (crate::runtime::POLL_PERIOD as int),
        ({
            let gate = (old(rt).polls + 1) % (crate::runtime::POLL_PERIOD as int) == 0 || old(
                rt,
            ).executor.run_queue@.len() == 0;
            &&& (!gate ==> r == ParkResult::Switched && final(rt).shared_queue == old(
                rt,
            ).shared_queue && final(rt).inflight@ == old(rt).inflight@)
            &&& (gate ==> r == (ParkResult::NeedReactor {
                block: final(rt).executor.run_queue@.len() == 0,
            }))
            &&& (gate ==> final(rt).shared_queue.is_sleeping == (final(rt).executor.run_queue@.len() == 0))
            &&& (gate ==> final(rt).shared_queue.queue@.len() == 0)
            &&& (gate ==> final(rt).inflight@ == old(rt).inflight@)
            &&& (gate && old(rt).shared_queue.queue@.len() == 0 ==> final(rt).executor == old(
                rt,
            ).executor)
        }),
        ({
            let gate = (old(rt).polls + 1) % (crate::runtime::POLL_PERIOD as int) == 0 || old(
                rt,
            ).executor.run_queue@.len() == 0;
            !gate ==> ({
                let next = old(rt).executor.run_queue@[0];
                let prev = old(rt).executor.current;
                let nc = old(rt).ctx(next);
                &&& final(rt).executor.run_queue@ == old(rt).executor.run_queue@.subrange(
                    1,
                    old(rt).executor.run_queue@.len() as int,
                )
                &&& final(rt).executor.current == next
                &&& final(rt).occ(next)
                &&& final(rt).ctx(next).status == Status::Waiting
                &&& final(rt).ctx(next).lifecycle == (if nc.lifecycle == Lifecycle::New {
                    Lifecycle::Running
                } else {
                    nc.lifecycle
                })
                &&& (next != prev ==> *final(machine) == nc.registers && final(rt).occ(prev)
                    && final(rt).ctx(prev) == (Context {
                    registers: *old(machine),
                    ..old(rt).ctx(prev)
                }))
                &&& (next == prev ==> *final(machine) == *old(machine))
            })
        }),
{
    rt.park(machine)
}

/// Cooperatively gives the timeslice up: the caller re-enters the run
/// queue at the tail and, unless the park counter calls for a reactor
/// poll, the machine goes to the queue's front — the caller itself when
/// nothing else is runnable.  Either way the caller stays schedulable:
/// it ends the step running or queued.
pub fn yield_now(rt: &mut Runtime, machine: &mut Registers) -> (r: ParkResult)
    requires
        old(rt).wf(),
        old(rt).ctx(old(rt).executor.current).lifecycle != Lifecycle::Finished,
        old(rt).polls < crate::runtime::POLL_PERIOD,
        !old(rt).shared_queue.is_sleeping,
        forall|t: ThreadId|
            #[trigger] old(rt).occ(t) ==> old(rt).ctx(t).refcount < u64::MAX - 1,
    ensures
        final(rt).wf(),
        final(rt).polls == (old(rt).polls + 1) % (crate::runtime::POLL_PERIOD as int),
        r != ParkResult::Idle,
        final(rt).occ(old(rt).executor.current),
        final(rt).ctx(old(rt).executor.current).lifecycle == old(rt).ctx(
            old(rt).executor.current,
        ).lifecycle,
        final(rt).ctx(old(rt).executor.current).status == Status::Queued || final(rt).executor.current == old(rt).executor.current,
        ({
            let me = old(rt).executor.current;
            let q1 = if old(rt).ctx(me).status == Status::Queued {
                old(rt).executor.run_queue@
            } else {
                old(rt).executor.run_queue@.push(me)
            };
            let gate = (old(rt).polls + 1) % (crate::runtime::POLL_PERIOD as int) == 0;
            &&& (!gate ==> r == ParkResult::Switched && final(rt).executor.current == q1[0]
                && final(rt).executor.run_queue@ == q1.subrange(1, q1.len() as int))
            &&& (!gate && q1[0] != me ==> *final(machine) == old(rt).ctx(q1[0]).registers
                && final(rt).ctx(me).registers == *old(machine))
            &&& (!gate && q1[0] == me ==> *final(machine) == *old(machine))
            &&& (gate ==> r == (ParkResult::NeedReactor { block: false }))
        }),
{
    rt.yield_now(machine)
}

/// Whether the running thread was cancelled by shutdown and should wind
/// down.
pub fn is_cancelled(rt: &Runtime) -> (r: bool)
    requires
        rt.wf(),
    ensures
        r == rt.ctx(rt.executor.current).is_cancelled,
{
    rt.is_cancelled()
}

/// The spawn–yield–join round trip, replayed under verification: on a
/// fresh runtime the root spawns one thread and yields to it; the thread
/// yields back; the root subscribes a join and parks; the thread
/// finishes with `v` and exits back to the root, whose join then returns
/// exactly `Ok(v)`.  Every hand-off is forced by the contracts alone —
/// the run queue's front runs next at each step — so the interleaving is
/// deterministic and the reported value survives the round trip intact.
#[verifier::rlimit(100)]
pub fn spawn_yield_join_round_trip(v: u64) -> (out: Outcome)
    ensures
        out == Ok::<u64, String>(v),
{
    let mut rt = Runtime::new(None);
    let mut machine = Registers::zeroed();
    let root = rt.current_id();
    let h = spawn(
        &mut rt,
        Stack { base: 0, size: 0 },
        Registers::zeroed(),
        AllocLayout { size: 0, align: 1 },
    );
    let t = h.0;
    proof {
        assert(root.0 == 0);
        assert(t.0 == 1);
    }
    // the root makes itself runnable again, then hands the machine over:
    // the queue's front is the spawned thread
    proof {
        assert(rt.occ(root));
        assert(rt.ctx(root).refcount == 1);
    }
    rt.unpark(root);
    proof {
        lemma_two_slot_bound(rt, root, t);
    }
    rt.park(&mut machine);
    proof {
        assert(rt.executor.current == t);
        assert(rt.ctx(t).lifecycle == Lifecycle::Running);
    }
    // the thread's first slice: it yields straight back to the root
    rt.unpark(t);
    proof {
        lemma_two_slot_bound(rt, root, t);
    }
    rt.park(&mut machine);
    proof {
        assert(rt.executor.current == root);
    }
    // the root subscribes its join and parks; the thread runs again
    let p = h.try_join_step(&mut rt);
    proof {
        assert(p == JoinPoll::NotYet);
        lemma_two_slot_bound(rt, root, t);
    }
    rt.park(&mut machine);
    proof {
        assert(rt.executor.current == t);
        assert(rt.ctx(t).join_waker == Some(root));
        assert(rt.ctx(t).status == Status::Waiting);
    }
    // the thread's last slice: report the value, wake the joined root,
    // and exit to it
    proof {
        lemma_two_slot_bound(rt, root, t);
    }
    rt.finish_current(Ok(v));
    proof {
        assert(rt.ctx(t).out == Some(Ok::<u64, String>(v)));
        assert(rt.ctx(root).status == Status::Queued);
        lemma_two_slot_bound(rt, root, t);
    }
    rt.exit(&mut machine);
    proof {
        assert(rt.executor.current == root);
        assert(rt.occ(t));
        assert(rt.ctx(t).out == Some(Ok::<u64, String>(v)));
    }
    // the join finds the finished thread and takes its report
    let out = match h.try_join_step(&mut rt) {
        JoinPoll::Ready(out) => out,
        JoinPoll::NotYet => vstd::pervasive::unreached(),
    };
    rt.release(t);
    out
}

/// In the two-context replay every live context is one of the two named
/// slots, both with small counts.
proof fn lemma_two_slot_bound(rt: Runtime, root: ThreadId, t: ThreadId)
    requires
        rt.executor.contexts@.len() == 2,
        root.0 == 0,
        t.0 == 1,
        rt.occ(root) ==> rt.ctx(root).refcount < 16,
        rt.occ(t) ==> rt.ctx(t).refcount < 16,
    ensures
        forall|x: ThreadId| #[trigger] rt.occ(x) ==> rt.ctx(x).refcount < u64::MAX - 1,
        forall|x: ThreadId| #[trigger] rt.occ(x) ==> rt.ctx(x).refcount < u64::MAX,
{
    assert forall|x: ThreadId| #[trigger] rt.occ(x) implies rt.ctx(x).refcount < u64::MAX
        - 1 by {
        if x.0 == 0 {
            assert(x == root);
        } else {
            assert(x.0 == 1);
            assert(x == t);
        }
    }
}

} // verus!
