//! Configuration for spawning a green thread.

use vstd::prelude::*;

use crate::context::{AllocLayout, ThreadId};
use crate::registers::Registers;
use crate::runtime::Runtime;
use crate::stack::Stack;

verus! {

/// The default requested stack size in bytes.
pub const DEFAULT_STACK_SIZE: usize = 65536;

/// The recognised options of a thread to be: an optional diagnostic name
/// and the requested usable stack size, which the stack allocator rounds
/// up to whole pages with a guard — a request of zero still yields a
/// usable default stack.
pub struct Builder {
    pub name: Option<String>,
    pub stack_size: usize,
}

impl Builder {
    /// The base configuration: unnamed, with the default stack size.
    pub fn new() -> (b: Builder)
        ensures
            b.name is None,
            b.stack_size == DEFAULT_STACK_SIZE,
    {
        Builder { name: None, stack_size: DEFAULT_STACK_SIZE }
    }

    /// Names the thread to be.
    pub fn name(self, name: String) -> (b: Builder)
        ensures
            b.name == Some(name),
            b.stack_size == self.stack_size,
    {
        Builder { name: Some(name), stack_size: self.stack_size }
    }

    /// Sets the requested stack size in bytes.
    pub fn stack_size(self, stack_size: usize) -> (b: Builder)
        ensures
            b.name == self.name,
            b.stack_size == stack_size,
    {
        Builder { stack_size, ..self }
    }

    /// Spawns a thread with these options onto a runtime, over the given
    /// mapped stack and initial register bank; the shell maps the stack
    /// with [`Stack::mapped_size`] of the requested size.
    pub fn spawn(self, rt: &mut Runtime, stack: Stack, registers: Registers, layout: AllocLayout)
        -> (t: ThreadId)
        requires
            old(rt).wf(),
            old(rt).executor.contexts@.len() < usize::MAX,
        ensures
            final(rt).wf(),
            t.0 == old(rt).executor.contexts@.len(),
            final(rt).occ(t),
            final(rt).ctx(t).name == self.name,
            final(rt).ctx(t).stack == stack,
            final(rt).ctx(t).registers == registers,
            final(rt).ctx(t).status == crate::context::Status::Queued,
            final(rt).ctx(t).lifecycle == crate::context::Lifecycle::New,
            final(rt).ctx(t).refcount == 2,
            final(rt).ctx(t).atomic_refcount == 1,
            !final(rt).ctx(t).is_cancelled,
            final(rt).ctx(t).join_waker is None,
            final(rt).ctx(t).io_result is None,
            final(rt).ctx(t).out is None,
            final(rt).executor.run_queue@ == old(rt).executor.run_queue@.push(t),
            final(rt).executor.current == old(rt).executor.current,
            final(rt).executor.contexts@.len() == old(rt).executor.contexts@.len() + 1,
            forall|x: ThreadId|
                x != t ==> ((#[trigger] final(rt).occ(x) <==> old(rt).occ(x)) && (old(rt).occ(x)
                    ==> final(rt).ctx(x) == old(rt).ctx(x))),
            final(rt).shared_queue == old(rt).shared_queue,
            final(rt).inflight@ == old(rt).inflight@,
            final(rt).polls == old(rt).polls,
    {
        rt.spawn(registers, stack, layout, self.name)
    }
}

} // verus!
