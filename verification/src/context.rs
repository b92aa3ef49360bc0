//! The per-green-thread context record.
//!
//! A context carries everything the scheduler knows about one green thread:
//! its saved register bank, its stack, its name, where its body stands in
//! its lifecycle, whether it currently sits in the run queue, the two
//! reference counts that govern its allocation, the cancellation flag, the
//! join slot, the one-shot mailbox for kernel completions, and the output
//! slot its body fills.  In the running system the record heads a single
//! allocation that also holds the type-erased entry closure and the typed
//! output; here the closure is run by the world outside the verified
//! boundary and the output slot holds the plain value it reports.

use vstd::prelude::*;

use crate::registers::Registers;
use crate::stack::Stack;

verus! {

/// Whether a context currently sits in its executor's run queue.
#[derive(Clone, Copy, PartialEq, Eq, Structural, Debug)]
pub enum Status {
    Waiting,
    Queued,
}

/// The progression of a green thread's body.  `New` until the first switch
/// into it, `Running` from then until the body returns, `Finished` until a
/// join extracts the output, `Taken` afterwards.  `OsThread` is terminal
/// and marks the operating-system thread's own root context, which has no
/// body and no owned stack.
#[derive(Clone, Copy, PartialEq, Eq, Structural, Debug)]
pub enum Lifecycle {
    New,
    Running,
    Finished,
    Taken,
    OsThread,
}

/// A unique identifier for a live green thread.  Identifiers may be reused
/// after a thread's allocation is returned.
#[derive(PartialEq, PartialOrd, Eq, Ord, Clone, Copy, Debug, Structural)]
pub struct ThreadId(pub usize);

/// What a finished body reported: its value, or the message of the panic
/// that unwound it.
pub type Outcome = Result<u64, String>;

/// A size-and-alignment pair, the shape of one piece of the context
/// allocation.
#[derive(Clone, Copy, PartialEq, Eq, Structural, Debug)]
pub struct AllocLayout {
    pub size: usize,
    pub align: usize,
}

/// `offset` rounded up to the next multiple of `align`.
pub open spec fn spec_round_up(offset: int, align: int) -> int
    recommends
        align >= 1,
{
    offset + (align - offset % align) % align
}

/// Rounds `offset` up to the next multiple of `align`.
pub fn round_up(offset: usize, align: usize) -> (r: usize)
    requires
        1 <= align,
        offset + align <= usize::MAX,
    ensures
        r == spec_round_up(offset as int, align as int),
        r % align == 0,
        offset <= r < offset + align,
{
    let rem: usize = offset % align;
    proof {
        vstd::arithmetic::div_mod::lemma_mod_bound(offset as int, align as int);
        vstd::arithmetic::div_mod::lemma_sub_mod_noop_right(
            offset as int,
            offset as int,
            align as int,
        );
        vstd::arithmetic::div_mod::lemma_mod_add_multiples_vanish(
            offset as int - rem as int,
            align as int,
        );
    }
    proof {
        vstd::arithmetic::div_mod::lemma_mod_decreases(offset as nat, align as nat);
    }
    if rem == 0 {
        proof {
            vstd::arithmetic::div_mod::lemma_mod_self_0(align as int);
        }
        offset
    } else {
        proof {
            vstd::arithmetic::div_mod::lemma_small_mod((align - rem) as nat, align as nat);
            assert(0int % (align as int) == 0);
            assert((offset as int - rem as int) % (align as int) == 0);
            assert((offset as int - rem as int + align as int) % (align as int) == 0);
        }
        offset - rem + align
    }
}

/// The layout of the context allocation `{header, closure, output slot}`:
/// the total size and alignment of the single block, and the offsets at
/// which the closure and the output slot are stored.  Each part begins at
/// its own alignment, after the parts before it.
pub fn layout(header: AllocLayout, fun: AllocLayout, out: AllocLayout) -> (r: (
    AllocLayout,
    usize,
    usize,
))
    requires
        1 <= header.align,
        1 <= fun.align,
        1 <= out.align,
        header.size + fun.align + fun.size + out.align + out.size <= usize::MAX,
    ensures
        ({
            let (total, fun_offset, out_offset) = r;
            &&& fun_offset % fun.align == 0
            &&& out_offset % out.align == 0
            &&& header.size <= fun_offset
            &&& fun_offset + fun.size <= out_offset
            &&& out_offset + out.size == total.size
            &&& total.align == if header.align >= fun.align && header.align >= out.align {
                header.align
            } else if fun.align >= out.align {
                fun.align
            } else {
                out.align
            }
        }),
{
    let fun_offset = round_up(header.size, fun.align);
    let out_offset = round_up(fun_offset + fun.size, out.align);
    let size = out_offset + out.size;
    let align_hf = if header.align >= fun.align {
        header.align
    } else {
        fun.align
    };
    let align = if align_hf >= out.align {
        align_hf
    } else {
        out.align
    };
    (AllocLayout { size, align }, fun_offset, out_offset)
}

/// The context record.
pub struct Context {
    /// The register bank as the last switch left it.
    pub registers: Registers,
    /// The thread's stack; zero-sized for the operating-system root.
    pub stack: Stack,
    /// The recorded layout of the context allocation, needed to return it.
    pub layout: AllocLayout,
    /// An optional human-readable name for diagnostics.
    pub name: Option<String>,
    /// Where the body stands.
    pub lifecycle: Lifecycle,
    /// Whether the context sits in the run queue.
    pub status: Status,
    /// Local handles held on this context: user handles, the run-queue
    /// entries, the executor's current slot, and in-flight submission tags.
    pub refcount: u64,
    /// Cross-thread references: one for the local side as long as any local
    /// handle lives, plus one per live `Waker`.
    pub atomic_refcount: u64,
    /// Set on shutdown; cooperating code fails its in-flight work fast.
    pub is_cancelled: bool,
    /// The thread waiting in `join` on this one, to be unparked when the
    /// body finishes.
    pub join_waker: Option<ThreadId>,
    /// The one-shot mailbox for a kernel completion value.
    pub io_result: Option<i32>,
    /// The output slot: the body's report once the lifecycle is `Finished`.
    pub out: Option<Outcome>,
}

impl Context {
    /// What a context looks like the moment `spawn` creates it: body not
    /// yet entered, not queued, one local handle (the one `spawn` returns)
    /// and the local side's cross-thread unit, and every slot empty.
    pub open spec fn is_fresh(self) -> bool {
        &&& self.lifecycle == Lifecycle::New
        &&& self.status == Status::Waiting
        &&& self.refcount == 1
        &&& self.atomic_refcount == 1
        &&& !self.is_cancelled
        &&& self.join_waker is None
        &&& self.io_result is None
        &&& self.out is None
    }

    /// A fresh context for a new green thread.
    pub fn fresh(registers: Registers, stack: Stack, layout: AllocLayout, name: Option<String>) -> (
        c: Context)
        ensures
            c.is_fresh(),
            c.registers == registers,
            c.stack == stack,
            c.layout == layout,
            c.name == name,
    {
        Context {
            registers,
            stack,
            layout,
            name,
            lifecycle: Lifecycle::New,
            status: Status::Waiting,
            refcount: 1,
            atomic_refcount: 1,
            is_cancelled: false,
            join_waker: None,
            io_result: None,
            out: None,
        }
    }

    /// The sentinel context standing for the operating-system thread's own
    /// native stack: terminal lifecycle, no owned stack, no body.
    pub fn for_os_thread(name: Option<String>) -> (c: Context)
        ensures
            c.lifecycle == Lifecycle::OsThread,
            c.status == Status::Waiting,
            c.refcount == 1,
            c.atomic_refcount == 1,
            !c.is_cancelled,
            c.join_waker is None,
            c.io_result is None,
            c.out is None,
            c.stack.size == 0,
            c.stack.base == 0,
            c.name == name,
    {
        Context {
            registers: Registers::zeroed(),
            stack: Stack { base: 0, size: 0 },
            layout: AllocLayout { size: 0, align: 1 },
            name,
            lifecycle: Lifecycle::OsThread,
            status: Status::Waiting,
            refcount: 1,
            atomic_refcount: 1,
            is_cancelled: false,
            join_waker: None,
            io_result: None,
            out: None,
        }
    }
}

/// The payload-specific cleanup owed when the last local handle of a
/// context goes away.
#[derive(Clone, Copy, PartialEq, Eq, Structural, Debug)]
pub enum DropAction {
    /// The body never ran: the captured closure is destroyed in place.
    DropClosure,
    /// The body finished but nobody joined: the unread output is destroyed.
    DropOutput,
    /// Nothing payload-specific is owed.
    Nothing,
}

/// Which payload cleanup the drop policy owes for a context in the given
/// lifecycle.  Releasing the last handle of a context whose body is still
/// running is a programming error, so `Running` is excluded.
pub fn drop_action(lifecycle: Lifecycle) -> (r: DropAction)
    requires
        lifecycle != Lifecycle::Running,
    ensures
        r == (match lifecycle {
            Lifecycle::New => DropAction::DropClosure,
            Lifecycle::Finished => DropAction::DropOutput,
            _ => DropAction::Nothing,
        }),
{
    match lifecycle {
        Lifecycle::New => DropAction::DropClosure,
        Lifecycle::Finished => DropAction::DropOutput,
        Lifecycle::Taken => DropAction::Nothing,
        Lifecycle::OsThread => DropAction::Nothing,
        Lifecycle::Running => DropAction::Nothing,
    }
}

} // verus!
