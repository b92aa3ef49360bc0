//! The per-thread register bank and the contract of the switch primitive.
//!
//! A context switch saves every callee-preserved register of the running
//! thread into one bank and loads the same set from another.  The actual
//! save/restore is a few instructions of architecture-specific assembly that
//! no verifier reads; what can be stated and checked is the value contract
//! it must obey, which this module captures by treating the machine's
//! callee-saved state as one more `Registers` value.

use vstd::prelude::*;

verus! {

/// The register bank of one green thread, as left by its last switch: the
/// stack pointer, the entry-point slot consulted on first entry, the
/// first-argument word handed to the trampoline, the frame pointer, the
/// link register, and the remaining callee-saved set of the widest
/// supported ABI.
#[derive(Clone, Copy)]
pub struct Registers {
    pub sp: u64,
    pub fun: u64,
    pub arg: u64,
    pub frame: u64,
    pub link: u64,
    pub general: [u64; 59],
}

impl Registers {
    /// An all-zero bank, the state of a context before its registers are
    /// set up.
    pub fn zeroed() -> (r: Registers)
        ensures
            r.sp == 0,
            r.fun == 0,
            r.arg == 0,
            r.frame == 0,
            r.link == 0,
            forall|i: int| 0 <= i < 59 ==> r.general@[i] == 0,
    {
        Registers { sp: 0, fun: 0, arg: 0, frame: 0, link: 0, general: [0u64; 59] }
    }

    /// The bank of a fresh context: the stack pointer at the stack's
    /// bottom, the entry-point slot holding the trampoline's address, and
    /// the first-argument word holding the context's identity, so that the
    /// first switch into this bank enters the trampoline with the context
    /// in hand.
    pub fn for_new_context(stack_bottom: u64, trampoline: u64, context_arg: u64) -> (r: Registers)
        ensures
            r.sp == stack_bottom,
            r.fun == trampoline,
            r.arg == context_arg,
            r.frame == 0,
            r.link == 0,
            forall|i: int| 0 <= i < 59 ==> r.general@[i] == 0,
    {
        let mut r = Registers::zeroed();
        r.sp = stack_bottom;
        r.fun = trampoline;
        r.arg = context_arg;
        r
    }
}

/// The value contract of `switch(prev, next)`: the machine's callee-saved
/// state is stored into `prev`, then replaced by the contents of `next`.
/// Control then continues at whichever call site last saved into `next`;
/// at the register level that is exactly the statement below.
pub fn switch(machine: &mut Registers, prev: &mut Registers, next: &Registers)
    ensures
        *final(prev) == *old(machine),
        *final(machine) == *next,
{
    *prev = *machine;
    *machine = *next;
}

/// The value contract of `load(next)`: the machine's callee-saved state is
/// replaced by the contents of `next` and the previous state is abandoned.
/// The caller never resumes, which is why nothing is saved.
pub fn load(machine: &mut Registers, next: &Registers)
    ensures
        *final(machine) == *next,
{
    *machine = *next;
}

/// What one `switch(prev, next)` does to the machine's callee-saved state:
/// the outgoing state lands in `prev`, the incoming state comes from
/// `next`.
pub open spec fn switch_relates(
    machine0: Registers,
    machine1: Registers,
    prev1: Registers,
    next: Registers,
) -> bool {
    prev1 == machine0 && machine1 == next
}

/// After `switch(prev, next)` returns to the `prev` side — that is, after
/// some later switch loads `prev` back — every callee-saved register and
/// the stack pointer hold exactly the values they held just before the
/// call that saved them.
pub proof fn lemma_switch_round_trip(
    machine0: Registers,
    machine1: Registers,
    prev1: Registers,
    next: Registers,
    machine2: Registers,
    other1: Registers,
    other0: Registers,
)
    requires
        switch_relates(machine0, machine1, prev1, next),
        switch_relates(other0, machine2, other1, prev1),
    ensures
        machine2 == machine0,
{
}

} // verus!
