use pneuma::context::{drop_action, layout, round_up, AllocLayout, DropAction, Lifecycle};
use pneuma::executor::{unpark_two_pops_first, Executor};
use pneuma::registers::{switch, Registers};
use pneuma::stack::Stack;

#[test]
fn run_queue_is_fifo() {
    // the law: after `a` and then `b` become runnable in an empty queue,
    // the scheduler pops `a` first
    let mut e = Executor::new(None);
    let a = e.spawn(
        Registers::zeroed(),
        Stack { base: 0, size: 0 },
        AllocLayout { size: 64, align: 8 },
        None,
    );
    let b = e.spawn(
        Registers::zeroed(),
        Stack { base: 0, size: 0 },
        AllocLayout { size: 64, align: 8 },
        None,
    );
    assert_eq!(e.pop(), Some(a));
    assert_eq!(e.pop(), Some(b));
    assert_eq!(e.pop(), None);
    assert_eq!(unpark_two_pops_first(&mut e, a, b), Some(a));
}

#[test]
fn unpark_is_idempotent() {
    // a context appears in the run queue at most once
    let mut e = Executor::new(None);
    let a = e.spawn(
        Registers::zeroed(),
        Stack { base: 0, size: 0 },
        AllocLayout { size: 64, align: 8 },
        None,
    );
    e.push(a);
    e.push(a);
    assert_eq!(e.pop(), Some(a));
    assert_eq!(e.pop(), None);
}

#[test]
fn switch_restores_callee_saved_registers() {
    // after a switch away and back, every callee-saved register and the
    // stack pointer hold the values they held before the call
    let mut machine = Registers::for_new_context(0x7000_0000, 0x1111, 42);
    let before = machine;
    let mut suspended = Registers::zeroed();
    let other = Registers::for_new_context(0x8000_0000, 0x2222, 43);

    // switch away: the machine state is saved into `suspended`
    switch(&mut machine, &mut suspended, &other);
    assert_eq!(machine.sp, 0x8000_0000);
    assert_eq!(suspended.sp, before.sp);

    // switch back: the saved state is loaded again
    let mut parked_other = Registers::zeroed();
    let resumed = suspended;
    switch(&mut machine, &mut parked_other, &resumed);
    assert_eq!(machine.sp, before.sp);
    assert_eq!(machine.fun, before.fun);
    assert_eq!(machine.arg, before.arg);
    assert_eq!(machine.frame, before.frame);
    assert_eq!(machine.link, before.link);
    assert_eq!(machine.general, before.general);
}

#[test]
fn stack_sizes_round_up_with_guard() {
    // a request is rounded to whole pages plus a guard page, and a
    // request of zero still yields a usable default stack
    assert_eq!(Stack::mapped_size(0, 4096), 8192);
    assert_eq!(Stack::mapped_size(1, 4096), 8192);
    assert_eq!(Stack::mapped_size(4096, 4096), 12288);
    assert_eq!(Stack::mapped_size(5000, 4096), 12288);
    assert_eq!(Stack::mapped_size(65536, 4096), 73728);
}

#[test]
fn stack_bottom_is_aligned_above_guard() {
    let s = Stack { base: 0x10000, size: 8192 };
    let bottom = s.bottom(4096);
    assert_eq!(bottom, 0x10000 + 4096);
    assert_eq!(bottom % 16, 0);
    assert!(bottom >= s.base + 4096);
}

#[test]
fn guard_page_classifies_overflow() {
    // a fault inside the guard page is a stack overflow; one outside is
    // not
    let s = Stack { base: 0x10000, size: 8192 };
    assert!(s.is_stackoverflow(0x10000, 4096));
    assert!(s.is_stackoverflow(0x10000 + 4095, 4096));
    assert!(!s.is_stackoverflow(0x10000 + 4096, 4096));
    assert!(!s.is_stackoverflow(0xFFFF, 4096));
}

#[test]
fn context_allocation_layout() {
    // the allocation holds header, closure and output slot at aligned,
    // non-overlapping offsets
    assert_eq!(round_up(100, 8), 104);
    assert_eq!(round_up(104, 8), 104);
    let (total, fun_offset, out_offset) = layout(
        AllocLayout { size: 100, align: 8 },
        AllocLayout { size: 24, align: 8 },
        AllocLayout { size: 16, align: 16 },
    );
    assert_eq!(fun_offset, 104);
    assert_eq!(out_offset, 128);
    assert_eq!(total.size, 144);
    assert_eq!(total.align, 16);
}

#[test]
fn drop_policy_by_lifecycle() {
    assert_eq!(drop_action(Lifecycle::New), DropAction::DropClosure);
    assert_eq!(drop_action(Lifecycle::Finished), DropAction::DropOutput);
    assert_eq!(drop_action(Lifecycle::Taken), DropAction::Nothing);
    assert_eq!(drop_action(Lifecycle::OsThread), DropAction::Nothing);
}

#[test]
fn queued_flag_tracks_membership() {
    // the `Queued` status holds exactly while the context sits in the
    // run queue
    let mut e = Executor::new(None);
    let a = e.spawn(
        Registers::zeroed(),
        Stack { base: 0, size: 0 },
        AllocLayout { size: 64, align: 8 },
        None,
    );
    assert!(matches!(
        e.ctx_read(a).status,
        pneuma::context::Status::Queued
    ));
    assert_eq!(e.pop(), Some(a));
    assert!(matches!(
        e.ctx_read(a).status,
        pneuma::context::Status::Waiting
    ));
}

#[test]
fn unpark_finished_thread_is_a_no_op() {
    // a finished context never becomes runnable again
    let mut e = Executor::new(None);
    let a = e.spawn(
        Registers::zeroed(),
        Stack { base: 0, size: 0 },
        AllocLayout { size: 64, align: 8 },
        None,
    );
    let mut machine = Registers::zeroed();
    assert_eq!(e.pop(), Some(a));
    e.switch_to(a, &mut machine);
    e.finish_current(Ok(9));
    e.push(a);
    assert_eq!(e.pop(), None);
    assert!(matches!(e.ctx_read(a).lifecycle, Lifecycle::Finished));
}
