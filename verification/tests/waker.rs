use pneuma::context::AllocLayout;
use pneuma::executor::ReleaseEffect;
use pneuma::registers::Registers;
use pneuma::runtime::{ExitStep, ParkResult, Runtime};
use pneuma::stack::Stack;
use pneuma::thread;

fn plain_stack() -> Stack {
    Stack { base: 0, size: 0 }
}

fn plain_layout() -> AllocLayout {
    AllocLayout { size: 256, align: 16 }
}

fn run_exit(rt: &mut Runtime, machine: &mut Registers) {
    loop {
        match rt.exit(machine) {
            ExitStep::Switched(_) => return,
            ExitStep::NeedReactor { block } => {
                if block {
                    rt.end_kernel_wait();
                }
            }
        }
    }
}

#[test]
fn single_threaded_wakup() {
    let mut rt = Runtime::new(None);
    let mut machine = Registers::zeroed();
    let main_id = rt.current_id();
    let handle = thread::spawn(&mut rt, plain_stack(), Registers::zeroed(), plain_layout());
    let t = handle.0;

    // main parks; the spawned thread wakes it through a waker
    match thread::park(&mut rt, &mut machine) {
        ParkResult::Switched => {}
        _ => panic!("the spawned thread should be runnable"),
    }
    assert_eq!(rt.current_id(), t);

    rt.waker_from(main_id);
    let must_signal = rt.wake(main_id);
    // the runtime is not blocked in the kernel, so no byte is owed
    assert!(!must_signal);

    rt.finish_current(Ok(0));
    run_exit(&mut rt, &mut machine);
    assert_eq!(rt.current_id(), main_id);
    rt.release(t);
    assert_eq!(rt.executor.live_contexts(), 1);
}

#[test]
fn cross_thread_wakup() {
    let mut rt = Runtime::new(None);
    let mut machine = Registers::zeroed();
    let main_id = rt.current_id();

    // a foreign operating-system thread holds two clones of main's waker
    rt.waker_from(main_id);
    rt.waker_clone(main_id);
    assert!(!rt.wake(main_id));
    assert!(!rt.wake(main_id));

    // main parks: the queue is empty, so the reactor gate opens, the
    // posted wakers are drained, and main is runnable again
    match thread::park(&mut rt, &mut machine) {
        ParkResult::NeedReactor { block } => {
            assert!(!block);
        }
        _ => panic!("the drain should have made main runnable"),
    }
    match rt.park_resume(&mut machine) {
        ParkResult::Switched => {}
        _ => panic!("main should resume"),
    }
    assert_eq!(rt.current_id(), main_id);
}

#[test]
fn wake_while_blocked_owes_signal() {
    // a runtime blocked in the kernel is owed exactly one byte on its
    // event descriptor, so the blocking wait returns promptly
    let mut rt = Runtime::new(None);
    let mut machine = Registers::zeroed();
    let main_id = rt.current_id();
    rt.waker_from(main_id);

    match thread::park(&mut rt, &mut machine) {
        ParkResult::NeedReactor { block } => assert!(block),
        _ => panic!("an empty runtime parks into the kernel"),
    }
    assert!(rt.shared_queue.is_sleeping);

    // the remote wake sees the sleeping flag and owes the signal
    assert!(rt.wake(main_id));

    rt.end_kernel_wait();
    match thread::park(&mut rt, &mut machine) {
        ParkResult::NeedReactor { block } => assert!(!block),
        _ => panic!("the drained wake makes main runnable"),
    }
    rt.park_resume(&mut machine);
    assert_eq!(rt.current_id(), main_id);
}

#[test]
fn cross_thread_waker_drop_after_gthread_exit() {
    // a waker that outlives its green thread is still released safely:
    // the allocation is returned only when the last hold of any kind
    // goes away
    let mut rt = Runtime::new(None);
    let mut machine = Registers::zeroed();
    let main_id = rt.current_id();
    let handle = thread::spawn(&mut rt, plain_stack(), Registers::zeroed(), plain_layout());
    let t = handle.0;
    rt.waker_from(t);

    match thread::park(&mut rt, &mut machine) {
        ParkResult::Switched => {}
        _ => panic!("the spawned thread should be runnable"),
    }
    assert_eq!(rt.current_id(), t);
    thread::Thread(main_id).unpark(&mut rt);
    rt.finish_current(Ok(0));
    run_exit(&mut rt, &mut machine);
    assert_eq!(rt.current_id(), main_id);

    // the local handle goes away first: the payload is dropped, the
    // waker keeps the allocation
    assert_eq!(rt.release(t), ReleaseEffect::PayloadDropped);
    assert!(rt.lifecycle_of(t).is_some());

    // the waker's drop is the last hold: the allocation is returned
    assert_eq!(rt.waker_drop(t), ReleaseEffect::Deallocated);
    assert!(rt.lifecycle_of(t).is_none());
    assert_eq!(rt.executor.live_contexts(), 1);
}
