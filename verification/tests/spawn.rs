use pneuma::context::{AllocLayout, ThreadId};
use pneuma::registers::Registers;
use pneuma::runtime::{ExitStep, JoinPoll, ParkResult, Runtime};
use pneuma::stack::Stack;
use pneuma::thread;
use std::cell::Cell;

fn plain_stack() -> Stack {
    Stack { base: 0, size: 0 }
}

fn plain_layout() -> AllocLayout {
    AllocLayout { size: 256, align: 16 }
}

fn do_yield(rt: &mut Runtime, machine: &mut Registers) {
    match thread::yield_now(rt, machine) {
        ParkResult::Switched => {}
        ParkResult::NeedReactor { block } => {
            if block {
                rt.end_kernel_wait();
            }
            rt.park_resume(machine);
        }
        ParkResult::Idle => {}
    }
}

fn do_park(rt: &mut Runtime, machine: &mut Registers) {
    match thread::park(rt, machine) {
        ParkResult::Switched | ParkResult::Idle => {}
        ParkResult::NeedReactor { block } => {
            if block {
                rt.end_kernel_wait();
            }
            rt.park_resume(machine);
        }
    }
}

fn do_exit(rt: &mut Runtime, machine: &mut Registers) {
    loop {
        match rt.exit(machine) {
            ExitStep::Switched(_) => return,
            ExitStep::NeedReactor { block } => {
                if block {
                    rt.end_kernel_wait();
                }
            }
        }
    }
}

fn counter_assert(counter: &Cell<i32>, prediction: i32) {
    assert_eq!(counter.get(), prediction);
    counter.set(counter.get() + 1);
}

#[test]
fn yield_now() {
    let mut rt = Runtime::new(None);
    let mut machine = Registers::zeroed();
    let counter = Cell::new(1);

    let main_id = rt.current_id();
    let handle = thread::spawn(&mut rt, plain_stack(), Registers::zeroed(), plain_layout());
    let t = handle.0;

    counter_assert(&counter, 1);
    thread::Thread(rt.current_id()).unpark(&mut rt);
    do_yield(&mut rt, &mut machine);
    assert_eq!(rt.current_id(), t);

    // the spawned thread runs its first slice
    counter_assert(&counter, 2);
    do_yield(&mut rt, &mut machine);
    assert_eq!(rt.current_id(), main_id);

    counter_assert(&counter, 3);
    // main joins: the target is still running, so main subscribes and parks
    assert_eq!(handle.try_join_step(&mut rt), JoinPoll::NotYet);
    do_park(&mut rt, &mut machine);
    assert_eq!(rt.current_id(), t);

    counter_assert(&counter, 4);
    do_yield(&mut rt, &mut machine);
    assert_eq!(rt.current_id(), t);

    counter_assert(&counter, 5);
    rt.finish_current(Ok(122));
    do_exit(&mut rt, &mut machine);
    assert_eq!(rt.current_id(), main_id);

    match handle.try_join_step(&mut rt) {
        JoinPoll::Ready(out) => assert_eq!(out, Ok(122)),
        JoinPoll::NotYet => panic!("join should be ready"),
    }
    counter_assert(&counter, 6);

    rt.release(t);
    assert_eq!(rt.executor.live_contexts(), 1);
}

#[test]
fn panic_from_green_thread() {
    let mut rt = Runtime::new(None);
    let mut machine = Registers::zeroed();
    let main_id = rt.current_id();
    let handle = thread::spawn(&mut rt, plain_stack(), Registers::zeroed(), plain_layout());
    println!("handle-1");

    assert_eq!(handle.try_join_step(&mut rt), JoinPoll::NotYet);
    do_park(&mut rt, &mut machine);
    assert_eq!(rt.current_id(), handle.0);

    // the body unwinds: its panic is captured into the output slot
    rt.finish_current(Err("test panic".to_string()));
    do_exit(&mut rt, &mut machine);
    assert_eq!(rt.current_id(), main_id);

    match handle.try_join_step(&mut rt) {
        JoinPoll::Ready(out) => {
            assert!(out.is_err());
            assert_eq!(out.unwrap_err(), "test panic");
        }
        JoinPoll::NotYet => panic!("join should be ready"),
    }
    rt.release(handle.0);
}

#[test]
fn dangling() {
    let mut rt = Runtime::new(None);
    let mut machine = Registers::zeroed();
    let main_id = rt.current_id();
    let handle = thread::spawn(&mut rt, plain_stack(), Registers::zeroed(), plain_layout());
    let t = handle.0;
    // the handle is dropped without a join: the thread is detached
    rt.release(t);

    thread::Thread(rt.current_id()).unpark(&mut rt);
    do_yield(&mut rt, &mut machine);
    assert_eq!(rt.current_id(), t);
    do_yield(&mut rt, &mut machine);
    assert_eq!(rt.current_id(), main_id);
    do_yield(&mut rt, &mut machine);
    assert_eq!(rt.current_id(), t);
    rt.finish_current(Ok(0));
    do_exit(&mut rt, &mut machine);
    assert_eq!(rt.current_id(), main_id);
    // nothing leaked: only the operating-system root remains
    assert_eq!(rt.executor.live_contexts(), 1);
}

#[test]
fn name() {
    let mut rt = Runtime::new(None);
    let mut machine = Registers::zeroed();
    let main_id = rt.current_id();
    let t = pneuma::builder::Builder::new()
        .name("test-thread".to_string())
        .spawn(&mut rt, plain_stack(), Registers::zeroed(), plain_layout());

    thread::Thread(rt.current_id()).unpark(&mut rt);
    do_yield(&mut rt, &mut machine);
    assert_eq!(rt.current_id(), t);
    // a cloned handle of the running thread, released after the read
    let me = thread::current(&mut rt);
    assert_eq!(me.name(&rt), &Some("test-thread".to_string()));
    rt.release(me.0);
    rt.finish_current(Ok(0));
    do_exit(&mut rt, &mut machine);
    assert_eq!(rt.current_id(), main_id);
    rt.release(t);
}

#[test]
fn is_cancelled() {
    let mut rt = Runtime::new(None);
    let mut machine = Registers::zeroed();
    let main_id = rt.current_id();
    let handle = thread::spawn(&mut rt, plain_stack(), Registers::zeroed(), plain_layout());
    let t = handle.0;

    assert!(!thread::is_cancelled(&rt));
    // shutdown begins: every thread is cancelled and unparked
    assert!(!rt.shutdown_step());

    thread::Thread(rt.current_id()).unpark(&mut rt);
    do_yield(&mut rt, &mut machine);
    assert_eq!(rt.current_id(), t);
    assert!(thread::is_cancelled(&rt));
    rt.finish_current(Ok(0));
    do_exit(&mut rt, &mut machine);
    assert_eq!(rt.current_id(), main_id);
    rt.release(t);
    assert!(rt.shutdown_step());
}

#[test]
fn spawn_many_no_leak() {
    // a large population of threads, each yielding ten times, leaves no
    // context allocation behind
    let mut rt = Runtime::new(None);
    let mut machine = Registers::zeroed();
    let main_id = rt.current_id();
    let mut spawned: usize = 0;
    while spawned < 10_000 {
        let mut wave: Vec<ThreadId> = Vec::new();
        for _ in 0..50 {
            let handle =
                thread::spawn(&mut rt, plain_stack(), Registers::zeroed(), plain_layout());
            wave.push(handle.0);
            spawned += 1;
        }
        let mut yields_left = vec![10u32; 50];
        let mut done: usize = 0;
        while done < 50 {
            let cur = rt.current_id();
            if cur == main_id {
                thread::Thread(rt.current_id()).unpark(&mut rt);
                do_yield(&mut rt, &mut machine);
                continue;
            }
            let i = wave.iter().position(|t| *t == cur).unwrap();
            if yields_left[i] > 0 {
                yields_left[i] -= 1;
                do_yield(&mut rt, &mut machine);
            } else {
                rt.finish_current(Ok(0));
                do_exit(&mut rt, &mut machine);
                done += 1;
            }
        }
        for t in wave {
            if rt.lifecycle_of(t).is_some() {
                rt.release(t);
            }
        }
    }
    assert_eq!(rt.executor.live_contexts(), 1);
}

#[test]
fn verified_round_trip() {
    // the statically proved spawn–yield–join replay, run for good measure
    assert_eq!(pneuma::thread::spawn_yield_join_round_trip(122), Ok(122));
}
