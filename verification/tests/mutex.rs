use pneuma::context::AllocLayout;
use pneuma::mutex::{Mutex, MutexGuard};
use pneuma::registers::Registers;
use pneuma::runtime::{ExitStep, ParkResult, Runtime};
use pneuma::stack::Stack;
use pneuma::thread;

fn plain_stack() -> Stack {
    Stack { base: 0, size: 0 }
}

fn plain_layout() -> AllocLayout {
    AllocLayout { size: 256, align: 16 }
}

fn sched_yield(rt: &mut Runtime, machine: &mut Registers) {
    match thread::yield_now(rt, machine) {
        ParkResult::Switched => {}
        ParkResult::NeedReactor { block } => {
            if block {
                rt.end_kernel_wait();
            }
            rt.park_resume(machine);
        }
        ParkResult::Idle => {}
    }
}

fn sched_park(rt: &mut Runtime, machine: &mut Registers) {
    match thread::park(rt, machine) {
        ParkResult::Switched | ParkResult::Idle => {}
        ParkResult::NeedReactor { block } => {
            if block {
                rt.end_kernel_wait();
            }
            rt.park_resume(machine);
        }
    }
}

fn sched_exit(rt: &mut Runtime, machine: &mut Registers) {
    loop {
        match rt.exit(machine) {
            ExitStep::Switched(_) => return,
            ExitStep::NeedReactor { block } => {
                if block {
                    rt.end_kernel_wait();
                }
            }
        }
    }
}

#[test]
fn hold_across_yield_point() {
    let mut rt = Runtime::new(None);
    let mut machine = Registers::zeroed();
    let main_id = rt.current_id();
    let mut mutex: Mutex<i32> = Mutex::new(0);

    let handle = thread::spawn(&mut rt, plain_stack(), Registers::zeroed(), plain_layout());
    let t = handle.0;

    // main joins; the spawned thread locks, yields with the guard held,
    // increments, unlocks, and finishes
    assert!(matches!(
        handle.try_join_step(&mut rt),
        pneuma::runtime::JoinPoll::NotYet
    ));
    sched_park(&mut rt, &mut machine);
    assert_eq!(rt.current_id(), t);
    let mut guard = mutex.lock_step(t).unwrap();

    sched_yield(&mut rt, &mut machine);
    assert_eq!(rt.current_id(), t);

    *guard.get_mut() += 1;
    assert!(mutex.unlock(guard).is_none());
    rt.finish_current(Ok(0));
    sched_exit(&mut rt, &mut machine);
    assert_eq!(rt.current_id(), main_id);

    let final_guard = mutex.try_lock().unwrap();
    assert_eq!(*final_guard.get(), 1);
    mutex.unlock(final_guard);
    rt.release(t);
}

#[test]
fn contention() {
    let mut rt = Runtime::new(None);
    let mut machine = Registers::zeroed();
    let main_id = rt.current_id();
    let mut mutex: Mutex<u64> = Mutex::new(0);

    let mut threads = Vec::new();
    for _ in 0..100 {
        let handle = thread::spawn(&mut rt, plain_stack(), Registers::zeroed(), plain_layout());
        threads.push(handle.0);
    }

    let mut guards: Vec<Option<MutexGuard<u64>>> = (0..100).map(|_| None).collect();
    let mut yields_left = vec![10u32; 100];
    let mut done: usize = 0;
    while done < 100 {
        let cur = rt.current_id();
        if cur == main_id {
            thread::Thread(rt.current_id()).unpark(&mut rt);
            sched_yield(&mut rt, &mut machine);
            continue;
        }
        let i = threads.iter().position(|t| *t == cur).unwrap();
        if guards[i].is_none() {
            match mutex.lock_step(cur) {
                Ok(g) => {
                    // the critical section: no other thread holds the lock
                    guards[i] = Some(g);
                    sched_yield(&mut rt, &mut machine);
                }
                Err(_) => {
                    // contended: wait until the holder's unlock wakes us
                    sched_park(&mut rt, &mut machine);
                }
            }
        } else if yields_left[i] > 0 {
            yields_left[i] -= 1;
            sched_yield(&mut rt, &mut machine);
        } else {
            let mut g = guards[i].take().unwrap();
            *g.get_mut() += 1;
            if let Some(w) = mutex.unlock(g) {
                thread::Thread(w).unpark(&mut rt);
            }
            rt.finish_current(Ok(0));
            sched_exit(&mut rt, &mut machine);
            done += 1;
        }
    }

    assert_eq!(*mutex.get_mut(), 100);
    for t in threads {
        if rt.lifecycle_of(t).is_some() {
            rt.release(t);
        }
    }
    assert_eq!(rt.executor.live_contexts(), 1);
}

#[test]
fn try_lock() {
    let mut mutex: Mutex<i32> = Mutex::new(0);
    let guard = mutex.try_lock();
    let err = mutex.try_lock().unwrap_err().clone();
    assert!(!err.message().is_empty());
    drop(guard);
}

#[test]
fn get_mut() {
    let mut mutex = Mutex::new(11);
    assert_eq!(*mutex.get_mut(), 11);
}

#[test]
fn into_inner() {
    let mutex = Mutex::new(11);
    assert_eq!(mutex.into_inner(), 11);
}

#[test]
fn default() {
    assert_eq!(
        Mutex::<String>::default().into_inner(),
        Mutex::new(String::default()).into_inner()
    );
}

#[test]
fn unlock_wakes_waiters_in_order() {
    // the wait queue is FIFO: waiters acquire in arrival order
    let mut mutex: Mutex<i32> = Mutex::new(7);
    let a = pneuma::context::ThreadId(1);
    let b = pneuma::context::ThreadId(2);
    let guard = mutex.try_lock().unwrap();
    assert!(mutex.lock_step(a).is_err());
    assert!(mutex.lock_step(b).is_err());
    // subscribing twice records a waiter once
    assert!(mutex.lock_step(a).is_err());
    assert_eq!(mutex.unlock(guard), Some(a));
    let guard_a = mutex.try_lock().unwrap();
    assert_eq!(mutex.unlock(guard_a), Some(b));
}
