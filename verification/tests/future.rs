use pneuma::future::{wait_step, FuturePoll};
use pneuma::registers::Registers;
use pneuma::runtime::{ParkResult, Runtime};

#[test]
fn test_wait_trivial() {
    // a future that is ready at the first poll settles the wait at once
    assert_eq!(wait_step(FuturePoll::Ready(10)), Some(10));
}

#[test]
fn test_wait() {
    // a future that yields once: the first poll arms the waker and
    // reports pending; the thread parks, the wake brings it back, and
    // the second poll settles
    let mut rt = Runtime::new(None);
    let mut machine = Registers::zeroed();
    let main_id = rt.current_id();

    assert_eq!(wait_step(FuturePoll::Pending), None);
    // the poll already fired the waker, as a yielding future does
    rt.waker_from(main_id);
    assert!(!rt.wake(main_id));

    match pneuma::thread::park(&mut rt, &mut machine) {
        ParkResult::NeedReactor { block } => assert!(!block),
        _ => panic!("the posted wake makes the waiter runnable"),
    }
    match rt.park_resume(&mut machine) {
        ParkResult::Switched => {}
        _ => panic!("the waiter resumes"),
    }
    assert_eq!(rt.current_id(), main_id);

    let output = wait_step(FuturePoll::Ready(103));
    assert_eq!(output, Some(103));
}
