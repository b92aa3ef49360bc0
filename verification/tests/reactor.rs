use pneuma::context::AllocLayout;
use pneuma::reactor::{
    close, emit_uevent, fsync, fsync_data, open_at, read, read_at, readable, readable_multishot,
    sleep, sleep_outcome, statx, submission_poll, unlink_at, Submission, SubmitStep, ECANCELED,
    ETIME, STATX_BASIC_STATS,
};
use pneuma::registers::Registers;
use pneuma::runtime::{ExitStep, ParkResult, Runtime};
use pneuma::stack::Stack;
use pneuma::thread;

#[test]
fn submissions_describe_operations() {
    match sleep(3, 500) {
        Submission::Timeout { secs, nanos } => {
            assert_eq!(secs, 3);
            assert_eq!(nanos, 500);
        }
        _ => panic!("a sleep is a timeout"),
    }
    match pneuma::reactor::write(5, &[1, 2, 3]) {
        Submission::Write { fd, data } => {
            assert_eq!(fd, 5);
            assert_eq!(data, vec![1, 2, 3]);
        }
        _ => panic!("a write carries its bytes"),
    }
    match read_at(7, 64, 12) {
        Submission::Read { fd, len, offset } => {
            assert_eq!((fd, len, offset), (7, 64, 12));
        }
        _ => panic!("a positioned read carries its offset"),
    }
    match read(7, 64) {
        Submission::Read { offset, .. } => assert_eq!(offset, u64::MAX),
        _ => panic!("a plain read uses the cursor offset"),
    }
    match readable(9, 1) {
        Submission::PollAdd { multi, .. } => assert!(!multi),
        _ => panic!("a readiness watch is a poll"),
    }
    match readable_multishot(9, 1) {
        Submission::PollAdd { multi, .. } => assert!(multi),
        _ => panic!("the standing watch is multishot"),
    }
    match close(4) {
        Submission::Close { fd } => assert_eq!(fd, 4),
        _ => panic!("a close names its descriptor"),
    }
    match unlink_at(b"x".to_vec(), 0) {
        Submission::UnlinkAt { path, flags } => {
            assert_eq!(path, b"x".to_vec());
            assert_eq!(flags, 0);
        }
        _ => panic!("an unlink names its path"),
    }
    match fsync(3) {
        Submission::Fsync { data_only, .. } => assert!(!data_only),
        _ => panic!("fsync flushes metadata too"),
    }
    match fsync_data(3) {
        Submission::Fsync { data_only, .. } => assert!(data_only),
        _ => panic!("fsync_data flushes data alone"),
    }
    match open_at(b"foo".to_vec(), 0, 0o644) {
        Submission::OpenAt { path, flags, mode } => {
            assert_eq!(path, b"foo".to_vec());
            assert_eq!(flags, 0);
            assert_eq!(mode, 0o644);
        }
        _ => panic!("an open names its path"),
    }
}

#[test]
fn statx_defaults_to_the_descriptor() {
    match statx(3, None, 0) {
        Submission::Statx { fd, path, flags, mask } => {
            assert_eq!(fd, 3);
            assert!(path.is_none());
            // the empty-path flag points the query at the descriptor
            assert_eq!(flags, 0x1000);
            assert_eq!(mask, STATX_BASIC_STATS);
        }
        _ => panic!("a status query is a statx"),
    }
    match statx(3, Some(b"foo".to_vec()), 0) {
        Submission::Statx { flags, .. } => assert_eq!(flags, 0),
        _ => panic!("a status query is a statx"),
    }
}

#[test]
fn event_wakeup_byte() {
    match emit_uevent(11) {
        Submission::Write { fd, data } => {
            assert_eq!(fd, 11);
            assert_eq!(data, vec![1, 0, 0, 0, 0, 0, 0, 0]);
        }
        _ => panic!("the wakeup byte is a write"),
    }
}

#[test]
fn submission_poll_decides() {
    assert_eq!(submission_poll(true, None), SubmitStep::Cancelled);
    assert_eq!(submission_poll(true, Some(7)), SubmitStep::Cancelled);
    assert_eq!(submission_poll(false, None), SubmitStep::ParkAgain);
    assert_eq!(submission_poll(false, Some(42)), SubmitStep::Complete(42));
    assert_eq!(submission_poll(false, Some(0)), SubmitStep::Complete(0));
    assert_eq!(submission_poll(false, Some(-2)), SubmitStep::Failed(2));
    assert_eq!(submission_poll(false, Some(-(ECANCELED))), SubmitStep::Failed(ECANCELED));
}

#[test]
fn sleep_outcome_accepts_the_timeout() {
    assert_eq!(sleep_outcome(ETIME), Ok(()));
    assert_eq!(sleep_outcome(5), Err(5));
}

#[test]
fn submission_completion_round_trip() {
    // a thread submits, parks, and is woken with the completion in its
    // mailbox, exactly once
    let mut rt = Runtime::new(None);
    let mut machine = Registers::zeroed();
    let main_id = rt.current_id();
    let handle = thread::spawn(
        &mut rt,
        Stack { base: 0, size: 0 },
        Registers::zeroed(),
        AllocLayout { size: 64, align: 8 },
    );
    let t = handle.0;

    thread::Thread(rt.current_id()).unpark(&mut rt);
    match thread::yield_now(&mut rt, &mut machine) {
        ParkResult::Switched => {}
        _ => panic!("the spawned thread should run"),
    }
    assert_eq!(rt.current_id(), t);

    // the thread submits a sleep and parks
    let tag = rt.submit();
    assert_eq!(tag, t);
    match thread::park(&mut rt, &mut machine) {
        ParkResult::Switched => {}
        _ => panic!("main is runnable"),
    }
    assert_eq!(rt.current_id(), main_id);

    // the kernel completes the timeout
    rt.complete(t, -ETIME);

    thread::Thread(rt.current_id()).unpark(&mut rt);
    match thread::yield_now(&mut rt, &mut machine) {
        ParkResult::Switched => {}
        _ => panic!("the woken thread should run"),
    }
    assert_eq!(rt.current_id(), t);

    let io = rt.take_io_result(t);
    assert_eq!(io, Some(-ETIME));
    match submission_poll(false, io) {
        SubmitStep::Failed(errno) => assert_eq!(sleep_outcome(errno), Ok(())),
        _ => panic!("the timeout completes with its error number"),
    }
    // the mailbox is drained: a second take sees nothing
    assert_eq!(rt.take_io_result(t), None);

    rt.finish_current(Ok(0));
    loop {
        match rt.exit(&mut machine) {
            ExitStep::Switched(_) => break,
            ExitStep::NeedReactor { block } => {
                if block {
                    rt.end_kernel_wait();
                }
            }
        }
    }
    rt.release(t);
    assert_eq!(rt.executor.live_contexts(), 1);
}

#[test]
fn unknown_completion_tag_is_ignored() {
    // the standing wakeup watch completes with an empty tag; nothing
    // changes
    let mut rt = Runtime::new(None);
    rt.complete(pneuma::context::ThreadId(7), 1);
    assert_eq!(rt.executor.live_contexts(), 1);
    assert_eq!(rt.take_io_result(rt.current_id()), None);
}
