//! Kernel submissions as plain descriptions, and the submission protocol.
//!
//! The running system hands its I/O to the kernel through a submission
//! ring; what the logic decides is *which* operation to submit and what to
//! make of the completion value that comes back.  This module keeps that
//! logic: each operation of the ring's vocabulary is built here as a plain
//! description for the shell to encode, and the caller-side protocol —
//! park until the mailbox fills, fail fast when cancelled, split the
//! signed completion into a result or an error number — is a function
//! with an exact contract.

use vstd::prelude::*;

verus! {

/// The error number a timed-out kernel wait reports; the sleep operation
/// turns it into success.
pub const ETIME: i32 = 62;

/// The error number returned for work cancelled by runtime shutdown.
pub const ECANCELED: i32 = 125;

/// The mask requesting the basic fields of a file-status query.
pub const STATX_BASIC_STATS: u32 = 0x7ff;

/// One kernel operation, as plain data for the shell to encode into its
/// submission ring.
pub enum Submission {
    /// Wake the submitter after the given span.
    Timeout { secs: u64, nanos: u32 },
    /// Write the given bytes to a descriptor.
    Write { fd: i32, data: Vec<u8> },
    /// Read up to `len` bytes, at `offset` or — when `offset` marks no
    /// position — at the descriptor's own cursor.
    Read { fd: i32, len: usize, offset: u64 },
    /// Wait until a descriptor is ready for the given event set; `multi`
    /// keeps the watch armed across completions.
    PollAdd { fd: i32, events: u32, multi: bool },
    /// Open a path relative to the working directory.
    OpenAt { path: Vec<u8>, flags: i32, mode: u32 },
    /// Query file status for a descriptor, or for a path relative to it.
    Statx { fd: i32, path: Option<Vec<u8>>, flags: i32, mask: u32 },
    /// Close a descriptor.
    Close { fd: i32 },
    /// Unlink a path relative to the working directory.
    UnlinkAt { path: Vec<u8>, flags: i32 },
    /// Flush a descriptor's data, and its metadata unless `data_only`.
    Fsync { fd: i32, data_only: bool },
}

/// A sleep for the given span: a kernel timeout that completes with
/// `ETIME` when it fires.
pub fn sleep(secs: u64, nanos: u32) -> (s: Submission)
    ensures
        s == (Submission::Timeout { secs, nanos }),
{
    Submission::Timeout { secs, nanos }
}

/// What a sleep makes of its completion: the timeout firing is the
/// success case, anything else is the error it was.
pub fn sleep_outcome(errno: i32) -> (r: Result<(), i32>)
    ensures
        errno == ETIME ==> r is Ok,
        errno != ETIME ==> r == Err::<(), i32>(errno),
{
    if errno == ETIME {
        Ok(())
    } else {
        Err(errno)
    }
}

/// A write of the given bytes.
pub fn write(fd: i32, buf: &[u8]) -> (s: Submission)
    ensures
        s matches Submission::Write { fd: f, data } && f == fd && data@ == buf@,
{
    let mut data: Vec<u8> = Vec::new();
    let mut i: usize = 0;
    while i < buf.len()
        invariant
            i <= buf@.len(),
            data@ == buf@.subrange(0, i as int),
        decreases buf@.len() - i,
    {
        data.push(buf[i]);
        proof {
            assert(data@ =~= buf@.subrange(0, i + 1 as int));
        }
        i = i + 1;
    }
    proof {
        assert(data@ =~= buf@);
    }
    Submission::Write { fd, data }
}

/// A positioned read of up to `len` bytes.
pub fn read_at(fd: i32, len: usize, offset: u64) -> (s: Submission)
    ensures
        s == (Submission::Read { fd, len, offset }),
{
    Submission::Read { fd, len, offset }
}

/// A read at the descriptor's own cursor: the offset that marks no
/// position.
pub fn read(fd: i32, len: usize) -> (s: Submission)
    ensures
        s == (Submission::Read { fd, len, offset: u64::MAX }),
{
    read_at(fd, len, u64::MAX)
}

/// A one-shot readiness watch.
pub fn readable(fd: i32, events: u32) -> (s: Submission)
    ensures
        s == (Submission::PollAdd { fd, events, multi: false }),
{
    Submission::PollAdd { fd, events, multi: false }
}

/// The standing readiness watch the runtime arms on its wakeup
/// descriptor: every byte a remote waker writes arrives as an ordinary
/// completion, even while the runtime blocks in the kernel.
pub fn readable_multishot(fd: i32, events: u32) -> (s: Submission)
    ensures
        s == (Submission::PollAdd { fd, events, multi: true }),
{
    Submission::PollAdd { fd, events, multi: true }
}

/// The byte a waker writes to the event descriptor to break a blocking
/// kernel wait: the value one, in the descriptor's eight-byte format.
pub fn emit_uevent(fd: i32) -> (s: Submission)
    ensures
        s matches Submission::Write { fd: f, data } && f == fd && data@ == seq![
            1u8,
            0u8,
            0u8,
            0u8,
            0u8,
            0u8,
            0u8,
            0u8,
        ],
{
    let mut data: Vec<u8> = Vec::new();
    data.push(1);
    data.push(0);
    data.push(0);
    data.push(0);
    data.push(0);
    data.push(0);
    data.push(0);
    data.push(0);
    proof {
        assert(data@ =~= seq![1u8, 0u8, 0u8, 0u8, 0u8, 0u8, 0u8, 0u8]);
    }
    Submission::Write { fd, data }
}

/// An open relative to the working directory.
pub fn open_at(path: Vec<u8>, flags: i32, mode: u32) -> (s: Submission)
    ensures
        s == (Submission::OpenAt { path, flags, mode }),
{
    Submission::OpenAt { path, flags, mode }
}

/// A file-status query for the basic fields: for the descriptor itself
/// when no path is given, otherwise for the path.
pub fn statx(fd: i32, path: Option<Vec<u8>>, flags: i32) -> (s: Submission)
    ensures
        s matches Submission::Statx { fd: f, path: p, flags: fl, mask } && f == fd && p == path
            && mask == STATX_BASIC_STATS && fl == (if path is None {
            flags | 0x1000
        } else {
            flags
        }),
{
    let empty_path = path.is_none();
    let flags = if empty_path {
        // AT_EMPTY_PATH: the query names the descriptor itself
        flags | 0x1000
    } else {
        flags
    };
    Submission::Statx { fd, path, flags, mask: STATX_BASIC_STATS }
}

/// A close.
pub fn close(fd: i32) -> (s: Submission)
    ensures
        s == (Submission::Close { fd }),
{
    Submission::Close { fd }
}

/// An unlink relative to the working directory.
pub fn unlink_at(path: Vec<u8>, flags: i32) -> (s: Submission)
    ensures
        s == (Submission::UnlinkAt { path, flags }),
{
    Submission::UnlinkAt { path, flags }
}

/// A flush of data and metadata.
pub fn fsync(fd: i32) -> (s: Submission)
    ensures
        s == (Submission::Fsync { fd, data_only: false }),
{
    Submission::Fsync { fd, data_only: false }
}

/// A flush of data alone.
pub fn fsync_data(fd: i32) -> (s: Submission)
    ensures
        s == (Submission::Fsync { fd, data_only: true }),
{
    Submission::Fsync { fd, data_only: true }
}

/// What a submitter does after waking with the given state: fail fast
/// when cancelled, park again on a spurious wake, and otherwise split the
/// signed completion value into a payload or an error number.
#[derive(PartialEq, Eq, Structural, Debug)]
pub enum SubmitStep {
    /// The runtime is shutting down: return the cancellation error
    /// without consuming a completion.
    Cancelled,
    /// The mailbox is still empty: the wake was spurious, park again.
    ParkAgain,
    /// The operation succeeded with this non-negative payload — a byte
    /// count, a descriptor, or zero.
    Complete(i32),
    /// The operation failed with this positive error number.
    Failed(i32),
}

/// One turn of the submission loop: the caller has just been woken with
/// the given cancellation flag and mailbox contents.
pub fn submission_poll(is_cancelled: bool, io_result: Option<i32>) -> (r: SubmitStep)
    requires
        io_result != Some(i32::MIN),
    ensures
        r == (if is_cancelled {
            SubmitStep::Cancelled
        } else {
            match io_result {
                None => SubmitStep::ParkAgain,
                Some(n) => if n < 0 {
                    SubmitStep::Failed((-n) as i32)
                } else {
                    SubmitStep::Complete(n)
                },
            }
        }),
{
    if is_cancelled {
        SubmitStep::Cancelled
    } else {
        match io_result {
            None => SubmitStep::ParkAgain,
            Some(n) => if n < 0 {
                SubmitStep::Failed(-n)
            } else {
                SubmitStep::Complete(n)
            },
        }
    }
}

} // verus!
