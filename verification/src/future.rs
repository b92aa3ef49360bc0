//! Interoperability with a poll-based future model.
//!
//! A green thread waits on a future by polling it with a waker made from
//! its own handle: a ready poll settles the wait with its value, a
//! pending one parks the thread until the armed waker fires, after which
//! it polls again.  The polling itself happens outside the verified
//! boundary; this module fixes the decision each poll's report leads to.

use vstd::prelude::*;

verus! {

/// What one poll of a future reported: a settled value, or that the
/// waker armed for the poll will fire later.
#[derive(PartialEq, Eq, Structural, Debug, Clone, Copy)]
pub enum FuturePoll {
    Ready(u64),
    Pending,
}

/// One turn of a wait: a ready poll ends it with the settled value; a
/// pending one leaves nothing, and the caller parks until the armed
/// waker wakes it, then polls again.
pub fn wait_step(p: FuturePoll) -> (r: Option<u64>)
    ensures
        r == (match p {
            FuturePoll::Ready(v) => Some(v),
            FuturePoll::Pending => None::<u64>,
        }),
{
    match p {
        FuturePoll::Ready(v) => Some(v),
        FuturePoll::Pending => None,
    }
}

} // verus!
