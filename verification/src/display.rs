//! What the monitors' displays show: which events, in what order, and how a
//! descriptor event is described.
use vstd::prelude::*;
use crate::events::{FD_OP_OPEN, FD_OP_CLOSE, FD_OP_READ, FD_OP_WRITE};
use crate::fd_tracker::keep_last;

verus! {

/// How a descriptor event is described on screen.
#[derive(Clone, Copy, Debug, PartialEq, Eq, Structural)]
pub enum FdEventKind {
    Opened,
    Closed,
    Read,
    Wrote,
    Unknown,
}

/// The description of a descriptor event with operation code `op_type`.
pub open spec fn fd_event_kind_of(op_type: u8) -> FdEventKind {
    if op_type == FD_OP_OPEN {
        FdEventKind::Opened
    } else if op_type == FD_OP_CLOSE {
        FdEventKind::Closed
    } else if op_type == FD_OP_READ {
        FdEventKind::Read
    } else if op_type == FD_OP_WRITE {
        FdEventKind::Wrote
    } else {
        FdEventKind::Unknown
    }
}

/// Describes a descriptor event by its operation code; see
/// [`fd_event_kind_of`].
pub fn fd_event_kind(op_type: u8) -> (k: FdEventKind)
    ensures
        k == fd_event_kind_of(op_type),
{
    if op_type == FD_OP_OPEN {
        FdEventKind::Opened
    } else if op_type == FD_OP_CLOSE {
        FdEventKind::Closed
    } else if op_type == FD_OP_READ {
        FdEventKind::Read
    } else if op_type == FD_OP_WRITE {
        FdEventKind::Wrote
    } else {
        FdEventKind::Unknown
    }
}

/// The events, the newest (last) first.
pub fn newest_first<T: Copy>(events: &Vec<T>) -> (r: Vec<T>)
    ensures
        r@ == events@.reverse(),
{
    let n = events.len();
    let mut r: Vec<T> = Vec::new();
    let mut i: usize = n;
    while i > 0
        invariant
            i <= n,
            n == events@.len(),
            r@.len() == n - i,
            forall|j: int| 0 <= j < r@.len() ==> r@[j] == events@[n - 1 - j],
        decreases i,
    {
        i -= 1;
        r.push(events[i]);
    }
    assert(r@ =~= events@.reverse());
    r
}

/// The last `n` events, oldest first; all of them where there are fewer.
pub fn latest<T: Copy>(events: &Vec<T>, n: usize) -> (r: Vec<T>)
    ensures
        r@ == keep_last(events@, n as nat),
{
    let len = events.len();
    let start: usize = if len > n {
        len - n
    } else {
        0
    };
    let mut r: Vec<T> = Vec::new();
    let mut i: usize = start;
    while i < len
        invariant
            start <= i <= len,
            len == events@.len(),
            r@ == events@.subrange(start as int, i as int),
        decreases len - i,
    {
        r.push(events[i]);
        i += 1;
    }
    assert(events@.subrange(0, len as int) =~= events@);
    r
}

} // verus!
