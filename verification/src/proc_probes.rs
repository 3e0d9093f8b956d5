//! The decisions of the process monitor's probes, which watch one process:
//! its `malloc` calls and returns and its `openat` calls. Reading the probe
//! context, the kernel map and the traced process id is left to the probe
//! programs.
use vstd::prelude::*;
use crate::probes::{get_pid_tid, pid_of, tid_of};
use crate::proc_events::{FileEvent, MemoryEvent};

verus! {

/// What the `malloc` return probe does.
#[derive(Clone, Copy, Debug, PartialEq, Eq, Structural)]
pub enum MallocReturn {
    /// nothing
    Ignore,
    /// drop the thread's entry from the kernel map and report nothing
    Discard(u64),
    /// report the allocation, then drop the thread's entry
    Report(u64, MemoryEvent),
}

/// The `malloc` entry probe of thread `pid_tgid`: in the traced process, a
/// non-zero requested size (0 where it cannot be read) is stored under the
/// thread's combined id; otherwise nothing is stored.
pub open spec fn malloc_entry(target_pid: u32, pid_tgid: u64, size_arg: Option<u32>) -> Option<
    (u64, u32),
> {
    let size = match size_arg {
        Some(s) => s,
        None => 0,
    };
    if pid_of(pid_tgid) != target_pid || size == 0 {
        None
    } else {
        Some((pid_tgid, size))
    }
}

/// The `malloc` return probe of thread `pid_tgid`, given the returned
/// address (None where it cannot be read) and the size stored on entry.
/// Outside the traced process nothing happens; a null address drops the
/// thread's entry; with no stored size nothing happens; otherwise the
/// allocation is reported and the entry dropped.
pub open spec fn malloc_return(
    target_pid: u32,
    pid_tgid: u64,
    ret: Option<u64>,
    stored_size: Option<u32>,
    timestamp: u64,
) -> MallocReturn {
    let addr = match ret {
        Some(a) => a,
        None => 0,
    };
    let size = match stored_size {
        Some(s) => s,
        None => 0,
    };
    if pid_of(pid_tgid) != target_pid {
        MallocReturn::Ignore
    } else if addr == 0 {
        MallocReturn::Discard(pid_tgid)
    } else if size == 0 {
        MallocReturn::Ignore
    } else {
        MallocReturn::Report(
            pid_tgid,
            MemoryEvent {
                pid: pid_of(pid_tgid),
                tid: tid_of(pid_tgid),
                timestamp,
                address: addr,
                size,
                is_alloc: true,
            },
        )
    }
}

/// The `malloc` entry probe; see [`malloc_entry`].
pub fn malloc(target_pid: u32, pid_tgid: u64, size_arg: Option<u32>) -> (r: Option<(u64, u32)>)
    ensures
        r == malloc_entry(target_pid, pid_tgid, size_arg),
{
    let (tgid, _pid) = get_pid_tid(pid_tgid);
    if tgid != target_pid {
        return None;
    }
    let size = match size_arg {
        Some(s) => s,
        None => 0,
    };
    if size == 0 {
        return None;
    }
    Some((pid_tgid, size))
}

/// The `malloc` return probe; see [`malloc_return`].
pub fn malloc_ret(
    target_pid: u32,
    pid_tgid: u64,
    ret: Option<u64>,
    stored_size: Option<u32>,
    timestamp: u64,
) -> (r: MallocReturn)
    ensures
        r == malloc_return(target_pid, pid_tgid, ret, stored_size, timestamp),
{
    let (tgid, pid) = get_pid_tid(pid_tgid);
    if tgid != target_pid {
        return MallocReturn::Ignore;
    }
    let addr = match ret {
        Some(a) => a,
        None => 0,
    };
    if addr == 0 {
        return MallocReturn::Discard(pid_tgid);
    }
    let size = match stored_size {
        Some(s) => s,
        None => 0,
    };
    if size == 0 {
        return MallocReturn::Ignore;
    }
    MallocReturn::Report(
        pid_tgid,
        MemoryEvent { pid: tgid, tid: pid, timestamp, address: addr, size, is_alloc: true },
    )
}

/// The `openat` probe of thread `pid_tgid`: in the traced process, when
/// the syscall's arguments could be read (`pathname` is their path
/// pointer) and the path pointer is not null, the file name read from it
/// is reported; otherwise nothing is.
pub fn trace_open(
    target_pid: u32,
    pid_tgid: u64,
    pathname: Option<u64>,
    filename: [u8; 128],
    timestamp: u64,
) -> (event: Option<FileEvent>)
    ensures
        match event {
            Some(ev) => {
                &&& pid_of(pid_tgid) == target_pid
                &&& pathname matches Some(p) && p != 0
                &&& ev.pid == pid_of(pid_tgid)
                &&& ev.tid == tid_of(pid_tgid)
                &&& ev.timestamp == timestamp
                &&& ev.filename@ == filename@
            },
            None => pid_of(pid_tgid) != target_pid || pathname is None || pathname == Some(0u64),
        },
{
    let (tgid, pid) = get_pid_tid(pid_tgid);
    if tgid != target_pid {
        return None;
    }
    let p = match pathname {
        Some(p) => p,
        None => {
            return None;
        },
    };
    if p == 0 {
        return None;
    }
    Some(FileEvent { pid: tgid, tid: pid, timestamp, filename })
}

/// A thread of the traced process whose `malloc` of a non-zero size
/// returns a non-null address has the size stored on entry reported, under
/// its own ids, and its entry dropped.
pub proof fn lemma_malloc_round_trip(
    target_pid: u32,
    pid_tgid: u64,
    size: u32,
    addr: u64,
    timestamp: u64,
)
    requires
        pid_of(pid_tgid) == target_pid,
        size != 0,
        addr != 0,
    ensures
        malloc_entry(target_pid, pid_tgid, Some(size)) == Some((pid_tgid, size)),
        malloc_return(target_pid, pid_tgid, Some(addr), Some(size), timestamp) == MallocReturn::Report(
            pid_tgid,
            MemoryEvent {
                pid: target_pid,
                tid: tid_of(pid_tgid),
                timestamp,
                address: addr,
                size,
                is_alloc: true,
            },
        ),
{
}

} // verus!
