//! The decisions of the system monitor's kernel probes: how they key their
//! maps and which records they hand to user space. Reading the probe
//! context and the kernel maps is left to the probe programs.
use vstd::prelude::*;
use crate::events::{FileDescriptorEvent, MemoryEvent, FD_OP_OPEN, FD_OP_CLOSE, FD_OP_READ, FD_OP_WRITE};

verus! {

/// The low 32 bits of `fd`, read as an unsigned number.
pub open spec fn fd_low_bits(fd: i32) -> int {
    if fd >= 0 {
        fd as int
    } else {
        fd + 0x1_0000_0000
    }
}

/// The map key of descriptor `fd` of process `pid`: the process id in the
/// high 32 bits, the descriptor's bits in the low 32 bits.
pub open spec fn fd_key(pid: u32, fd: i32) -> u64 {
    (pid * 0x1_0000_0000 + fd_low_bits(fd)) as u64
}

/// The map key of thread `tid` of process `pid`.
pub open spec fn alloc_key(pid: u32, tid: u32) -> u64 {
    (pid * 0x1_0000_0000 + tid) as u64
}

/// Builds the 64-bit key of descriptor `fd` of process `pid`.
pub fn make_fd_key(pid: u32, fd: i32) -> (k: u64)
    ensures
        k == fd_key(pid, fd),
{
    let low = #[verifier::truncate] (fd as u32);
    if fd >= 0 {
        assert(low == fd) by (bit_vector)
            requires
                low == fd as u32,
                fd >= 0,
        ;
    } else {
        assert(low == fd + 0x1_0000_0000) by (bit_vector)
            requires
                low == fd as u32,
                fd < 0,
        ;
    }
    let p = pid as u64;
    let l = low as u64;
    assert((p << 32u64) | l == p * 0x1_0000_0000 + l) by (bit_vector)
        requires
            p < 0x1_0000_0000,
            l < 0x1_0000_0000,
    ;
    (p << 32u64) | l
}

/// Builds the 64-bit key of thread `tid` of process `pid`.
pub fn make_alloc_key(pid: u32, tid: u32) -> (k: u64)
    ensures
        k == alloc_key(pid, tid),
{
    let p = pid as u64;
    let t = tid as u64;
    assert((p << 32u64) | t == p * 0x1_0000_0000 + t) by (bit_vector)
        requires
            p < 0x1_0000_0000,
            t < 0x1_0000_0000,
    ;
    (p << 32u64) | t
}

/// Splits the value of the kernel's `bpf_get_current_pid_tgid` helper into
/// the process id (thread group id, high half) and the thread id (low half).
pub fn get_pid_tid(pid_tgid: u64) -> (ids: (u32, u32))
    ensures
        ids.0 == pid_tgid / 0x1_0000_0000,
        ids.1 == pid_tgid % 0x1_0000_0000,
{
    let hi = pid_tgid >> 32u64;
    let lo = pid_tgid & 0xFFFF_FFFFu64;
    assert(hi == pid_tgid / 0x1_0000_0000 && lo == pid_tgid % 0x1_0000_0000) by (bit_vector)
        requires
            hi == pid_tgid >> 32u64,
            lo == pid_tgid & 0xFFFF_FFFFu64,
    ;
    (hi as u32, lo as u32)
}

/// Distinct descriptors have distinct keys.
pub proof fn lemma_fd_key_injective(pid1: u32, fd1: i32, pid2: u32, fd2: i32)
    requires
        fd_key(pid1, fd1) == fd_key(pid2, fd2),
    ensures
        pid1 == pid2,
        fd1 == fd2,
{
    let a = pid1 * 0x1_0000_0000 + fd_low_bits(fd1);
    let b = pid2 * 0x1_0000_0000 + fd_low_bits(fd2);
    assert(0 <= a < 0x1_0000_0000_0000_0000) by (nonlinear_arith)
        requires
            a == pid1 * 0x1_0000_0000 + fd_low_bits(fd1),
            0 <= fd_low_bits(fd1) < 0x1_0000_0000,
            0 <= pid1 < 0x1_0000_0000,
    ;
    assert(0 <= b < 0x1_0000_0000_0000_0000) by (nonlinear_arith)
        requires
            b == pid2 * 0x1_0000_0000 + fd_low_bits(fd2),
            0 <= fd_low_bits(fd2) < 0x1_0000_0000,
            0 <= pid2 < 0x1_0000_0000,
    ;
    assert(a == b);
    assert(pid1 == pid2) by (nonlinear_arith)
        requires
            pid1 * 0x1_0000_0000 + fd_low_bits(fd1) == pid2 * 0x1_0000_0000 + fd_low_bits(fd2),
            0 <= fd_low_bits(fd1) < 0x1_0000_0000,
            0 <= fd_low_bits(fd2) < 0x1_0000_0000,
    ;
}

/// The key a probe builds from a thread's ids is the kernel's combined id
/// of that thread itself.
pub proof fn lemma_alloc_key_of_split(pid_tgid: u64)
    ensures
        alloc_key(
            (pid_tgid / 0x1_0000_0000) as u32,
            (pid_tgid % 0x1_0000_0000) as u32,
        ) == pid_tgid,
{
    let hi = pid_tgid / 0x1_0000_0000;
    let lo = pid_tgid % 0x1_0000_0000;
    assert(hi * 0x1_0000_0000 + lo == pid_tgid);
}

/// The process id and thread id in the kernel's combined id.
pub open spec fn pid_of(pid_tgid: u64) -> u32 {
    (pid_tgid / 0x1_0000_0000) as u32
}

/// The thread id in the kernel's combined id.
pub open spec fn tid_of(pid_tgid: u64) -> u32 {
    (pid_tgid % 0x1_0000_0000) as u32
}

/// The descriptor event a probe of thread `pid_tgid` reports.
pub open spec fn fd_event(
    pid_tgid: u64,
    timestamp: u64,
    fd: i32,
    op_type: u8,
    count: u64,
) -> FileDescriptorEvent {
    FileDescriptorEvent {
        pid: pid_of(pid_tgid),
        tid: tid_of(pid_tgid),
        timestamp,
        fd,
        op_type,
        count,
    }
}

/// Byte offset of syscall argument `arg_num` in a syscall tracepoint's
/// record: the arguments follow an 8-byte header, 8 bytes each.
pub fn syscall_arg_offset(arg_num: usize) -> (offset: usize)
    requires
        8 + arg_num * 8 <= usize::MAX,
    ensures
        offset == 8 + arg_num * 8,
{
    8 + arg_num * 8
}

fn probe_fd_event(pid_tgid: u64, timestamp: u64, fd: i32, op_type: u8, count: u64) -> (event: FileDescriptorEvent)
    ensures
        event == fd_event(pid_tgid, timestamp, fd, op_type, count),
{
    let (pid, tid) = get_pid_tid(pid_tgid);
    FileDescriptorEvent { pid, tid, timestamp, fd, op_type, count }
}

/// The `open` probe: the descriptor is not known on entry, so descriptor 0
/// stands for it; the probe files it under its key and reports an open.
pub fn track_open(pid_tgid: u64, timestamp: u64) -> (out: (u64, FileDescriptorEvent))
    ensures
        out.0 == fd_key(pid_of(pid_tgid), 0),
        out.1 == fd_event(pid_tgid, timestamp, 0, FD_OP_OPEN, 0),
{
    let (pid, _tid) = get_pid_tid(pid_tgid);
    let fd: i32 = 0;
    let key = make_fd_key(pid, fd);
    (key, probe_fd_event(pid_tgid, timestamp, fd, FD_OP_OPEN, 0))
}

/// The `openat` probe; it decides as the `open` probe does.
pub fn track_openat(pid_tgid: u64, timestamp: u64) -> (out: (u64, FileDescriptorEvent))
    ensures
        out.0 == fd_key(pid_of(pid_tgid), 0),
        out.1 == fd_event(pid_tgid, timestamp, 0, FD_OP_OPEN, 0),
{
    track_open(pid_tgid, timestamp)
}

/// The `close` probe: the descriptor is the syscall's first argument; its
/// key is dropped from the kernel map and a close is reported.
pub fn track_close(pid_tgid: u64, timestamp: u64, arg0: u64) -> (out: (u64, FileDescriptorEvent))
    ensures
        out.0 == fd_key(pid_of(pid_tgid), arg0 as i32),
        out.1 == fd_event(pid_tgid, timestamp, arg0 as i32, FD_OP_CLOSE, 0),
{
    let (pid, _tid) = get_pid_tid(pid_tgid);
    let fd = #[verifier::truncate] (arg0 as i32);
    let key = make_fd_key(pid, fd);
    (key, probe_fd_event(pid_tgid, timestamp, fd, FD_OP_CLOSE, 0))
}

/// The `read` probe: the descriptor is the first argument, the byte count
/// the third.
pub fn track_read(pid_tgid: u64, timestamp: u64, arg0: u64, arg2: u64) -> (event: FileDescriptorEvent)
    ensures
        event == fd_event(pid_tgid, timestamp, arg0 as i32, FD_OP_READ, arg2),
{
    let fd = #[verifier::truncate] (arg0 as i32);
    probe_fd_event(pid_tgid, timestamp, fd, FD_OP_READ, arg2)
}

/// The `write` probe: the descriptor is the first argument, the byte count
/// the third.
pub fn track_write(pid_tgid: u64, timestamp: u64, arg0: u64, arg2: u64) -> (event: FileDescriptorEvent)
    ensures
        event == fd_event(pid_tgid, timestamp, arg0 as i32, FD_OP_WRITE, arg2),
{
    let fd = #[verifier::truncate] (arg0 as i32);
    probe_fd_event(pid_tgid, timestamp, fd, FD_OP_WRITE, arg2)
}

/// What the allocation-entry probe stores: the thread's key and the
/// requested size, 0 where the argument cannot be read.
pub open spec fn kmalloc_entry(pid_tgid: u64, size_arg: Option<u64>) -> (u64, u64) {
    (
        alloc_key(pid_of(pid_tgid), tid_of(pid_tgid)),
        match size_arg {
            Some(s) => s,
            None => 0,
        },
    )
}

/// The allocation-exit probe's decision, given the returned address (None
/// where the return value cannot be read) and the size stored at entry:
/// an unreadable return value is an error; otherwise the thread's entry is
/// dropped from the kernel map and, for a non-null address, an allocation
/// of the stored size (0 where none was stored) is reported.
pub open spec fn kmalloc_exit(
    pid_tgid: u64,
    ret: Option<u64>,
    stored_size: Option<u64>,
    timestamp: u64,
) -> Result<(u64, Option<MemoryEvent>), u64> {
    let key = alloc_key(pid_of(pid_tgid), tid_of(pid_tgid));
    match ret {
        None => Err(0),
        Some(addr) => if addr == 0 {
            Ok((key, None))
        } else {
            Ok(
                (
                    key,
                    Some(
                        MemoryEvent {
                            pid: pid_of(pid_tgid),
                            tid: tid_of(pid_tgid),
                            timestamp,
                            address: addr,
                            size: match stored_size {
                                Some(s) => s,
                                None => 0,
                            },
                            is_alloc: true,
                        },
                    ),
                ),
            )
        },
    }
}

/// The allocation-entry probe: the key under which the size is stored,
/// and the size.
pub fn track_kmalloc_enter(pid_tgid: u64, size_arg: Option<u64>) -> (entry: (u64, u64))
    ensures
        entry == kmalloc_entry(pid_tgid, size_arg),
{
    let size = match size_arg {
        Some(size) => size,
        None => 0,
    };
    let (pid, tid) = get_pid_tid(pid_tgid);
    let key = make_alloc_key(pid, tid);
    (key, size)
}

/// The allocation-exit probe; see [`kmalloc_exit`].
pub fn track_kmalloc_exit(
    pid_tgid: u64,
    ret: Option<u64>,
    stored_size: Option<u64>,
    timestamp: u64,
) -> (r: Result<(u64, Option<MemoryEvent>), u64>)
    ensures
        r == kmalloc_exit(pid_tgid, ret, stored_size, timestamp),
{
    let (pid, tid) = get_pid_tid(pid_tgid);
    let addr = match ret {
        Some(a) => a,
        None => {
            return Err(0);
        },
    };
    let key = make_alloc_key(pid, tid);
    if addr == 0 {
        return Ok((key, None));
    }
    let size = match stored_size {
        Some(size) => size,
        None => 0,
    };
    let event = MemoryEvent { pid, tid, timestamp, address: addr, size, is_alloc: true };
    Ok((key, Some(event)))
}

/// The release probe: a non-null pointer is reported as a release of
/// unknown size; a null pointer is not reported.
pub fn track_kfree(pid_tgid: u64, timestamp: u64, addr: u64) -> (event: Option<MemoryEvent>)
    ensures
        event == if addr == 0 {
            None
        } else {
            Some(
                MemoryEvent {
                    pid: pid_of(pid_tgid),
                    tid: tid_of(pid_tgid),
                    timestamp,
                    address: addr,
                    size: 0,
                    is_alloc: false,
                },
            )
        },
{
    let (pid, tid) = get_pid_tid(pid_tgid);
    if addr == 0 {
        return None;
    }
    Some(MemoryEvent { pid, tid, timestamp, address: addr, size: 0, is_alloc: false })
}

/// An allocation seen on entry and on exit of the same thread reports the
/// size stored on entry, and leaves the thread no entry in the kernel map.
pub proof fn lemma_kmalloc_round_trip(
    sizes: Map<u64, u64>,
    pid_tgid: u64,
    size_arg: Option<u64>,
    addr: u64,
    timestamp: u64,
)
    requires
        addr != 0,
    ensures
        ({
            let (key, size) = kmalloc_entry(pid_tgid, size_arg);
            let stored = sizes.insert(key, size);
            let exit = kmalloc_exit(pid_tgid, Some(addr), Some(stored[key]), timestamp);
            &&& exit matches Ok((k, Some(ev)))
            &&& ev.size == size && ev.address == addr && ev.is_alloc
            &&& k == key
            &&& stored.remove(k) == sizes.remove(key)
        }),
{
    let (key, size) = kmalloc_entry(pid_tgid, size_arg);
    assert(sizes.insert(key, size).remove(key) =~= sizes.remove(key));
}

} // verus!
