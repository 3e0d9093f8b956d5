//! The records the probes write into perf buffers, read from their bytes:
//! each record is laid out as a C struct, fields little-endian, as the BPF
//! target stores them.
use vstd::prelude::*;
use crate::events;
use crate::proc_events;

verus! {

/// Bytes of a system monitor memory record: two 32-bit ids, three 64-bit
/// fields, a flag byte, padded to 8-byte alignment.
pub const MEMORY_RECORD_LEN: usize = 40;

/// Bytes of a process monitor memory record: two 32-bit ids, two 64-bit
/// fields, a 32-bit size and a flag byte, padded to 8-byte alignment.
pub const PROC_MEMORY_RECORD_LEN: usize = 32;

/// Bytes of a process monitor file record: two 32-bit ids, a 64-bit
/// timestamp and the 128-byte file name.
pub const FILE_RECORD_LEN: usize = 144;

/// The little-endian 32-bit number at `off`.
pub open spec fn le_u32(b: Seq<u8>, off: int) -> int {
    b[off] + b[off + 1] * 0x100 + b[off + 2] * 0x1_0000 + b[off + 3] * 0x100_0000
}

/// The little-endian 64-bit number at `off`.
pub open spec fn le_u64(b: Seq<u8>, off: int) -> int {
    le_u32(b, off) + le_u32(b, off + 4) * 0x1_0000_0000
}

fn read_u32(b: &[u8], off: usize) -> (v: u32)
    requires
        off + 4 <= b@.len(),
    ensures
        v == le_u32(b@, off as int),
{
    b[off] as u32 + b[off + 1] as u32 * 0x100 + b[off + 2] as u32 * 0x1_0000 + b[off + 3] as u32
        * 0x100_0000
}

fn read_u64(b: &[u8], off: usize) -> (v: u64)
    requires
        off + 8 <= b@.len(),
    ensures
        v == le_u64(b@, off as int),
{
    let n = b.len();
    assert(off + 4 <= n);
    let lo = read_u32(b, off);
    let hi = read_u32(b, off + 4);
    lo as u64 + hi as u64 * 0x1_0000_0000
}

/// Reads a system monitor memory record.
pub fn decode_memory_event(b: &[u8]) -> (e: events::MemoryEvent)
    requires
        b@.len() >= MEMORY_RECORD_LEN,
    ensures
        e.pid == le_u32(b@, 0),
        e.tid == le_u32(b@, 4),
        e.timestamp == le_u64(b@, 8),
        e.address == le_u64(b@, 16),
        e.size == le_u64(b@, 24),
        e.is_alloc == (b@[32] != 0),
{
    events::MemoryEvent {
        pid: read_u32(b, 0),
        tid: read_u32(b, 4),
        timestamp: read_u64(b, 8),
        address: read_u64(b, 16),
        size: read_u64(b, 24),
        is_alloc: b[32] != 0,
    }
}

/// Reads a process monitor memory record.
pub fn decode_proc_memory_event(b: &[u8]) -> (e: proc_events::MemoryEvent)
    requires
        b@.len() >= PROC_MEMORY_RECORD_LEN,
    ensures
        e.pid == le_u32(b@, 0),
        e.tid == le_u32(b@, 4),
        e.timestamp == le_u64(b@, 8),
        e.address == le_u64(b@, 16),
        e.size == le_u32(b@, 24),
        e.is_alloc == (b@[28] != 0),
{
    proc_events::MemoryEvent {
        pid: read_u32(b, 0),
        tid: read_u32(b, 4),
        timestamp: read_u64(b, 8),
        address: read_u64(b, 16),
        size: read_u32(b, 24),
        is_alloc: b[28] != 0,
    }
}

/// Reads a process monitor file record.
pub fn decode_file_event(b: &[u8]) -> (e: proc_events::FileEvent)
    requires
        b@.len() >= FILE_RECORD_LEN,
    ensures
        e.pid == le_u32(b@, 0),
        e.tid == le_u32(b@, 4),
        e.timestamp == le_u64(b@, 8),
        e.filename@ == b@.subrange(16, 144),
{
    let mut filename = [0u8; 128];
    let mut i: usize = 0;
    while i < 128
        invariant
            i <= 128,
            b@.len() >= FILE_RECORD_LEN,
            filename@.len() == 128,
            forall|j: int| 0 <= j < i ==> filename@[j] == b@[16 + j],
        decreases 128 - i,
    {
        filename[i] = b[16 + i];
        i += 1;
    }
    assert(filename@ =~= b@.subrange(16, 144));
    proc_events::FileEvent {
        pid: read_u32(b, 0),
        tid: read_u32(b, 4),
        timestamp: read_u64(b, 8),
        filename,
    }
}

} // verus!
