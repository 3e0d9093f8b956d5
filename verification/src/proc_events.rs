//! Records that the process monitor's probes hand to user space.
use vstd::prelude::*;

verus! {

/// Maximum number of entries the probes' kernel maps hold.
pub const MAX_ENTRIES: u32 = 1024;

/// A `malloc` of the traced process that returned memory.
#[derive(Clone, Copy, Debug, PartialEq, Eq, Structural)]
pub struct MemoryEvent {
    pub pid: u32,
    pub tid: u32,
    pub timestamp: u64,
    pub address: u64,
    pub size: u32,
    pub is_alloc: bool,
}

/// An `openat` of the traced process; `filename` holds the path's bytes,
/// padded with zero bytes.
#[derive(Clone, Copy, Debug)]
pub struct FileEvent {
    pub pid: u32,
    pub tid: u32,
    pub timestamp: u64,
    pub filename: [u8; 128],
}

} // verus!
