//! Records that the system monitor's kernel probes hand to user space.
use vstd::prelude::*;

verus! {

/// Maximum number of entries the probes' kernel maps hold.
pub const MAX_ENTRIES: u32 = 1024;

/// Operation code of a file descriptor event: the descriptor was opened.
pub const FD_OP_OPEN: u8 = 0;

/// Operation code of a file descriptor event: the descriptor was closed.
pub const FD_OP_CLOSE: u8 = 1;

/// Operation code of a file descriptor event: bytes were read from it.
pub const FD_OP_READ: u8 = 2;

/// Operation code of a file descriptor event: bytes were written to it.
pub const FD_OP_WRITE: u8 = 3;

/// A kernel memory allocation (`is_alloc`) or release.
#[derive(Clone, Copy, Debug, PartialEq, Eq, Structural)]
pub struct MemoryEvent {
    pub pid: u32,
    pub tid: u32,
    pub timestamp: u64,
    pub address: u64,
    pub size: u64,
    /// true for an allocation, false for a release
    pub is_alloc: bool,
}

/// An operation on a file descriptor; `op_type` is one of the `FD_OP_*` codes.
#[derive(Clone, Copy, Debug, PartialEq, Eq, Structural)]
pub struct FileDescriptorEvent {
    pub pid: u32,
    pub tid: u32,
    pub timestamp: u64,
    pub fd: i32,
    pub op_type: u8,
    /// bytes read or written, where the operation moves bytes
    pub count: u64,
}

} // verus!
