use sys_monitor::events::{FileDescriptorEvent, MemoryEvent, FD_OP_CLOSE, FD_OP_OPEN, FD_OP_READ, FD_OP_WRITE};
use sys_monitor::probes::{
    get_pid_tid, make_alloc_key, make_fd_key, syscall_arg_offset, track_close, track_kfree,
    track_kmalloc_enter, track_kmalloc_exit, track_open, track_openat, track_read, track_write,
};
use sys_monitor::proc_events;
use sys_monitor::proc_probes::{malloc, malloc_ret, trace_open, MallocReturn};

const PID_TGID: u64 = (42u64 << 32) | 7;

#[test]
fn fd_keys_put_pid_high_and_descriptor_low() {
    assert_eq!(make_fd_key(1, 2), 0x1_0000_0002);
    assert_eq!(make_fd_key(1, -1), 0x1_FFFF_FFFF);
    assert_eq!(make_fd_key(0, 0), 0);
    assert_eq!(make_fd_key(u32::MAX, i32::MIN), 0xFFFF_FFFF_8000_0000);
    assert_ne!(make_fd_key(1, 2), make_fd_key(2, 1));
}

#[test]
fn alloc_keys_round_trip_through_pid_tgid() {
    assert_eq!(make_alloc_key(3, 4), 0x3_0000_0004);
    assert_eq!(get_pid_tid(PID_TGID), (42, 7));
    for x in [0u64, 1, PID_TGID, u64::MAX, 0xFFFF_FFFF] {
        let (pid, tid) = get_pid_tid(x);
        assert_eq!(make_alloc_key(pid, tid), x);
    }
}

#[test]
fn syscall_arguments_follow_the_header() {
    assert_eq!(syscall_arg_offset(0), 8);
    assert_eq!(syscall_arg_offset(2), 24);
}

#[test]
fn descriptor_probes_build_events() {
    let (key, e) = track_open(PID_TGID, 99);
    assert_eq!(key, make_fd_key(42, 0));
    assert_eq!(e, FileDescriptorEvent { pid: 42, tid: 7, timestamp: 99, fd: 0, op_type: FD_OP_OPEN, count: 0 });
    assert_eq!(track_openat(PID_TGID, 99), (key, e));
    let (key, e) = track_close(PID_TGID, 5, 0xFFFF_FFFF);
    assert_eq!(e.fd, -1);
    assert_eq!(e.op_type, FD_OP_CLOSE);
    assert_eq!(key, make_fd_key(42, -1));
    let r = track_read(PID_TGID, 6, 3, 4096);
    assert_eq!((r.fd, r.op_type, r.count, r.pid, r.tid), (3, FD_OP_READ, 4096, 42, 7));
    let w = track_write(PID_TGID, 6, 0x1_0000_0001, 10);
    assert_eq!((w.fd, w.op_type, w.count), (1, FD_OP_WRITE, 10));
}

#[test]
fn kmalloc_probes_pair_entry_and_exit() {
    let (key, size) = track_kmalloc_enter(PID_TGID, Some(256));
    assert_eq!(key, PID_TGID);
    assert_eq!(size, 256);
    assert_eq!(track_kmalloc_enter(PID_TGID, None), (PID_TGID, 0));
    let r = track_kmalloc_exit(PID_TGID, Some(0xdead), Some(256), 77);
    assert_eq!(r, Ok((PID_TGID, Some(MemoryEvent {
        pid: 42, tid: 7, timestamp: 77, address: 0xdead, size: 256, is_alloc: true,
    }))));
    assert_eq!(track_kmalloc_exit(PID_TGID, Some(0), Some(256), 77), Ok((PID_TGID, None)));
    assert_eq!(track_kmalloc_exit(PID_TGID, None, Some(256), 77), Err(0));
    let no_size = track_kmalloc_exit(PID_TGID, Some(1), None, 77).unwrap().1.unwrap();
    assert_eq!(no_size.size, 0);
}

#[test]
fn kfree_probe_reports_non_null_releases() {
    assert_eq!(track_kfree(PID_TGID, 1, 0), None);
    let e = track_kfree(PID_TGID, 1, 0x10).unwrap();
    assert_eq!((e.address, e.size, e.is_alloc, e.pid, e.tid), (0x10, 0, false, 42, 7));
}

#[test]
fn malloc_probe_watches_only_the_target() {
    assert_eq!(malloc(42, PID_TGID, Some(64)), Some((PID_TGID, 64)));
    assert_eq!(malloc(41, PID_TGID, Some(64)), None);
    assert_eq!(malloc(42, PID_TGID, Some(0)), None);
    assert_eq!(malloc(42, PID_TGID, None), None);
}

#[test]
fn malloc_return_probe_decides() {
    assert_eq!(malloc_ret(41, PID_TGID, Some(8), Some(64), 1), MallocReturn::Ignore);
    assert_eq!(malloc_ret(42, PID_TGID, Some(0), Some(64), 1), MallocReturn::Discard(PID_TGID));
    assert_eq!(malloc_ret(42, PID_TGID, None, Some(64), 1), MallocReturn::Discard(PID_TGID));
    assert_eq!(malloc_ret(42, PID_TGID, Some(8), None, 1), MallocReturn::Ignore);
    assert_eq!(malloc_ret(42, PID_TGID, Some(8), Some(64), 1), MallocReturn::Report(
        PID_TGID,
        proc_events::MemoryEvent { pid: 42, tid: 7, timestamp: 1, address: 8, size: 64, is_alloc: true },
    ));
}

#[test]
fn openat_probe_reports_named_files_of_the_target() {
    let mut name = [0u8; 128];
    name[..4].copy_from_slice(b"/etc");
    let e = trace_open(42, PID_TGID, Some(0x7000), name, 9).unwrap();
    assert_eq!((e.pid, e.tid, e.timestamp), (42, 7, 9));
    assert_eq!(&e.filename[..5], b"/etc\0");
    assert!(trace_open(41, PID_TGID, Some(0x7000), name, 9).is_none());
    assert!(trace_open(42, PID_TGID, Some(0), name, 9).is_none());
    assert!(trace_open(42, PID_TGID, None, name, 9).is_none());
}
