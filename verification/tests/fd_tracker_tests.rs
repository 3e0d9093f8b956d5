use std::cell::Cell;
use sys_monitor::clock::WallTime;
use sys_monitor::events::{FileDescriptorEvent, FD_OP_CLOSE, FD_OP_OPEN, FD_OP_READ, FD_OP_WRITE};
use sys_monitor::fd_tracker::{parse_pid, FdTracker, ProcessFdStats, HISTORY_LIMIT};

fn at(secs: u64) -> WallTime {
    WallTime { before_epoch: false, secs, nanos: 0 }
}

fn ev(pid: u32, fd: i32, op_type: u8, count: u64) -> FileDescriptorEvent {
    FileDescriptorEvent { pid, tid: pid, timestamp: 0, fd, op_type, count }
}

fn no_link(_pid: u32, _fd: i32) -> Option<String> {
    None
}

fn stats(t: &FdTracker, pid: u32) -> ProcessFdStats {
    *t.get_process_stats(pid).unwrap()
}

#[test]
fn open_tracks_descriptor_with_its_path() {
    let mut t = FdTracker::new();
    t.record_event_at(ev(10, 3, FD_OP_OPEN, 0), at(100), |pid, fd| {
        Some(format!("/proc/{}/fd/{}", pid, fd))
    });
    let f = t.get_fd_info(10, 3).unwrap();
    assert_eq!(f.pid, 10);
    assert_eq!(f.fd, 3);
    assert_eq!(f.path.as_deref(), Some("/proc/10/fd/3"));
    assert_eq!(f.open_time, at(100));
    assert_eq!(f.last_operation, at(100));
    assert_eq!((f.read_bytes, f.write_bytes, f.read_ops, f.write_ops), (0, 0, 0, 0));
    let s = stats(&t, 10);
    assert_eq!((s.open_fds, s.total_opened, s.peak_fds), (1, 1, 1));
}

#[test]
fn failed_open_is_ignored() {
    let mut t = FdTracker::new();
    t.record_event_at(ev(10, -1, FD_OP_OPEN, 0), at(1), no_link);
    assert!(t.get_fd_info(10, -1).is_none());
    assert!(t.get_process_stats(10).is_none());
    assert_eq!(t.get_recent_events(10).len(), 1);
}

#[test]
fn reads_and_writes_are_counted() {
    let mut t = FdTracker::new();
    t.record_event_at(ev(5, 4, FD_OP_OPEN, 0), at(1), no_link);
    t.record_event_at(ev(5, 4, FD_OP_READ, 100), at(2), no_link);
    t.record_event_at(ev(5, 4, FD_OP_WRITE, 50), at(3), no_link);
    t.record_event_at(ev(5, 4, FD_OP_READ, 10), at(4), no_link);
    let f = t.get_fd_info(5, 4).unwrap();
    assert_eq!((f.read_bytes, f.write_bytes, f.read_ops, f.write_ops), (110, 50, 2, 1));
    assert_eq!(f.last_operation, at(4));
    assert_eq!(f.open_time, at(1));
    let s = stats(&t, 5);
    assert_eq!((s.total_read_bytes, s.total_write_bytes, s.read_ops, s.write_ops), (110, 50, 2, 1));
}

#[test]
fn io_on_untracked_descriptor_counts_only_for_known_process() {
    let mut t = FdTracker::new();
    t.record_event_at(ev(5, 4, FD_OP_OPEN, 0), at(1), no_link);
    t.record_event_at(ev(5, 9, FD_OP_READ, 7), at(2), no_link);
    assert!(t.get_fd_info(5, 9).is_none());
    assert_eq!(stats(&t, 5).total_read_bytes, 7);
    // unknown process: nothing recorded
    t.record_event_at(ev(6, 1, FD_OP_WRITE, 7), at(3), no_link);
    assert!(t.get_process_stats(6).is_none());
}

#[test]
fn close_undoes_open() {
    let mut t = FdTracker::new();
    t.record_event_at(ev(5, 1, FD_OP_OPEN, 0), at(1), no_link);
    let before = stats(&t, 5);
    t.record_event_at(ev(5, 2, FD_OP_OPEN, 0), at(2), no_link);
    t.record_event_at(ev(5, 2, FD_OP_CLOSE, 0), at(3), no_link);
    let after = stats(&t, 5);
    assert!(t.get_fd_info(5, 2).is_none());
    assert!(t.get_fd_info(5, 1).is_some());
    assert_eq!(after.open_fds, before.open_fds);
    assert_eq!(after.total_opened, before.total_opened + 1);
    assert_eq!(after.total_closed, before.total_closed + 1);
    assert_eq!(after.peak_fds, 2);
}

#[test]
fn close_of_untracked_descriptor_changes_nothing() {
    let mut t = FdTracker::new();
    t.record_event_at(ev(5, 1, FD_OP_OPEN, 0), at(1), no_link);
    t.record_event_at(ev(5, 8, FD_OP_CLOSE, 0), at(2), no_link);
    let s = stats(&t, 5);
    assert_eq!((s.open_fds, s.total_closed), (1, 0));
}

#[test]
fn unknown_operation_is_only_logged() {
    let mut t = FdTracker::new();
    t.record_event_at(ev(5, 1, 9, 0), at(1), no_link);
    assert!(t.get_process_stats(5).is_none());
    assert_eq!(t.get_recent_events(10).len(), 1);
    assert!(t.get_active_fds().is_empty());
}

#[test]
fn cached_path_is_reused_until_swept() {
    let calls = Cell::new(0u32);
    let link = |_pid: u32, _fd: i32| {
        calls.set(calls.get() + 1);
        Some(String::from("/dev/null"))
    };
    let mut t = FdTracker::new();
    // the first event sweeps (the tracker was made at the current time, long after second 10)
    t.record_event_at(ev(1, 3, FD_OP_OPEN, 0), at(10), &link);
    assert_eq!(calls.get(), 1);
    t.record_event_at(ev(1, 3, FD_OP_CLOSE, 0), at(11), &link);
    // reopened within five seconds: the cached path is used
    t.record_event_at(ev(1, 3, FD_OP_OPEN, 0), at(12), &link);
    assert_eq!(calls.get(), 1);
    assert_eq!(t.get_fd_info(1, 3).unwrap().path.as_deref(), Some("/dev/null"));
    t.record_event_at(ev(1, 3, FD_OP_CLOSE, 0), at(13), &link);
    // five seconds after the last sweep the cache drops paths of closed descriptors
    t.record_event_at(ev(2, 0, 9, 0), at(15), &link);
    t.record_event_at(ev(1, 3, FD_OP_OPEN, 0), at(16), &link);
    assert_eq!(calls.get(), 2);
}

#[test]
fn sweep_keeps_paths_of_open_descriptors() {
    let calls = Cell::new(0u32);
    let link = |_pid: u32, _fd: i32| {
        calls.set(calls.get() + 1);
        Some(String::from("/tmp/a"))
    };
    let mut t = FdTracker::new();
    t.record_event_at(ev(1, 3, FD_OP_OPEN, 0), at(10), &link);
    t.record_event_at(ev(2, 0, 9, 0), at(30), &link);
    // still open: its path stayed cached through the sweep at second 30
    t.record_event_at(ev(1, 3, FD_OP_OPEN, 0), at(31), &link);
    assert_eq!(calls.get(), 1);
}

#[test]
fn clock_going_back_forces_a_sweep() {
    let calls = Cell::new(0u32);
    let link = |_pid: u32, _fd: i32| {
        calls.set(calls.get() + 1);
        None
    };
    let mut t = FdTracker::new();
    // no path found: nothing is cached, so every open asks again
    t.record_event_at(ev(1, 3, FD_OP_OPEN, 0), at(10), &link);
    t.record_event_at(ev(1, 3, FD_OP_OPEN, 0), at(11), &link);
    assert_eq!(calls.get(), 2);
    assert!(t.get_fd_info(1, 3).unwrap().path.is_none());
    let before_epoch = WallTime { before_epoch: true, secs: 5, nanos: 0 };
    t.record_event_at(ev(1, 3, FD_OP_READ, 1), before_epoch, &link);
    assert_eq!(t.get_fd_info(1, 3).unwrap().last_operation, before_epoch);
}

#[test]
fn recent_events_keep_the_last_thousand() {
    let mut t = FdTracker::new();
    for i in 0..(HISTORY_LIMIT as u64 + 5) {
        let mut e = ev(1, 0, 9, 0);
        e.timestamp = i;
        t.record_event_at(e, at(i), no_link);
    }
    let all = t.get_recent_events(usize::MAX);
    assert_eq!(all.len(), HISTORY_LIMIT);
    assert_eq!(all[0].1.timestamp, 5);
    assert_eq!(all[0].0, at(5));
    assert_eq!(all[HISTORY_LIMIT - 1].1.timestamp, HISTORY_LIMIT as u64 + 4);
    let last2 = t.get_recent_events(2);
    assert_eq!(last2.len(), 2);
    assert_eq!(last2[0].1.timestamp, HISTORY_LIMIT as u64 + 3);
    assert_eq!(last2[1].1.timestamp, HISTORY_LIMIT as u64 + 4);
    assert!(t.get_recent_events(0).is_empty());
}

#[test]
fn record_event_stamps_with_the_clock() {
    let mut t = FdTracker::new();
    t.record_event(ev(3, 1, FD_OP_OPEN, 0), no_link);
    let events = t.get_recent_events(1);
    let stamp = events[0].0;
    assert!(!stamp.before_epoch);
    assert!(stamp.secs > 1_600_000_000);
    assert!(stamp.nanos < 1_000_000_000);
    assert_eq!(t.get_fd_info(3, 1).unwrap().open_time, stamp);
}

#[test]
fn top_processes_by_descriptors_and_by_io() {
    let mut t = FdTracker::new();
    for fd in 0..3 {
        t.record_event_at(ev(1, fd, FD_OP_OPEN, 0), at(1), no_link);
    }
    t.record_event_at(ev(2, 0, FD_OP_OPEN, 0), at(1), no_link);
    for fd in 0..2 {
        t.record_event_at(ev(3, fd, FD_OP_OPEN, 0), at(1), no_link);
    }
    t.record_event_at(ev(2, 0, FD_OP_WRITE, 1000), at(2), no_link);
    t.record_event_at(ev(3, 0, FD_OP_READ, 10), at(2), no_link);
    let by_fds: Vec<(u32, u32)> =
        t.get_top_processes_by_fds(10).iter().map(|(p, s)| (*p, s.open_fds)).collect();
    assert_eq!(by_fds, vec![(1, 3), (3, 2), (2, 1)]);
    let by_io: Vec<u32> = t.get_top_processes_by_io(2).iter().map(|(p, _)| *p).collect();
    assert_eq!(by_io, vec![2, 3]);
    assert_eq!(t.get_top_processes_by_fds(1)[0].0, 1);
}

#[test]
fn most_active_descriptors_rank_by_bytes_moved() {
    let mut t = FdTracker::new();
    for fd in 0..4 {
        t.record_event_at(ev(1, fd, FD_OP_OPEN, 0), at(1), no_link);
    }
    t.record_event_at(ev(1, 2, FD_OP_READ, 500), at(2), no_link);
    t.record_event_at(ev(1, 0, FD_OP_WRITE, 100), at(2), no_link);
    t.record_event_at(ev(1, 0, FD_OP_READ, 100), at(2), no_link);
    t.record_event_at(ev(1, 3, FD_OP_WRITE, 1), at(2), no_link);
    let top: Vec<i32> = t.get_most_active_fds(3).iter().map(|f| f.fd).collect();
    assert_eq!(top, vec![2, 0, 3]);
    assert_eq!(t.get_active_fds().len(), 4);
    let mut all: Vec<i32> = t.get_active_fds().iter().map(|f| f.fd).collect();
    all.sort();
    assert_eq!(all, vec![0, 1, 2, 3]);
}

#[test]
fn total_stats_sum_counters_and_take_highest_peak() {
    let mut t = FdTracker::new();
    assert_eq!(t.get_total_stats(), ProcessFdStats::default());
    for fd in 0..3 {
        t.record_event_at(ev(1, fd, FD_OP_OPEN, 0), at(1), no_link);
    }
    t.record_event_at(ev(1, 0, FD_OP_CLOSE, 0), at(1), no_link);
    t.record_event_at(ev(1, 1, FD_OP_CLOSE, 0), at(1), no_link);
    t.record_event_at(ev(2, 0, FD_OP_OPEN, 0), at(1), no_link);
    t.record_event_at(ev(2, 7, FD_OP_OPEN, 0), at(1), no_link);
    t.record_event_at(ev(2, 0, FD_OP_READ, 30), at(1), no_link);
    t.record_event_at(ev(1, 2, FD_OP_WRITE, 12), at(1), no_link);
    let total = t.get_total_stats();
    assert_eq!(total, ProcessFdStats {
        open_fds: 3,
        total_opened: 5,
        total_closed: 2,
        total_read_bytes: 30,
        total_write_bytes: 12,
        read_ops: 1,
        write_ops: 1,
        peak_fds: 3,
    });
}

#[test]
fn scan_proc_adds_unknown_processes_with_descriptors() {
    let mut t = FdTracker::new();
    t.record_event_at(ev(4, 1, FD_OP_OPEN, 0), at(1), no_link);
    let names: Vec<Vec<u8>> = ["1", "+2", "self", "3", "99999999999", "4", "5"]
        .iter()
        .map(|n| n.as_bytes().to_vec())
        .collect();
    let asked = Cell::new(0u32);
    t.scan_proc(&names, |pid| {
        asked.set(asked.get() + 1);
        pid != 3
    });
    assert_eq!(*t.get_process_stats(1).unwrap(), ProcessFdStats::default());
    assert_eq!(*t.get_process_stats(2).unwrap(), ProcessFdStats::default());
    assert!(t.get_process_stats(3).is_none());
    assert_eq!(*t.get_process_stats(5).unwrap(), ProcessFdStats::default());
    // the known process keeps its statistics and is not asked about
    assert_eq!(t.get_process_stats(4).unwrap().open_fds, 1);
    assert_eq!(asked.get(), 4);
}

#[test]
fn parse_pid_reads_unsigned_decimal_names() {
    assert_eq!(parse_pid(b"123"), Some(123));
    assert_eq!(parse_pid(b"0"), Some(0));
    assert_eq!(parse_pid(b"+7"), Some(7));
    assert_eq!(parse_pid(b"4294967295"), Some(u32::MAX));
    assert_eq!(parse_pid(b"4294967296"), None);
    assert_eq!(parse_pid(b"99999999999999999999999"), None);
    assert_eq!(parse_pid(b""), None);
    assert_eq!(parse_pid(b"+"), None);
    assert_eq!(parse_pid(b"++1"), None);
    assert_eq!(parse_pid(b"-1"), None);
    assert_eq!(parse_pid(b"12a"), None);
    assert_eq!(parse_pid(b"self"), None);
    assert_eq!(parse_pid(b"007"), Some(7));
}

#[test]
fn parse_pid_agrees_with_std() {
    for name in ["1", "+1", "-0", "00", "4294967295", "4294967296", "1 ", " 1", "١"] {
        assert_eq!(parse_pid(name.as_bytes()), name.parse::<u32>().ok(), "{}", name);
    }
}

#[test]
fn open_count_is_opens_minus_closes() {
    let mut t = FdTracker::new();
    for fd in 0..5 {
        t.record_event_at(ev(8, fd, FD_OP_OPEN, 0), at(1), no_link);
    }
    t.record_event_at(ev(8, 1, FD_OP_CLOSE, 0), at(2), no_link);
    t.record_event_at(ev(8, 3, FD_OP_CLOSE, 0), at(2), no_link);
    t.record_event_at(ev(8, 3, FD_OP_CLOSE, 0), at(2), no_link);
    t.record_event_at(ev(8, 9, FD_OP_CLOSE, 0), at(2), no_link);
    let s = stats(&t, 8);
    assert_eq!((s.open_fds, s.total_opened, s.total_closed, s.peak_fds), (3, 5, 2, 5));
    assert_eq!(s.open_fds as u64, s.total_opened - s.total_closed);
    let active = t.get_active_fds();
    assert_eq!(active.len(), 3);
    let mut fds: Vec<i32> = active.iter().map(|f| f.fd).collect();
    fds.sort();
    assert_eq!(fds, vec![0, 2, 4]);
    assert!(active.iter().all(|f| f.pid == 8 && f.fd >= 0));
}

#[test]
fn reopening_a_descriptor_keeps_it_tracked_once() {
    let mut t = FdTracker::new();
    t.record_event_at(ev(3, 7, FD_OP_OPEN, 0), at(1), no_link);
    t.record_event_at(ev(3, 7, FD_OP_OPEN, 0), at(2), no_link);
    let s = stats(&t, 3);
    assert_eq!((s.open_fds, s.total_opened, s.total_closed), (2, 2, 0));
    assert_eq!(t.get_active_fds().len(), 1);
    t.record_event_at(ev(3, 7, FD_OP_CLOSE, 0), at(3), no_link);
    let s = stats(&t, 3);
    assert_eq!((s.open_fds, s.total_opened, s.total_closed), (1, 2, 1));
    assert!(t.get_fd_info(3, 7).is_none());
}

#[test]
fn only_opens_create_process_statistics() {
    let mut t = FdTracker::new();
    t.record_event_at(ev(4, 1, FD_OP_READ, 10), at(1), no_link);
    t.record_event_at(ev(4, 1, FD_OP_WRITE, 10), at(1), no_link);
    t.record_event_at(ev(4, 1, FD_OP_CLOSE, 0), at(1), no_link);
    t.record_event_at(ev(4, -2, FD_OP_OPEN, 0), at(1), no_link);
    assert!(t.get_process_stats(4).is_none());
    t.record_event_at(ev(4, 2, FD_OP_OPEN, 0), at(1), no_link);
    t.record_event_at(ev(4, 2, FD_OP_CLOSE, 0), at(1), no_link);
    assert!(t.get_process_stats(4).is_some());
    assert!(t.get_fd_info(4, 2).is_none());
}

#[test]
fn descriptor_info_matches_its_key() {
    let mut t = FdTracker::new();
    t.record_event_at(ev(1, 2, FD_OP_OPEN, 0), at(1), no_link);
    t.record_event_at(ev(2, 1, FD_OP_OPEN, 0), at(1), no_link);
    let f = t.get_fd_info(2, 1).unwrap();
    assert_eq!((f.pid, f.fd), (2, 1));
    let f = t.get_fd_info(1, 2).unwrap();
    assert_eq!((f.pid, f.fd), (1, 2));
    assert!(t.get_fd_info(1, 1).is_none());
}
