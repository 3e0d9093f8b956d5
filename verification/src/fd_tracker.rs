//! Tracking of file descriptors and of per-process file descriptor activity.
use vstd::prelude::*;
use std::collections::HashMap;
use crate::clock::{WallTime, wall_clock_now};
use crate::events::{FileDescriptorEvent, FD_OP_OPEN, FD_OP_CLOSE, FD_OP_READ, FD_OP_WRITE};
use crate::probes::{fd_key, make_fd_key, lemma_fd_key_injective};
use crate::sums::{map_sum, map_max, lemma_map_sum_remove, lemma_map_max_remove, lemma_map_sum_nonneg, lemma_map_max_nonneg};
use crate::top::{is_top_ranking, rank_top};

use vstd::set_lib::lemma_len_subset;

verus! {

broadcast use vstd::std_specs::hash::group_hash_axioms;

/// Number of events the tracker keeps for display.
pub const HISTORY_LIMIT: usize = 1000;

/// Nanoseconds that pass between two sweeps of the path cache.
pub const PATH_SCAN_INTERVAL_NANOS: u64 = 5_000_000_000;

/// An open file descriptor and the activity seen on it.
#[derive(Debug)]
pub struct FileDescriptor {
    pub pid: u32,
    pub fd: i32,
    pub path: Option<String>,
    pub open_time: WallTime,
    pub read_bytes: u64,
    pub write_bytes: u64,
    pub read_ops: u64,
    pub write_ops: u64,
    pub last_operation: WallTime,
}

impl FileDescriptor {
    /// The key under which the descriptor is tracked.
    pub open spec fn key(self) -> u64 {
        fd_key(self.pid, self.fd)
    }

    /// A descriptor just opened at `now`.
    pub open spec fn opened(pid: u32, fd: i32, path: Option<String>, now: WallTime) -> Self {
        FileDescriptor {
            pid,
            fd,
            path,
            open_time: now,
            read_bytes: 0,
            write_bytes: 0,
            read_ops: 0,
            write_ops: 0,
            last_operation: now,
        }
    }

    /// The descriptor after `count` bytes were read from it at `now`.
    pub open spec fn after_read(self, count: u64, now: WallTime) -> Self {
        FileDescriptor {
            read_bytes: (self.read_bytes + count) as u64,
            read_ops: (self.read_ops + 1) as u64,
            last_operation: now,
            ..self
        }
    }

    /// The descriptor after `count` bytes were written to it at `now`.
    pub open spec fn after_write(self, count: u64, now: WallTime) -> Self {
        FileDescriptor {
            write_bytes: (self.write_bytes + count) as u64,
            write_ops: (self.write_ops + 1) as u64,
            last_operation: now,
            ..self
        }
    }

    /// Bytes moved through the descriptor in both directions.
    pub open spec fn io_bytes(self) -> int {
        self.read_bytes + self.write_bytes
    }
}

/// File descriptor statistics of one process.
#[derive(Clone, Copy, Debug, PartialEq, Eq, Structural)]
pub struct ProcessFdStats {
    pub open_fds: u32,
    pub total_opened: u64,
    pub total_closed: u64,
    pub total_read_bytes: u64,
    pub total_write_bytes: u64,
    pub read_ops: u64,
    pub write_ops: u64,
    pub peak_fds: u32,
}

impl ProcessFdStats {
    /// The statistics of a process with no activity yet.
    pub open spec fn zero() -> Self {
        ProcessFdStats {
            open_fds: 0,
            total_opened: 0,
            total_closed: 0,
            total_read_bytes: 0,
            total_write_bytes: 0,
            read_ops: 0,
            write_ops: 0,
            peak_fds: 0,
        }
    }

    /// The statistics after one more descriptor was opened.
    pub open spec fn after_open(self) -> Self {
        let open = (self.open_fds + 1) as u32;
        ProcessFdStats {
            open_fds: open,
            total_opened: (self.total_opened + 1) as u64,
            peak_fds: if open > self.peak_fds {
                open
            } else {
                self.peak_fds
            },
            ..self
        }
    }

    /// The statistics after one of the process's descriptors was closed.
    pub open spec fn after_close(self) -> Self {
        ProcessFdStats {
            open_fds: if self.open_fds > 0 {
                (self.open_fds - 1) as u32
            } else {
                0
            },
            total_closed: (self.total_closed + 1) as u64,
            ..self
        }
    }

    /// The statistics after a read of `count` bytes.
    pub open spec fn after_read(self, count: u64) -> Self {
        ProcessFdStats {
            total_read_bytes: (self.total_read_bytes + count) as u64,
            read_ops: (self.read_ops + 1) as u64,
            ..self
        }
    }

    /// The statistics after a write of `count` bytes.
    pub open spec fn after_write(self, count: u64) -> Self {
        ProcessFdStats {
            total_write_bytes: (self.total_write_bytes + count) as u64,
            write_ops: (self.write_ops + 1) as u64,
            ..self
        }
    }

    /// What the counters always satisfy: the descriptors open now are
    /// those opened and not closed, and never exceed the peak.
    pub open spec fn consistent(self) -> bool {
        &&& self.total_closed <= self.total_opened
        &&& self.open_fds == self.total_opened - self.total_closed
        &&& self.open_fds <= self.peak_fds
    }

    /// Bytes the process moved in both directions.
    pub open spec fn io_bytes(self) -> int {
        self.total_read_bytes + self.total_write_bytes
    }
}

impl Default for ProcessFdStats {
    fn default() -> (s: Self)
        ensures
            s == ProcessFdStats::zero(),
    {
        ProcessFdStats {
            open_fds: 0,
            total_opened: 0,
            total_closed: 0,
            total_read_bytes: 0,
            total_write_bytes: 0,
            read_ops: 0,
            write_ops: 0,
            peak_fds: 0,
        }
    }
}

/// The score by which processes rank for open descriptors.
pub open spec fn open_fds_score(s: ProcessFdStats) -> int {
    s.open_fds as int
}

/// The score by which processes rank for input and output.
pub open spec fn process_io_score(s: ProcessFdStats) -> int {
    s.io_bytes()
}

/// The score by which descriptors rank for input and output.
pub open spec fn fd_io_score(f: FileDescriptor) -> int {
    f.io_bytes()
}

/// The last `n` elements of `s`, or all of them where there are fewer.
pub open spec fn keep_last<T>(s: Seq<T>, n: nat) -> Seq<T> {
    if s.len() > n {
        s.subrange(s.len() - n, s.len() as int)
    } else {
        s
    }
}

/// The byte is an ASCII decimal digit.
pub open spec fn is_digit(b: u8) -> bool {
    48 <= b <= 57
}

/// The number the decimal digits `d` spell, most significant first.
pub open spec fn digits_value(d: Seq<u8>) -> int
    decreases d.len(),
{
    if d.len() == 0 {
        0
    } else {
        digits_value(d.drop_last()) * 10 + (d.last() - 48)
    }
}

/// The digits of a number written with an optional leading `+`.
pub open spec fn unsigned_digits(s: Seq<u8>) -> Seq<u8> {
    if s.len() > 0 && s[0] == 43 {
        s.drop_first()
    } else {
        s
    }
}

/// The process id a directory name of `/proc` stands for, read as a
/// `u32` is read from text: an optional `+`, then at least one decimal
/// digit and nothing else, with a value that fits.
pub open spec fn pid_from_name(s: Seq<u8>) -> Option<u32> {
    let d = unsigned_digits(s);
    if d.len() > 0 && (forall|i: int| 0 <= i < d.len() ==> #[trigger] is_digit(d[i])) && digits_value(d)
        <= u32::MAX {
        Some(digits_value(d) as u32)
    } else {
        None
    }
}

/// A number with more digits is no smaller than its leading digits.
proof fn lemma_digits_prefix(d: Seq<u8>, k: int)
    requires
        0 <= k <= d.len(),
        forall|i: int| 0 <= i < d.len() ==> #[trigger] is_digit(d[i]),
    ensures
        digits_value(d) >= digits_value(d.take(k)),
        digits_value(d) >= 0,
    decreases d.len(),
{
    if d.len() > 0 {
        assert forall|i: int| 0 <= i < d.drop_last().len() implies #[trigger] is_digit(
            d.drop_last()[i],
        ) by {
            assert(is_digit(d[i]));
        }
        if k == d.len() {
            assert(d.take(k) =~= d);
            lemma_digits_prefix(d.drop_last(), 0);
        } else {
            lemma_digits_prefix(d.drop_last(), k);
            assert(d.drop_last().take(k) =~= d.take(k));
        }
        assert(is_digit(d[d.len() - 1]));
    }
}

/// Reads the process id that a directory name of `/proc` stands for; see
/// [`pid_from_name`].
pub fn parse_pid(name: &[u8]) -> (pid: Option<u32>)
    ensures
        pid == pid_from_name(name@),
{
    let n = name.len();
    let start: usize = if n > 0 && name[0] == 43u8 {
        1
    } else {
        0
    };
    let ghost d = unsigned_digits(name@);
    assert(d =~= name@.subrange(start as int, n as int));
    if start == n {
        return None;
    }
    let mut acc: u64 = 0;
    let mut i: usize = start;
    while i < n
        invariant
            start <= i <= n,
            n == name@.len(),
            d == name@.subrange(start as int, n as int),
            d == unsigned_digits(name@),
            acc == digits_value(d.take(i - start)),
            acc <= u32::MAX,
            forall|j: int| 0 <= j < i - start ==> #[trigger] is_digit(d[j]),
        decreases n - i,
    {
        let b = name[i];
        assert(b == d[i - start]);
        if b < 48u8 || b > 57u8 {
            assert(!is_digit(d[i - start]));
            return None;
        }
        assert(d.take(i - start + 1).drop_last() =~= d.take(i - start));
        acc = acc * 10 + (b - 48u8) as u64;
        if acc > u32::MAX as u64 {
            proof {
                assert(acc == digits_value(d.take(i - start + 1)));
                if forall|j: int| 0 <= j < d.len() ==> #[trigger] is_digit(d[j]) {
                    lemma_digits_prefix(d, i - start + 1);
                    assert(digits_value(d) > u32::MAX);
                }
            }
            return None;
        }
        i += 1;
    }
    assert(d.take(n - start) =~= d);
    Some(acc as u32)
}

/// The keys of the descriptors in `active` that belong to process `pid`.
pub open spec fn fds_of(active: Map<u64, FileDescriptor>, pid: u32) -> Set<u64> {
    active.dom().filter(|k: u64| active[k].pid == pid)
}

/// Some name among the first `n` of `names` stands for process `pid`.
pub open spec fn names_pid(names: Seq<Vec<u8>>, n: int, pid: u32) -> bool {
    exists|j: int| 0 <= j < n && pid_from_name(#[trigger] names[j]@) == Some(pid)
}

/// The contents of an [`FdTracker`].
pub struct FdTrackerView {
    /// descriptors open now, by key
    pub active_fds: Map<u64, FileDescriptor>,
    /// statistics by process id
    pub process_stats: Map<u32, ProcessFdStats>,
    /// the latest events, oldest first, each with the instant it was recorded
    pub recent_events: Seq<(WallTime, FileDescriptorEvent)>,
    /// how many events are kept
    pub history_limit: nat,
    /// resolved paths, by descriptor key
    pub path_cache: Map<u64, String>,
    /// when the path cache was last swept
    pub last_path_resolve: WallTime,
}

impl FdTrackerView {
    /// The statistics of `pid`, zero where the process is not known.
    pub open spec fn stats_of(self, pid: u32) -> ProcessFdStats {
        if self.process_stats.contains_key(pid) {
            self.process_stats[pid]
        } else {
            ProcessFdStats::zero()
        }
    }

    /// Both maps are finite; every descriptor is filed under its own key,
    /// is not negative and belongs to a process with statistics; every
    /// process's counters are consistent and count at least the
    /// descriptors tracked for it; at most [`HISTORY_LIMIT`] events are kept.
    pub open spec fn wf(self) -> bool {
        &&& self.active_fds.dom().finite()
        &&& self.process_stats.dom().finite()
        &&& forall|k: u64| #[trigger]
            self.active_fds.contains_key(k) ==> self.active_fds[k].key() == k
                && self.active_fds[k].fd >= 0
                && self.process_stats.contains_key(self.active_fds[k].pid)
        &&& forall|pid: u32| #[trigger]
            self.process_stats.contains_key(pid) ==> self.process_stats[pid].consistent()
                && fds_of(self.active_fds, pid).len() <= self.process_stats[pid].open_fds
        &&& self.history_limit == HISTORY_LIMIT as nat
        &&& self.recent_events.len() <= self.history_limit
    }

    /// Recording `event` keeps every counter within its integer type.
    pub open spec fn accepts(self, event: FileDescriptorEvent) -> bool {
        let key = fd_key(event.pid, event.fd);
        let is_open = self.active_fds.contains_key(key);
        let known = self.process_stats.contains_key(event.pid);
        if event.op_type == FD_OP_OPEN {
            event.fd >= 0 ==> {
                &&& self.stats_of(event.pid).open_fds < u32::MAX
                &&& self.stats_of(event.pid).total_opened < u64::MAX
            }
        } else if event.op_type == FD_OP_READ {
            &&& is_open ==> self.active_fds[key].read_bytes + event.count <= u64::MAX
                && self.active_fds[key].read_ops < u64::MAX
            &&& known ==> self.process_stats[event.pid].total_read_bytes + event.count <= u64::MAX
                && self.process_stats[event.pid].read_ops < u64::MAX
        } else if event.op_type == FD_OP_WRITE {
            &&& is_open ==> self.active_fds[key].write_bytes + event.count <= u64::MAX
                && self.active_fds[key].write_ops < u64::MAX
            &&& known ==> self.process_stats[event.pid].total_write_bytes + event.count <= u64::MAX
                && self.process_stats[event.pid].write_ops < u64::MAX
        } else {
            true
        }
    }

    /// Recording `event` asks for the path of its descriptor: it opens a
    /// descriptor whose path is not cached.
    pub open spec fn path_lookup_needed(self, event: FileDescriptorEvent) -> bool {
        &&& event.op_type == FD_OP_OPEN
        &&& event.fd >= 0
        &&& !self.path_cache.contains_key(fd_key(event.pid, event.fd))
    }

    /// The tracker with `event`, recorded at `now`, appended to the kept
    /// events, of which only the last `history_limit` stay.
    pub open spec fn with_event_logged(self, event: FileDescriptorEvent, now: WallTime) -> Self {
        FdTrackerView {
            recent_events: keep_last(self.recent_events.push((now, event)), self.history_limit),
            ..self
        }
    }

    /// The tracker after the open `event` at `now`, where `looked_up` is the
    /// path found for the descriptor if its path was not cached. A failed
    /// open (negative descriptor) changes nothing.
    pub open spec fn after_open(
        self,
        event: FileDescriptorEvent,
        now: WallTime,
        looked_up: Option<String>,
    ) -> Self {
        if event.fd < 0 {
            self
        } else {
            let key = fd_key(event.pid, event.fd);
            let cached = self.path_cache.contains_key(key);
            let path = if cached {
                Some(self.path_cache[key])
            } else {
                looked_up
            };
            FdTrackerView {
                active_fds: self.active_fds.insert(
                    key,
                    FileDescriptor::opened(event.pid, event.fd, path, now),
                ),
                process_stats: self.process_stats.insert(
                    event.pid,
                    self.stats_of(event.pid).after_open(),
                ),
                path_cache: if !cached && looked_up is Some {
                    self.path_cache.insert(key, looked_up->0)
                } else {
                    self.path_cache
                },
                ..self
            }
        }
    }

    /// The tracker after the close `event`: a tracked descriptor is
    /// forgotten and counted as closed by its process, if the process is
    /// known; closing an untracked descriptor changes nothing.
    pub open spec fn after_close(self, event: FileDescriptorEvent) -> Self {
        let key = fd_key(event.pid, event.fd);
        if self.active_fds.contains_key(key) {
            FdTrackerView {
                active_fds: self.active_fds.remove(key),
                process_stats: if self.process_stats.contains_key(event.pid) {
                    self.process_stats.insert(
                        event.pid,
                        self.process_stats[event.pid].after_close(),
                    )
                } else {
                    self.process_stats
                },
                ..self
            }
        } else {
            self
        }
    }

    /// The tracker after the read `event` at `now`: the descriptor, if
    /// tracked, and the process, if known, count the bytes.
    pub open spec fn after_read(self, event: FileDescriptorEvent, now: WallTime) -> Self {
        let key = fd_key(event.pid, event.fd);
        FdTrackerView {
            active_fds: if self.active_fds.contains_key(key) {
                self.active_fds.insert(key, self.active_fds[key].after_read(event.count, now))
            } else {
                self.active_fds
            },
            process_stats: if self.process_stats.contains_key(event.pid) {
                self.process_stats.insert(
                    event.pid,
                    self.process_stats[event.pid].after_read(event.count),
                )
            } else {
                self.process_stats
            },
            ..self
        }
    }

    /// The tracker after the write `event` at `now`: the descriptor, if
    /// tracked, and the process, if known, count the bytes.
    pub open spec fn after_write(self, event: FileDescriptorEvent, now: WallTime) -> Self {
        let key = fd_key(event.pid, event.fd);
        FdTrackerView {
            active_fds: if self.active_fds.contains_key(key) {
                self.active_fds.insert(key, self.active_fds[key].after_write(event.count, now))
            } else {
                self.active_fds
            },
            process_stats: if self.process_stats.contains_key(event.pid) {
                self.process_stats.insert(
                    event.pid,
                    self.process_stats[event.pid].after_write(event.count),
                )
            } else {
                self.process_stats
            },
            ..self
        }
    }

    /// The tracker after the operation of `event`; an unknown operation
    /// code changes nothing.
    pub open spec fn after_operation(
        self,
        event: FileDescriptorEvent,
        now: WallTime,
        looked_up: Option<String>,
    ) -> Self {
        if event.op_type == FD_OP_OPEN {
            self.after_open(event, now, looked_up)
        } else if event.op_type == FD_OP_CLOSE {
            self.after_close(event)
        } else if event.op_type == FD_OP_READ {
            self.after_read(event, now)
        } else if event.op_type == FD_OP_WRITE {
            self.after_write(event, now)
        } else {
            self
        }
    }

    /// A sweep of the path cache is due at `now`: five seconds have passed
    /// since the last one, or the clock went back.
    pub open spec fn path_scan_due(self, now: WallTime) -> bool {
        now.as_nanos() < self.last_path_resolve.as_nanos()
            || now.as_nanos() - self.last_path_resolve.as_nanos() >= PATH_SCAN_INTERVAL_NANOS
    }

    /// The tracker after the sweep at `now`, if due: paths of descriptors
    /// that are no longer tracked are dropped from the cache.
    pub open spec fn after_path_scan(self, now: WallTime) -> Self {
        if self.path_scan_due(now) {
            FdTrackerView {
                path_cache: self.path_cache.restrict(self.active_fds.dom()),
                last_path_resolve: now,
                ..self
            }
        } else {
            self
        }
    }

    /// The tracker after recording `event` at `now`.
    pub open spec fn after_event(
        self,
        event: FileDescriptorEvent,
        now: WallTime,
        looked_up: Option<String>,
    ) -> Self {
        self.with_event_logged(event, now).after_operation(event, now, looked_up).after_path_scan(
            now,
        )
    }

    /// The sum of `f` over all processes.
    pub open spec fn stats_sum(self, f: spec_fn(ProcessFdStats) -> int) -> int {
        map_sum(self.process_stats, f)
    }

    /// The counters summed over all processes fit their integer types.
    pub open spec fn totals_fit(self) -> bool {
        &&& self.stats_sum(open_fds_field()) <= u32::MAX
        &&& self.stats_sum(total_opened_field()) <= u64::MAX
        &&& self.stats_sum(total_closed_field()) <= u64::MAX
        &&& self.stats_sum(total_read_bytes_field()) <= u64::MAX
        &&& self.stats_sum(total_write_bytes_field()) <= u64::MAX
        &&& self.stats_sum(read_ops_field()) <= u64::MAX
        &&& self.stats_sum(write_ops_field()) <= u64::MAX
    }

    /// The statistics of all processes together: every counter summed, the
    /// peak the highest peak of any process.
    pub open spec fn total_stats(self) -> ProcessFdStats {
        ProcessFdStats {
            open_fds: self.stats_sum(open_fds_field()) as u32,
            total_opened: self.stats_sum(total_opened_field()) as u64,
            total_closed: self.stats_sum(total_closed_field()) as u64,
            total_read_bytes: self.stats_sum(total_read_bytes_field()) as u64,
            total_write_bytes: self.stats_sum(total_write_bytes_field()) as u64,
            read_ops: self.stats_sum(read_ops_field()) as u64,
            write_ops: self.stats_sum(write_ops_field()) as u64,
            peak_fds: map_max(self.process_stats, peak_fds_field()) as u32,
        }
    }
}

/// Closing a descriptor undoes its opening: it is no longer tracked and its
/// process has as many descriptors open as before; the process counts one
/// more open and one more close.
pub proof fn lemma_close_undoes_open(
    v: FdTrackerView,
    open: FileDescriptorEvent,
    close: FileDescriptorEvent,
    now: WallTime,
    looked_up: Option<String>,
)
    requires
        v.wf(),
        v.accepts(open),
        open.op_type == FD_OP_OPEN,
        open.fd >= 0,
        close.op_type == FD_OP_CLOSE,
        close.pid == open.pid,
        close.fd == open.fd,
    ensures
        ({
            let after = v.after_open(open, now, looked_up).after_close(close);
            let key = fd_key(open.pid, open.fd);
            &&& after.active_fds == v.active_fds.remove(key)
            &&& after.stats_of(open.pid).open_fds == v.stats_of(open.pid).open_fds
            &&& after.stats_of(open.pid).total_opened == v.stats_of(open.pid).total_opened + 1
            &&& after.stats_of(open.pid).total_closed == v.stats_of(open.pid).total_closed + 1
        }),
{
    let key = fd_key(open.pid, open.fd);
    assert(v.after_open(open, now, looked_up).after_close(close).active_fds =~= v.active_fds.remove(
        key,
    ));
}

/// A subset of the descriptors' keys is finite where they are.
proof fn lemma_fds_finite(active: Map<u64, FileDescriptor>, pid: u32)
    requires
        active.dom().finite(),
    ensures
        fds_of(active, pid).finite(),
        fds_of(active, pid).len() <= active.dom().len(),
{
    lemma_len_subset(fds_of(active, pid), active.dom());
}

/// Filing the descriptor `f` under `k` adds at most `k` to the descriptors
/// of `f`'s process and nothing to those of any other; replacing a
/// descriptor by one of the same process changes no process's descriptors.
proof fn lemma_fds_after_insert(
    active: Map<u64, FileDescriptor>,
    k: u64,
    f: FileDescriptor,
    pid: u32,
)
    requires
        active.dom().finite(),
    ensures
        fds_of(active.insert(k, f), pid).finite(),
        fds_of(active.insert(k, f), pid).len() <= fds_of(active, pid).len() + (if f.pid == pid {
            1int
        } else {
            0int
        }),
        active.contains_key(k) && active[k].pid == f.pid ==> fds_of(active.insert(k, f), pid)
            == fds_of(active, pid),
{
    let before = fds_of(active, pid);
    let after = fds_of(active.insert(k, f), pid);
    lemma_fds_finite(active, pid);
    if f.pid == pid {
        assert(after.subset_of(before.insert(k)));
        lemma_len_subset(after, before.insert(k));
    } else {
        assert(after.subset_of(before));
        lemma_len_subset(after, before);
    }
    if active.contains_key(k) && active[k].pid == f.pid {
        assert(after =~= before);
    }
}

/// Forgetting the descriptor under `k` takes `k` from its process's
/// descriptors.
proof fn lemma_fds_after_remove(active: Map<u64, FileDescriptor>, k: u64, pid: u32)
    requires
        active.dom().finite(),
    ensures
        fds_of(active, pid).finite(),
        fds_of(active.remove(k), pid) == fds_of(active, pid).remove(k),
{
    lemma_fds_finite(active, pid);
    assert(fds_of(active.remove(k), pid) =~= fds_of(active, pid).remove(k));
}

/// A process without statistics has no descriptor tracked.
proof fn lemma_unknown_pid_has_no_fds(v: FdTrackerView, pid: u32)
    requires
        v.wf(),
        !v.process_stats.contains_key(pid),
    ensures
        fds_of(v.active_fds, pid) == Set::<u64>::empty(),
{
    assert forall|k: u64| !#[trigger] fds_of(v.active_fds, pid).contains(k) by {
        if v.active_fds.contains_key(k) {
            assert(v.process_stats.contains_key(v.active_fds[k].pid));
        }
    }
    assert(fds_of(v.active_fds, pid) =~= Set::<u64>::empty());
}

/// An accepted open keeps the tracker well formed.
proof fn lemma_open_keeps_wf(
    v: FdTrackerView,
    event: FileDescriptorEvent,
    now: WallTime,
    looked_up: Option<String>,
)
    requires
        v.wf(),
        v.accepts(event),
        event.op_type == FD_OP_OPEN,
    ensures
        v.after_open(event, now, looked_up).wf(),
{
    if event.fd >= 0 {
        let w = v.after_open(event, now, looked_up);
        let key = fd_key(event.pid, event.fd);
        let f = w.active_fds[key];
        assert(w.active_fds == v.active_fds.insert(key, f));
        if !v.process_stats.contains_key(event.pid) {
            lemma_unknown_pid_has_no_fds(v, event.pid);
        }
        assert forall|pid: u32| #[trigger] w.process_stats.contains_key(pid) implies w.process_stats[
            pid
        ].consistent() && fds_of(w.active_fds, pid).len() <= w.process_stats[pid].open_fds by {
            lemma_fds_after_insert(v.active_fds, key, f, pid);
        }
    }
}

/// A close keeps the tracker well formed: a tracked descriptor counts
/// toward its process, so the process has one to close.
proof fn lemma_close_keeps_wf(v: FdTrackerView, event: FileDescriptorEvent)
    requires
        v.wf(),
        v.accepts(event),
        event.op_type == FD_OP_CLOSE,
    ensures
        v.after_close(event).wf(),
{
    let key = fd_key(event.pid, event.fd);
    if v.active_fds.contains_key(key) {
        let w = v.after_close(event);
        let f = v.active_fds[key];
        lemma_fd_key_injective(f.pid, f.fd, event.pid, event.fd);
        assert(fds_of(v.active_fds, event.pid).contains(key));
        assert forall|pid: u32| #[trigger] w.process_stats.contains_key(pid) implies w.process_stats[
            pid
        ].consistent() && fds_of(w.active_fds, pid).len() <= w.process_stats[pid].open_fds by {
            lemma_fds_after_remove(v.active_fds, key, pid);
        }
    }
}

/// Reads and writes touch no counter that well-formedness speaks of.
proof fn lemma_io_keeps_wf(v: FdTrackerView, event: FileDescriptorEvent, now: WallTime)
    requires
        v.wf(),
    ensures
        v.after_read(event, now).wf(),
        v.after_write(event, now).wf(),
{
    let key = fd_key(event.pid, event.fd);
    let r = v.after_read(event, now);
    let w = v.after_write(event, now);
    assert forall|pid: u32| #[trigger] r.process_stats.contains_key(pid) implies r.process_stats[
        pid
    ].consistent() && fds_of(r.active_fds, pid).len() <= r.process_stats[pid].open_fds by {
        if v.active_fds.contains_key(key) {
            lemma_fds_after_insert(
                v.active_fds,
                key,
                v.active_fds[key].after_read(event.count, now),
                pid,
            );
        }
    }
    assert forall|pid: u32| #[trigger] w.process_stats.contains_key(pid) implies w.process_stats[
        pid
    ].consistent() && fds_of(w.active_fds, pid).len() <= w.process_stats[pid].open_fds by {
        if v.active_fds.contains_key(key) {
            lemma_fds_after_insert(
                v.active_fds,
                key,
                v.active_fds[key].after_write(event.count, now),
                pid,
            );
        }
    }
}

/// Recording an event the tracker accepts keeps it well formed.
pub proof fn lemma_event_keeps_wf(
    v: FdTrackerView,
    event: FileDescriptorEvent,
    now: WallTime,
    looked_up: Option<String>,
)
    requires
        v.wf(),
        v.accepts(event),
    ensures
        v.after_event(event, now, looked_up).wf(),
{
    let logged = v.with_event_logged(event, now);
    assert(logged.active_fds == v.active_fds);
    assert(logged.process_stats == v.process_stats);
    if event.op_type == FD_OP_OPEN {
        lemma_open_keeps_wf(logged, event, now, looked_up);
    } else if event.op_type == FD_OP_CLOSE {
        lemma_close_keeps_wf(logged, event);
    } else {
        lemma_io_keeps_wf(logged, event, now);
    }
}

/// A ranking for open descriptors puts the processes with more descriptors
/// open now first: each process listed has at least as many open as every
/// process listed after it and as every process left out.
pub proof fn lemma_fd_ranking_by_open_descriptors(
    ids: Seq<u32>,
    m: Map<u32, ProcessFdStats>,
    limit: int,
)
    requires
        is_top_ranking(ids, m, limit, |pid: u32, s: ProcessFdStats| open_fds_score(s)),
    ensures
        forall|i: int, j: int|
            #![trigger ids[i], ids[j]]
            0 <= i < j < ids.len() ==> m[ids[i]].open_fds >= m[ids[j]].open_fds,
        forall|pid: u32, i: int|
            #![trigger m.dom().contains(pid), ids[i]]
            m.dom().contains(pid) && !ids.contains(pid) && 0 <= i < ids.len() ==> m[pid].open_fds
                <= m[ids[i]].open_fds,
{
}

/// A ranking for input and output puts the processes that read and wrote
/// more bytes in all first: each process listed moved at least as many
/// bytes as every process listed after it and as every process left out.
pub proof fn lemma_process_ranking_by_bytes_moved(
    ids: Seq<u32>,
    m: Map<u32, ProcessFdStats>,
    limit: int,
)
    requires
        is_top_ranking(ids, m, limit, |pid: u32, s: ProcessFdStats| process_io_score(s)),
    ensures
        forall|i: int, j: int|
            #![trigger ids[i], ids[j]]
            0 <= i < j < ids.len() ==> m[ids[i]].total_read_bytes + m[ids[i]].total_write_bytes
                >= m[ids[j]].total_read_bytes + m[ids[j]].total_write_bytes,
        forall|pid: u32, i: int|
            #![trigger m.dom().contains(pid), ids[i]]
            m.dom().contains(pid) && !ids.contains(pid) && 0 <= i < ids.len()
                ==> m[pid].total_read_bytes + m[pid].total_write_bytes <= m[ids[i]].total_read_bytes
                + m[ids[i]].total_write_bytes,
{
}

/// A ranking of descriptors for input and output puts the descriptors that
/// moved more bytes, read and written together, first: each descriptor
/// listed moved at least as many as every descriptor listed after it and as
/// every descriptor left out.
pub proof fn lemma_descriptor_ranking_by_bytes_moved(
    ids: Seq<u64>,
    m: Map<u64, FileDescriptor>,
    limit: int,
)
    requires
        is_top_ranking(ids, m, limit, |key: u64, f: FileDescriptor| fd_io_score(f)),
    ensures
        forall|i: int, j: int|
            #![trigger ids[i], ids[j]]
            0 <= i < j < ids.len() ==> m[ids[i]].read_bytes + m[ids[i]].write_bytes
                >= m[ids[j]].read_bytes + m[ids[j]].write_bytes,
        forall|k: u64, i: int|
            #![trigger m.dom().contains(k), ids[i]]
            m.dom().contains(k) && !ids.contains(k) && 0 <= i < ids.len() ==> m[k].read_bytes
                + m[k].write_bytes <= m[ids[i]].read_bytes + m[ids[i]].write_bytes,
{
}

/// A read or a write counts for its process whether or not the descriptor
/// is tracked: a process with statistics gains the bytes and one operation
/// of that kind, and its other counters stay as they were. A tracked
/// descriptor gains them too, stamped with the instant of recording.
pub proof fn lemma_io_counts_for_process(
    v: FdTrackerView,
    event: FileDescriptorEvent,
    now: WallTime,
    looked_up: Option<String>,
)
    requires
        v.wf(),
        v.accepts(event),
        event.op_type == FD_OP_READ || event.op_type == FD_OP_WRITE,
    ensures
        ({
            let after = v.after_event(event, now, looked_up);
            let key = fd_key(event.pid, event.fd);
            let reads = event.op_type == FD_OP_READ;
            &&& after.process_stats.dom() == v.process_stats.dom()
            &&& after.active_fds.dom() == v.active_fds.dom()
            &&& v.process_stats.contains_key(event.pid) ==> {
                let (b, a) = (v.process_stats[event.pid], after.process_stats[event.pid]);
                &&& a.total_read_bytes == b.total_read_bytes + if reads {
                    event.count as int
                } else {
                    0
                }
                &&& a.read_ops == b.read_ops + if reads {
                    1int
                } else {
                    0
                }
                &&& a.total_write_bytes == b.total_write_bytes + if reads {
                    0
                } else {
                    event.count as int
                }
                &&& a.write_ops == b.write_ops + if reads {
                    0
                } else {
                    1int
                }
                &&& a.open_fds == b.open_fds
                &&& a.total_opened == b.total_opened
                &&& a.total_closed == b.total_closed
                &&& a.peak_fds == b.peak_fds
            }
            &&& v.active_fds.contains_key(key) ==> {
                let (b, a) = (v.active_fds[key], after.active_fds[key]);
                &&& a.read_bytes == b.read_bytes + if reads {
                    event.count as int
                } else {
                    0
                }
                &&& a.read_ops == b.read_ops + if reads {
                    1int
                } else {
                    0
                }
                &&& a.write_bytes == b.write_bytes + if reads {
                    0
                } else {
                    event.count as int
                }
                &&& a.write_ops == b.write_ops + if reads {
                    0
                } else {
                    1int
                }
                &&& a.last_operation == now
                &&& a.pid == b.pid && a.fd == b.fd && a.path == b.path && a.open_time == b.open_time
            }
            &&& forall|pid: u32|
                #![trigger after.process_stats[pid]]
                pid != event.pid && v.process_stats.contains_key(pid) ==> after.process_stats[pid]
                    == v.process_stats[pid]
            &&& forall|k: u64|
                #![trigger after.active_fds[k]]
                k != key && v.active_fds.contains_key(k) ==> after.active_fds[k] == v.active_fds[k]
        }),
{
    let logged = v.with_event_logged(event, now);
    assert(logged.active_fds == v.active_fds);
    assert(logged.process_stats == v.process_stats);
    let after = v.after_event(event, now, looked_up);
    let op = logged.after_operation(event, now, looked_up);
    assert(after.active_fds == op.active_fds);
    assert(after.process_stats == op.process_stats);
    assert(after.process_stats.dom() =~= v.process_stats.dom());
    assert(after.active_fds.dom() =~= v.active_fds.dom());
}

/// The tracker after recording `steps` in order, each an event with the
/// instant it was recorded at and the path found for its descriptor.
pub open spec fn after_events(
    v: FdTrackerView,
    steps: Seq<(FileDescriptorEvent, WallTime, Option<String>)>,
) -> FdTrackerView
    decreases steps.len(),
{
    if steps.len() == 0 {
        v
    } else {
        let step = steps.last();
        after_events(v, steps.drop_last()).after_event(step.0, step.1, step.2)
    }
}

/// The event opens a descriptor of process `pid`.
pub open spec fn opens_fd_of(e: FileDescriptorEvent, pid: u32) -> bool {
    e.op_type == FD_OP_OPEN && e.pid == pid && e.fd >= 0
}

/// The event opens descriptor `fd` of process `pid`.
pub open spec fn opens(e: FileDescriptorEvent, pid: u32, fd: i32) -> bool {
    e.op_type == FD_OP_OPEN && e.pid == pid && e.fd == fd
}

/// The event closes descriptor `fd` of process `pid`.
pub open spec fn closes(e: FileDescriptorEvent, pid: u32, fd: i32) -> bool {
    e.op_type == FD_OP_CLOSE && e.pid == pid && e.fd == fd
}

/// After a run of events a process has statistics exactly when it had them
/// before or one of the events opened a descriptor of it: only an open
/// with a descriptor creates statistics, and none are ever dropped.
pub proof fn lemma_stats_come_from_opens(
    v: FdTrackerView,
    steps: Seq<(FileDescriptorEvent, WallTime, Option<String>)>,
    pid: u32,
)
    ensures
        after_events(v, steps).process_stats.contains_key(pid) <==> v.process_stats.contains_key(pid)
            || exists|i: int| 0 <= i < steps.len() && #[trigger] opens_fd_of(steps[i].0, pid),
    decreases steps.len(),
{
    if steps.len() > 0 {
        let prefix = steps.drop_last();
        let n = steps.len() - 1;
        lemma_stats_come_from_opens(v, prefix, pid);
        let before = after_events(v, prefix);
        let e = steps[n].0;
        let logged = before.with_event_logged(e, steps[n].1);
        assert(logged.process_stats == before.process_stats);
        assert(after_events(v, steps).process_stats == logged.after_operation(
            e,
            steps[n].1,
            steps[n].2,
        ).process_stats);
        let after = after_events(v, steps);
        if opens_fd_of(e, pid) {
            assert(after.process_stats.contains_key(pid));
            assert(opens_fd_of(steps[n].0, pid));
        } else {
            assert(after.process_stats.contains_key(pid) == before.process_stats.contains_key(pid));
        }
        if exists|i: int| 0 <= i < prefix.len() && #[trigger] opens_fd_of(prefix[i].0, pid) {
            let i = choose|i: int| 0 <= i < prefix.len() && #[trigger] opens_fd_of(prefix[i].0, pid);
            assert(opens_fd_of(steps[i].0, pid));
        }
        if exists|i: int| 0 <= i < steps.len() && #[trigger] opens_fd_of(steps[i].0, pid) {
            let i = choose|i: int| 0 <= i < steps.len() && #[trigger] opens_fd_of(steps[i].0, pid);
            if i < n {
                assert(opens_fd_of(prefix[i].0, pid));
            }
        }
    }
}

/// From a tracker that tracks no descriptor, a run of events leaves
/// descriptor `fd` of process `pid` tracked exactly when `fd` is not
/// negative and some event opened it with no later event closing it.
pub proof fn lemma_tracked_fds_are_unclosed_opens(
    v: FdTrackerView,
    steps: Seq<(FileDescriptorEvent, WallTime, Option<String>)>,
    pid: u32,
    fd: i32,
)
    requires
        v.active_fds == Map::<u64, FileDescriptor>::empty(),
    ensures
        after_events(v, steps).active_fds.contains_key(fd_key(pid, fd)) <==> fd >= 0 && exists|i: int|
            0 <= i < steps.len() && #[trigger] opens(steps[i].0, pid, fd) && forall|j: int|
                i < j < steps.len() ==> !#[trigger] closes(steps[j].0, pid, fd),
    decreases steps.len(),
{
    if steps.len() > 0 {
        let prefix = steps.drop_last();
        let n = steps.len() - 1;
        let key = fd_key(pid, fd);
        lemma_tracked_fds_are_unclosed_opens(v, prefix, pid, fd);
        let before = after_events(v, prefix);
        let e = steps[n].0;
        let logged = before.with_event_logged(e, steps[n].1);
        assert(logged.active_fds == before.active_fds);
        let after = after_events(v, steps);
        assert(after.active_fds == logged.after_operation(e, steps[n].1, steps[n].2).active_fds);
        if fd_key(e.pid, e.fd) == key {
            lemma_fd_key_injective(e.pid, e.fd, pid, fd);
        }
        if opens(e, pid, fd) && fd >= 0 {
            assert(after.active_fds.contains_key(key));
            assert(opens(steps[n].0, pid, fd));
        } else if closes(e, pid, fd) {
            assert(!after.active_fds.contains_key(key));
            assert forall|i: int| 0 <= i < steps.len() && #[trigger] opens(steps[i].0, pid, fd) implies !(
            forall|j: int| i < j < steps.len() ==> !#[trigger] closes(steps[j].0, pid, fd)) by {
                assert(closes(steps[n].0, pid, fd));
            }
        } else {
            assert(after.active_fds.contains_key(key) == before.active_fds.contains_key(key));
            if exists|i: int|
                0 <= i < prefix.len() && #[trigger] opens(prefix[i].0, pid, fd) && forall|j: int|
                    i < j < prefix.len() ==> !#[trigger] closes(prefix[j].0, pid, fd) {
                let i = choose|i: int|
                    0 <= i < prefix.len() && #[trigger] opens(prefix[i].0, pid, fd) && forall|j: int|
                        i < j < prefix.len() ==> !#[trigger] closes(prefix[j].0, pid, fd);
                assert(opens(steps[i].0, pid, fd));
                assert forall|j: int| i < j < steps.len() implies !#[trigger] closes(
                    steps[j].0,
                    pid,
                    fd,
                ) by {
                    if j < n {
                        assert(!closes(prefix[j].0, pid, fd));
                    }
                }
            }
            if exists|i: int|
                0 <= i < steps.len() && #[trigger] opens(steps[i].0, pid, fd) && forall|j: int|
                    i < j < steps.len() ==> !#[trigger] closes(steps[j].0, pid, fd) {
                let i = choose|i: int|
                    0 <= i < steps.len() && #[trigger] opens(steps[i].0, pid, fd) && forall|j: int|
                        i < j < steps.len() ==> !#[trigger] closes(steps[j].0, pid, fd);
                if i < n {
                    assert(opens(prefix[i].0, pid, fd));
                    assert forall|j: int| i < j < prefix.len() implies !#[trigger] closes(
                        prefix[j].0,
                        pid,
                        fd,
                    ) by {
                        assert(!closes(steps[j].0, pid, fd));
                    }
                } else {
                    assert(opens(e, pid, fd));
                }
            }
        }
    }
}

/// The counter of descriptors open now, as a number.
pub open spec fn open_fds_field() -> spec_fn(ProcessFdStats) -> int {
    |s: ProcessFdStats| s.open_fds as int
}

/// The counter of descriptors ever opened, as a number.
pub open spec fn total_opened_field() -> spec_fn(ProcessFdStats) -> int {
    |s: ProcessFdStats| s.total_opened as int
}

/// The counter of descriptors ever closed, as a number.
pub open spec fn total_closed_field() -> spec_fn(ProcessFdStats) -> int {
    |s: ProcessFdStats| s.total_closed as int
}

/// The counter of bytes read, as a number.
pub open spec fn total_read_bytes_field() -> spec_fn(ProcessFdStats) -> int {
    |s: ProcessFdStats| s.total_read_bytes as int
}

/// The counter of bytes written, as a number.
pub open spec fn total_write_bytes_field() -> spec_fn(ProcessFdStats) -> int {
    |s: ProcessFdStats| s.total_write_bytes as int
}

/// The counter of reads, as a number.
pub open spec fn read_ops_field() -> spec_fn(ProcessFdStats) -> int {
    |s: ProcessFdStats| s.read_ops as int
}

/// The counter of writes, as a number.
pub open spec fn write_ops_field() -> spec_fn(ProcessFdStats) -> int {
    |s: ProcessFdStats| s.write_ops as int
}

/// The counter of the peak of descriptors open at once, as a number.
pub open spec fn peak_fds_field() -> spec_fn(ProcessFdStats) -> int {
    |s: ProcessFdStats| s.peak_fds as int
}

/// Tracks open file descriptors, per-process descriptor statistics, and the
/// latest descriptor events.
pub struct FdTracker {
    active_fds: HashMap<u64, FileDescriptor>,
    process_stats: HashMap<u32, ProcessFdStats>,
    recent_events: Vec<(WallTime, FileDescriptorEvent)>,
    history_limit: usize,
    path_cache: HashMap<u64, String>,
    last_path_resolve: WallTime,
}

impl View for FdTracker {
    type V = FdTrackerView;

    closed spec fn view(&self) -> FdTrackerView {
        FdTrackerView {
            active_fds: self.active_fds@,
            process_stats: self.process_stats@,
            recent_events: self.recent_events@,
            history_limit: self.history_limit as nat,
            path_cache: self.path_cache@,
            last_path_resolve: self.last_path_resolve,
        }
    }
}

fn open_fds_score_of(pid: &u32, s: &ProcessFdStats) -> (r: u128)
    ensures
        r as int == open_fds_score(*s),
{
    s.open_fds as u128
}

fn process_io_score_of(pid: &u32, s: &ProcessFdStats) -> (r: u128)
    ensures
        r as int == process_io_score(*s),
{
    s.total_read_bytes as u128 + s.total_write_bytes as u128
}

fn fd_io_score_of(key: &u64, f: &FileDescriptor) -> (r: u128)
    ensures
        r as int == fd_io_score(*f),
{
    f.read_bytes as u128 + f.write_bytes as u128
}

impl FdTracker {
    /// An empty tracker that keeps the last [`HISTORY_LIMIT`] events; the
    /// path cache counts as swept at the time the tracker is made.
    pub fn new() -> (t: Self)
        ensures
            t@.active_fds == Map::<u64, FileDescriptor>::empty(),
            t@.process_stats == Map::<u32, ProcessFdStats>::empty(),
            t@.recent_events == Seq::<(WallTime, FileDescriptorEvent)>::empty(),
            t@.history_limit == HISTORY_LIMIT,
            t@.path_cache == Map::<u64, String>::empty(),
            t@.last_path_resolve.wf(),
            t@.wf(),
    {
        FdTracker {
            active_fds: HashMap::new(),
            process_stats: HashMap::new(),
            recent_events: Vec::with_capacity(HISTORY_LIMIT),
            history_limit: HISTORY_LIMIT,
            path_cache: HashMap::new(),
            last_path_resolve: wall_clock_now(),
        }
    }

    /// Whether recording `event` keeps every counter within its type.
    pub fn can_record(&self, event: FileDescriptorEvent) -> (ok: bool)
        ensures
            ok == self@.accepts(event),
    {
        let key = Self::make_fd_key(event.pid, event.fd);
        let fd = self.active_fds.get(&key);
        let stats = self.process_stats.get(&event.pid);
        if event.op_type == FD_OP_OPEN {
            if event.fd < 0 {
                return true;
            }
            match stats {
                Some(s) => s.open_fds < u32::MAX && s.total_opened < u64::MAX,
                None => true,
            }
        } else if event.op_type == FD_OP_READ {
            let fd_ok = match fd {
                Some(f) => f.read_bytes <= u64::MAX - event.count && f.read_ops < u64::MAX,
                None => true,
            };
            let stats_ok = match stats {
                Some(s) => s.total_read_bytes <= u64::MAX - event.count && s.read_ops < u64::MAX,
                None => true,
            };
            fd_ok && stats_ok
        } else if event.op_type == FD_OP_WRITE {
            let fd_ok = match fd {
                Some(f) => f.write_bytes <= u64::MAX - event.count && f.write_ops < u64::MAX,
                None => true,
            };
            let stats_ok = match stats {
                Some(s) => s.total_write_bytes <= u64::MAX - event.count && s.write_ops < u64::MAX,
                None => true,
            };
            fd_ok && stats_ok
        } else {
            true
        }
    }

    fn make_fd_key(pid: u32, fd: i32) -> (k: u64)
        ensures
            k == fd_key(pid, fd),
    {
        make_fd_key(pid, fd)
    }

    /// Records `event`, read from the kernel, at the current time.
    /// `read_link` is asked for the path of a newly opened descriptor whose
    /// path is not cached; it gets the process id and the descriptor.
    pub fn record_event<F: Fn(u32, i32) -> Option<String>>(
        &mut self,
        event: FileDescriptorEvent,
        read_link: F,
    )
        requires
            old(self)@.wf(),
            old(self)@.accepts(event),
            forall|pid: u32, fd: i32| #[trigger] read_link.requires((pid, fd)),
        ensures
            final(self)@.wf(),
            exists|now: WallTime, looked_up: Option<String>|
                {
                    &&& now.wf()
                    &&& old(self)@.path_lookup_needed(event) ==> read_link.ensures(
                        (event.pid, event.fd),
                        looked_up,
                    )
                    &&& final(self)@ == #[trigger] old(self)@.after_event(event, now, looked_up)
                },
    {
        let now = wall_clock_now();
        self.record_event_at(event, now, read_link);
    }

    /// Records `event` at the instant `now`; see [`FdTracker::record_event`].
    pub fn record_event_at<F: Fn(u32, i32) -> Option<String>>(
        &mut self,
        event: FileDescriptorEvent,
        now: WallTime,
        read_link: F,
    )
        requires
            old(self)@.wf(),
            old(self)@.accepts(event),
            forall|pid: u32, fd: i32| #[trigger] read_link.requires((pid, fd)),
        ensures
            final(self)@.wf(),
            exists|looked_up: Option<String>|
                {
                    &&& old(self)@.path_lookup_needed(event) ==> read_link.ensures(
                        (event.pid, event.fd),
                        looked_up,
                    )
                    &&& final(self)@ == #[trigger] old(self)@.after_event(event, now, looked_up)
                },
    {
        let ghost pre = self@;
        self.recent_events.push((now, event));
        if self.recent_events.len() > self.history_limit {
            let to_remove = self.recent_events.len() - self.history_limit;
            self.drop_oldest_events(to_remove);
        }
        assert(self@ == pre.with_event_logged(event, now));
        let ghost logged = self@;
        let ghost mut looked_up: Option<String> = None;
        if event.op_type == FD_OP_OPEN {
            let Ghost(found) = self.handle_open(event, now, read_link);
            proof {
                looked_up = found;
            }
        } else if event.op_type == FD_OP_CLOSE {
            self.handle_close(event, now);
        } else if event.op_type == FD_OP_READ {
            self.handle_read(event, now);
        } else if event.op_type == FD_OP_WRITE {
            self.handle_write(event, now);
        }
        assert(self@ == logged.after_operation(event, now, looked_up));
        self.maybe_resolve_paths(now);
        assert(self@ == pre.after_event(event, now, looked_up));
        proof {
            lemma_event_keeps_wf(pre, event, now, looked_up);
        }
    }

    fn drop_oldest_events(&mut self, n: usize)
        requires
            n <= old(self).recent_events@.len(),
        ensures
            final(self)@ == (FdTrackerView {
                recent_events: old(self)@.recent_events.subrange(
                    n as int,
                    old(self)@.recent_events.len() as int,
                ),
                ..old(self)@
            }),
    {
        let mut kept: Vec<(WallTime, FileDescriptorEvent)> = Vec::with_capacity(self.history_limit);
        let len = self.recent_events.len();
        let mut i: usize = n;
        while i < len
            invariant
                n <= i <= len,
                len == self.recent_events@.len(),
                kept@ == self.recent_events@.subrange(n as int, i as int),
            decreases len - i,
        {
            kept.push(self.recent_events[i]);
            i += 1;
        }
        self.recent_events = kept;
    }

    fn handle_open<F: Fn(u32, i32) -> Option<String>>(
        &mut self,
        event: FileDescriptorEvent,
        timestamp: WallTime,
        read_link: F,
    ) -> (looked_up: Ghost<Option<String>>)
        requires
            old(self)@.wf(),
            old(self)@.accepts(event),
            event.op_type == FD_OP_OPEN,
            forall|pid: u32, fd: i32| #[trigger] read_link.requires((pid, fd)),
        ensures
            old(self)@.path_lookup_needed(event) ==> read_link.ensures(
                (event.pid, event.fd),
                looked_up@,
            ),
            final(self)@ == old(self)@.after_open(event, timestamp, looked_up@),
    {
        if event.fd < 0 {
            return Ghost(None);
        }
        let ghost pre = self@;
        let key = Self::make_fd_key(event.pid, event.fd);
        let path = self.resolve_fd_path(event.pid, event.fd, read_link);
        let ghost found = path;
        self.active_fds.insert(
            key,
            FileDescriptor {
                pid: event.pid,
                fd: event.fd,
                path,
                open_time: timestamp,
                read_bytes: 0,
                write_bytes: 0,
                read_ops: 0,
                write_ops: 0,
                last_operation: timestamp,
            },
        );
        let mut stats = match self.process_stats.get(&event.pid) {
            Some(s) => *s,
            None => ProcessFdStats::default(),
        };
        stats.open_fds += 1;
        stats.total_opened += 1;
        if stats.open_fds > stats.peak_fds {
            stats.peak_fds = stats.open_fds;
        }
        self.process_stats.insert(event.pid, stats);
        assert(self@ == pre.after_open(event, timestamp, found));
        Ghost(found)
    }

    fn resolve_fd_path<F: Fn(u32, i32) -> Option<String>>(
        &mut self,
        pid: u32,
        fd: i32,
        read_link: F,
    ) -> (path: Option<String>)
        requires
            forall|p: u32, f: i32| #[trigger] read_link.requires((p, f)),
        ensures
            old(self)@.path_cache.contains_key(fd_key(pid, fd)) ==> {
                &&& path == Some(old(self)@.path_cache[fd_key(pid, fd)])
                &&& final(self)@ == old(self)@
            },
            !old(self)@.path_cache.contains_key(fd_key(pid, fd)) ==> {
                &&& read_link.ensures((pid, fd), path)
                &&& final(self)@ == (FdTrackerView {
                    path_cache: if path is Some {
                        old(self)@.path_cache.insert(fd_key(pid, fd), path->0)
                    } else {
                        old(self)@.path_cache
                    },
                    ..old(self)@
                })
            },
    {
        let key = Self::make_fd_key(pid, fd);
        match self.path_cache.get(&key) {
            Some(p) => {
                return Some(p.clone());
            },
            None => {},
        }
        let found = read_link(pid, fd);
        match &found {
            Some(p) => {
                self.path_cache.insert(key, p.clone());
            },
            None => {},
        }
        found
    }

    fn handle_close(&mut self, event: FileDescriptorEvent, timestamp: WallTime)
        requires
            old(self)@.wf(),
            old(self)@.accepts(event),
            event.op_type == FD_OP_CLOSE,
        ensures
            final(self)@ == old(self)@.after_close(event),
    {
        let ghost pre = self@;
        let key = Self::make_fd_key(event.pid, event.fd);
        proof {
            if pre.active_fds.contains_key(key) && pre.process_stats.contains_key(event.pid) {
                let f = pre.active_fds[key];
                lemma_fd_key_injective(f.pid, f.fd, event.pid, event.fd);
                lemma_fds_finite(pre.active_fds, event.pid);
                assert(fds_of(pre.active_fds, event.pid).contains(key));
            }
        }
        if self.active_fds.remove(&key).is_some() {
            match self.process_stats.get(&event.pid) {
                Some(s) => {
                    let mut stats = *s;
                    stats.open_fds = stats.open_fds.saturating_sub(1);
                    stats.total_closed += 1;
                    self.process_stats.insert(event.pid, stats);
                },
                None => {},
            }
            assert(self@ == pre.after_close(event));
        } else {
            assert(self@.active_fds =~= pre.active_fds);
        }
    }

    fn handle_read(&mut self, event: FileDescriptorEvent, timestamp: WallTime)
        requires
            old(self)@.wf(),
            old(self)@.accepts(event),
            event.op_type == FD_OP_READ,
        ensures
            final(self)@ == old(self)@.after_read(event, timestamp),
    {
        let ghost pre = self@;
        let key = Self::make_fd_key(event.pid, event.fd);
        match self.active_fds.remove(&key) {
            Some(mut f) => {
                f.read_bytes += event.count;
                f.read_ops += 1;
                f.last_operation = timestamp;
                self.active_fds.insert(key, f);
            },
            None => {},
        }
        match self.process_stats.get(&event.pid) {
            Some(s) => {
                let mut stats = *s;
                stats.total_read_bytes += event.count;
                stats.read_ops += 1;
                self.process_stats.insert(event.pid, stats);
            },
            None => {},
        }
        assert(self@.active_fds =~= pre.after_read(event, timestamp).active_fds);
        assert(self@.process_stats =~= pre.after_read(event, timestamp).process_stats);
    }

    fn handle_write(&mut self, event: FileDescriptorEvent, timestamp: WallTime)
        requires
            old(self)@.wf(),
            old(self)@.accepts(event),
            event.op_type == FD_OP_WRITE,
        ensures
            final(self)@ == old(self)@.after_write(event, timestamp),
    {
        let ghost pre = self@;
        let key = Self::make_fd_key(event.pid, event.fd);
        match self.active_fds.remove(&key) {
            Some(mut f) => {
                f.write_bytes += event.count;
                f.write_ops += 1;
                f.last_operation = timestamp;
                self.active_fds.insert(key, f);
            },
            None => {},
        }
        match self.process_stats.get(&event.pid) {
            Some(s) => {
                let mut stats = *s;
                stats.total_write_bytes += event.count;
                stats.write_ops += 1;
                self.process_stats.insert(event.pid, stats);
            },
            None => {},
        }
        assert(self@.active_fds =~= pre.after_write(event, timestamp).active_fds);
        assert(self@.process_stats =~= pre.after_write(event, timestamp).process_stats);
    }

    fn maybe_resolve_paths(&mut self, now: WallTime)
        ensures
            final(self)@ == old(self)@.after_path_scan(now),
    {
        let now_nanos = now.to_nanos();
        let last_nanos = self.last_path_resolve.to_nanos();
        let should_resolve = now_nanos < last_nanos || now_nanos - last_nanos
            >= PATH_SCAN_INTERVAL_NANOS as i128;
        if !should_resolve {
            return;
        }
        self.last_path_resolve = now;
        let ghost pre = self@;
        let keys = self.cached_keys();
        let mut i: usize = 0;
        while i < keys.len()
            invariant
                i <= keys@.len(),
                forall|k: u64| #[trigger] pre.path_cache.contains_key(k) ==> keys@.contains(k),
                self@ == (FdTrackerView { path_cache: self@.path_cache, ..pre }),
                forall|k: u64| #[trigger]
                    self@.path_cache.contains_key(k) <==> pre.path_cache.contains_key(k) && (
                    pre.active_fds.contains_key(k) || !(exists|j: int| 0 <= j < i && keys@[j] == k)),
                forall|k: u64| #[trigger]
                    self@.path_cache.contains_key(k) ==> self@.path_cache[k] == pre.path_cache[k],
            decreases keys@.len() - i,
        {
            let key = keys[i];
            if !self.active_fds.contains_key(&key) {
                self.path_cache.remove(&key);
            }
            i += 1;
        }
        proof {
            assert(self@.path_cache =~= pre.path_cache.restrict(pre.active_fds.dom()));
        }
    }

    /// The latest `limit` recorded events, oldest first, each with the
    /// instant it was recorded.
    pub fn get_recent_events(&self, limit: usize) -> (r: Vec<(WallTime, FileDescriptorEvent)>)
        ensures
            r@ == keep_last(self@.recent_events, limit as nat),
    {
        let len = self.recent_events.len();
        let start = if len > limit {
            len - limit
        } else {
            0
        };
        let mut r: Vec<(WallTime, FileDescriptorEvent)> = Vec::new();
        let mut i: usize = start;
        while i < len
            invariant
                start <= i <= len,
                len == self.recent_events@.len(),
                r@ == self.recent_events@.subrange(start as int, i as int),
            decreases len - i,
        {
            r.push(self.recent_events[i]);
            i += 1;
        }
        assert(self.recent_events@.subrange(0, len as int) =~= self.recent_events@);
        r
    }

    fn stats_by_pid(&self, ids: &Vec<u32>) -> (r: Vec<(u32, ProcessFdStats)>)
        requires
            forall|i: int| 0 <= i < ids@.len() ==> self@.process_stats.contains_key(#[trigger] ids@[i]),
        ensures
            r@.map_values(|p: (u32, ProcessFdStats)| p.0) == ids@,
            forall|i: int|
                0 <= i < r@.len() ==> (#[trigger] r@[i]).1 == self@.process_stats[r@[i].0],
    {
        let mut r: Vec<(u32, ProcessFdStats)> = Vec::new();
        let mut i: usize = 0;
        while i < ids.len()
            invariant
                i <= ids@.len(),
                r@.len() == i,
                forall|j: int| 0 <= j < ids@.len() ==> self@.process_stats.contains_key(#[trigger] ids@[j]),
                forall|j: int| 0 <= j < i ==> r@[j].0 == ids@[j],
                forall|j: int| 0 <= j < i ==> r@[j].1 == self@.process_stats[r@[j].0],
            decreases ids@.len() - i,
        {
            let pid = ids[i];
            let stats = *self.process_stats.get(&pid).unwrap();
            r.push((pid, stats));
            i += 1;
        }
        assert(r@.map_values(|p: (u32, ProcessFdStats)| p.0) =~= ids@);
        r
    }

    /// The processes with the most open descriptors, at most `limit` of
    /// them, most first, each with its statistics.
    pub fn get_top_processes_by_fds(&self, limit: usize) -> (r: Vec<(u32, ProcessFdStats)>)
        ensures
            is_top_ranking(
                r@.map_values(|p: (u32, ProcessFdStats)| p.0),
                self@.process_stats,
                limit as int,
                |pid: u32, s: ProcessFdStats| open_fds_score(s),
            ),
            forall|i: int|
                0 <= i < r@.len() ==> (#[trigger] r@[i]).1 == self@.process_stats[r@[i].0],
            forall|i: int, j: int|
                0 <= i < j < r@.len() ==> (#[trigger] r@[i]).1.open_fds >= (#[trigger] r@[j]).1.open_fds,
            forall|pid: u32, i: int|
                #![trigger self@.process_stats.dom().contains(pid), r@[i]]
                self@.process_stats.dom().contains(pid) && !r@.map_values(|p: (u32, ProcessFdStats)| p.0).contains(pid)
                    && 0 <= i < r@.len() ==> self@.process_stats[pid].open_fds <= r@[i].1.open_fds,
    {
        let ids = rank_top(
            &self.process_stats,
            limit,
            open_fds_score_of,
            Ghost(|pid: u32, s: ProcessFdStats| open_fds_score(s)),
        );
        let r = self.stats_by_pid(&ids);
        proof {
            lemma_fd_ranking_by_open_descriptors(ids@, self@.process_stats, limit as int);
            assert forall|i: int, j: int| 0 <= i < j < r@.len() implies #[trigger] r@[i].1.open_fds >= #[trigger] r@[j].1.open_fds by {
                assert(r@.map_values(|p: (u32, ProcessFdStats)| p.0)[i] == r@[i].0);
                assert(r@.map_values(|p: (u32, ProcessFdStats)| p.0)[j] == r@[j].0);
            }
            assert forall|pid: u32, i: int|
                #![trigger self@.process_stats.dom().contains(pid), r@[i]]
                self@.process_stats.dom().contains(pid) && !r@.map_values(|p: (u32, ProcessFdStats)| p.0).contains(pid)
                    && 0 <= i < r@.len() implies self@.process_stats[pid].open_fds <= r@[i].1.open_fds by {
                assert(r@.map_values(|p: (u32, ProcessFdStats)| p.0)[i] == r@[i].0);
            }
        }
        r
    }

    /// The processes that read and wrote the most bytes, at most `limit` of
    /// them, most first, each with its statistics.
    pub fn get_top_processes_by_io(&self, limit: usize) -> (r: Vec<(u32, ProcessFdStats)>)
        requires
            forall|pid: u32| #[trigger]
                self@.process_stats.contains_key(pid) ==> self@.process_stats[pid].io_bytes()
                    <= u64::MAX,
        ensures
            is_top_ranking(
                r@.map_values(|p: (u32, ProcessFdStats)| p.0),
                self@.process_stats,
                limit as int,
                |pid: u32, s: ProcessFdStats| process_io_score(s),
            ),
            forall|i: int|
                0 <= i < r@.len() ==> (#[trigger] r@[i]).1 == self@.process_stats[r@[i].0],
            forall|i: int, j: int|
                0 <= i < j < r@.len() ==> (#[trigger] r@[i]).1.total_read_bytes + r@[i].1.total_write_bytes >= (#[trigger] r@[j]).1.total_read_bytes + r@[j].1.total_write_bytes,
            forall|pid: u32, i: int|
                #![trigger self@.process_stats.dom().contains(pid), r@[i]]
                self@.process_stats.dom().contains(pid) && !r@.map_values(|p: (u32, ProcessFdStats)| p.0).contains(pid)
                    && 0 <= i < r@.len() ==> self@.process_stats[pid].total_read_bytes + self@.process_stats[pid].total_write_bytes <= r@[i].1.total_read_bytes + r@[i].1.total_write_bytes,
    {
        let ids = rank_top(
            &self.process_stats,
            limit,
            process_io_score_of,
            Ghost(|pid: u32, s: ProcessFdStats| process_io_score(s)),
        );
        let r = self.stats_by_pid(&ids);
        proof {
            lemma_process_ranking_by_bytes_moved(ids@, self@.process_stats, limit as int);
            assert forall|i: int, j: int| 0 <= i < j < r@.len() implies #[trigger] r@[i].1.total_read_bytes + r@[i].1.total_write_bytes >= #[trigger] r@[j].1.total_read_bytes + r@[j].1.total_write_bytes by {
                assert(r@.map_values(|p: (u32, ProcessFdStats)| p.0)[i] == r@[i].0);
                assert(r@.map_values(|p: (u32, ProcessFdStats)| p.0)[j] == r@[j].0);
            }
            assert forall|pid: u32, i: int|
                #![trigger self@.process_stats.dom().contains(pid), r@[i]]
                self@.process_stats.dom().contains(pid) && !r@.map_values(|p: (u32, ProcessFdStats)| p.0).contains(pid)
                    && 0 <= i < r@.len() implies self@.process_stats[pid].total_read_bytes + self@.process_stats[pid].total_write_bytes <= r@[i].1.total_read_bytes + r@[i].1.total_write_bytes by {
                assert(r@.map_values(|p: (u32, ProcessFdStats)| p.0)[i] == r@[i].0);
            }
        }
        r
    }

    /// Every descriptor open now, each once.
    pub fn get_active_fds(&self) -> (r: Vec<&FileDescriptor>)
        requires
            self@.wf(),
        ensures
            r@.len() == self@.active_fds.dom().len(),
            forall|i: int|
                0 <= i < r@.len() ==> self@.active_fds.contains_key((#[trigger] r@[i]).key())
                    && self@.active_fds[r@[i].key()] == *r@[i],
            forall|i: int, j: int|
                0 <= i < j < r@.len() ==> (#[trigger] r@[i]).key() != (#[trigger] r@[j]).key(),
            forall|k: u64| #[trigger]
                self@.active_fds.contains_key(k) ==> exists|i: int|
                    0 <= i < r@.len() && (#[trigger] r@[i]).key() == k,
    {
        let ghost m = self@.active_fds;
        let mut r: Vec<&FileDescriptor> = Vec::new();
        for (k, f) in it: self.active_fds.iter()
            invariant
                r@.len() == it.index(),
                it.seq().len() == m.dom().len(),
                it.seq().no_duplicates(),
                m == self@.active_fds,
                self@.wf(),
                forall|i: int| 0 <= i < r@.len() ==> *r@[i] == *it.seq()[i].1,
                forall|i: int|
                    0 <= i < r@.len() ==> m.contains_key((#[trigger] r@[i]).key()) && m[r@[i].key()]
                        == *r@[i],
                forall|i: int|
                    0 <= i < it.seq().len() ==> #[trigger] m.contains_key(*it.seq()[i].0)
                        && m[*it.seq()[i].0] == *it.seq()[i].1,
                forall|q: u64| #[trigger]
                    m.contains_key(q) ==> (exists|i: int|
                        0 <= i < r@.len() && (#[trigger] r@[i]).key() == q) || (exists|j: int|
                        it.index() <= j < it.seq().len() && *it.seq()[j].0 == q),
                forall|i: int, j: int|
                    0 <= i < j < r@.len() ==> (#[trigger] r@[i]).key() != (#[trigger] r@[j]).key(),
        {
            let ghost before = r@;
            r.push(f);
            proof {
                assert(m.contains_key(*k));
                assert(m[*k].key() == *k);
                let ghost idx = it.index();
                assert(r@[before.len() as int].key() == *k);
                assert forall|q: u64| #[trigger] m.contains_key(q) implies (exists|i: int|
                    0 <= i < r@.len() && (#[trigger] r@[i]).key() == q) || (exists|j: int|
                    idx + 1 <= j < it.seq().len() && *it.seq()[j].0 == q) by {
                    if exists|i: int| 0 <= i < before.len() && (#[trigger] before[i]).key() == q {
                        let i = choose|i: int| 0 <= i < before.len() && (#[trigger] before[i]).key() == q;
                        assert(r@[i].key() == q);
                    } else if q == *k {
                        assert(r@[before.len() as int].key() == q);
                    } else {
                        let j = choose|j: int| idx <= j < it.seq().len() && *it.seq()[j].0 == q;
                        assert(j != idx);
                    }
                }
                assert forall|i: int, j: int| 0 <= i < j < r@.len() implies (#[trigger] r@[i]).key()
                    != (#[trigger] r@[j]).key() by {
                    if j == before.len() {
                        assert(it.seq()[i] != it.seq()[j]);
                        assert(m.contains_key(*it.seq()[i].0));
                        assert(m.contains_key(*it.seq()[j].0));
                    }
                }
            }
        }
        r
    }

    /// The descriptors that moved the most bytes, at most `limit` of them,
    /// most first.
    pub fn get_most_active_fds(&self, limit: usize) -> (r: Vec<&FileDescriptor>)
        requires
            self@.wf(),
            forall|k: u64| #[trigger]
                self@.active_fds.contains_key(k) ==> self@.active_fds[k].io_bytes() <= u64::MAX,
        ensures
            is_top_ranking(
                r@.map_values(|f: &FileDescriptor| f.key()),
                self@.active_fds,
                limit as int,
                |key: u64, f: FileDescriptor| fd_io_score(f),
            ),
            forall|i: int|
                0 <= i < r@.len() ==> self@.active_fds[(#[trigger] r@[i]).key()] == *r@[i],
            forall|i: int, j: int|
                0 <= i < j < r@.len() ==> (#[trigger] r@[i]).read_bytes + r@[i].write_bytes
                    >= (#[trigger] r@[j]).read_bytes + r@[j].write_bytes,
            forall|k: u64, i: int|
                #![trigger self@.active_fds.dom().contains(k), r@[i]]
                self@.active_fds.dom().contains(k) && !r@.map_values(|f: &FileDescriptor| f.key()).contains(k)
                    && 0 <= i < r@.len() ==> self@.active_fds[k].read_bytes + self@.active_fds[k].write_bytes
                    <= r@[i].read_bytes + r@[i].write_bytes,
    {
        let ids = rank_top(
            &self.active_fds,
            limit,
            fd_io_score_of,
            Ghost(|key: u64, f: FileDescriptor| fd_io_score(f)),
        );
        let mut r: Vec<&FileDescriptor> = Vec::new();
        let mut i: usize = 0;
        while i < ids.len()
            invariant
                i <= ids@.len(),
                r@.len() == i,
                self@.wf(),
                forall|j: int| 0 <= j < ids@.len() ==> self@.active_fds.contains_key(#[trigger] ids@[j]),
                forall|j: int| 0 <= j < i ==> r@[j].key() == ids@[j],
                forall|j: int| 0 <= j < i ==> self@.active_fds[r@[j].key()] == *r@[j],
            decreases ids@.len() - i,
        {
            let key = ids[i];
            let f = self.active_fds.get(&key).unwrap();
            r.push(f);
            i += 1;
        }
        assert(r@.map_values(|f: &FileDescriptor| f.key()) =~= ids@);
        proof {
            lemma_descriptor_ranking_by_bytes_moved(ids@, self@.active_fds, limit as int);
            assert forall|i: int, j: int| 0 <= i < j < r@.len() implies #[trigger] r@[i].read_bytes
                + r@[i].write_bytes >= #[trigger] r@[j].read_bytes + r@[j].write_bytes by {
                assert(ids@[i] == r@[i].key() && ids@[j] == r@[j].key());
            }
            assert forall|k: u64, i: int|
                #![trigger self@.active_fds.dom().contains(k), r@[i]]
                self@.active_fds.dom().contains(k) && !r@.map_values(|f: &FileDescriptor| f.key()).contains(k)
                    && 0 <= i < r@.len() implies self@.active_fds[k].read_bytes
                    + self@.active_fds[k].write_bytes <= r@[i].read_bytes + r@[i].write_bytes by {
                assert(ids@[i] == r@[i].key());
            }
        }
        r
    }

    /// The statistics of process `pid`, if it is known.
    pub fn get_process_stats(&self, pid: u32) -> (r: Option<&ProcessFdStats>)
        ensures
            match r {
                Some(s) => self@.process_stats.contains_key(pid) && *s == self@.process_stats[pid],
                None => !self@.process_stats.contains_key(pid),
            },
    {
        self.process_stats.get(&pid)
    }

    /// Descriptor `fd` of process `pid`, if it is open.
    pub fn get_fd_info(&self, pid: u32, fd: i32) -> (r: Option<&FileDescriptor>)
        requires
            self@.wf(),
        ensures
            match r {
                Some(f) => {
                    &&& self@.active_fds.contains_key(fd_key(pid, fd))
                    &&& *f == self@.active_fds[fd_key(pid, fd)]
                    &&& f.pid == pid
                    &&& f.fd == fd
                },
                None => !self@.active_fds.contains_key(fd_key(pid, fd)),
            },
    {
        let key = Self::make_fd_key(pid, fd);
        let r = self.active_fds.get(&key);
        proof {
            if self@.active_fds.contains_key(key) {
                let f = self@.active_fds[key];
                lemma_fd_key_injective(f.pid, f.fd, pid, fd);
            }
        }
        r
    }

    /// The statistics of all processes together: each counter summed over
    /// the processes, the peak the highest peak of any process.
    pub fn get_total_stats(&self) -> (total: ProcessFdStats)
        requires
            self@.totals_fit(),
        ensures
            total == self@.total_stats(),
    {
        let ghost m = self@.process_stats;
        let ghost mut rest = m;
        let mut total = ProcessFdStats::default();
        proof {
            assert forall|k: u32| rest.contains_key(k) implies #[trigger] rest[k] == m[k] by {}
        }
        for (pid, stats) in it: self.process_stats.iter()
            invariant
                it.seq().len() == m.dom().len(),
                it.seq().no_duplicates(),
                m == self@.process_stats,
                self@.totals_fit(),
                forall|i: int|
                    0 <= i < it.seq().len() ==> #[trigger] m.contains_key(*it.seq()[i].0)
                        && m[*it.seq()[i].0] == *it.seq()[i].1,
                forall|q: u32| #[trigger] m.contains_key(q) ==> it.seq().contains((&q, &m[q])),
                rest.dom().finite(),
                forall|q: u32| #[trigger]
                    rest.contains_key(q) <==> exists|j: int|
                        it.index() <= j < it.seq().len() && *it.seq()[j].0 == q,
                forall|q: u32| #[trigger] rest.contains_key(q) ==> rest[q] == m[q],
                total.open_fds + map_sum(rest, open_fds_field()) == map_sum(m, open_fds_field()),
                total.total_opened + map_sum(rest, total_opened_field()) == map_sum(
                    m,
                    total_opened_field(),
                ),
                total.total_closed + map_sum(rest, total_closed_field()) == map_sum(
                    m,
                    total_closed_field(),
                ),
                total.total_read_bytes + map_sum(rest, total_read_bytes_field()) == map_sum(
                    m,
                    total_read_bytes_field(),
                ),
                total.total_write_bytes + map_sum(rest, total_write_bytes_field()) == map_sum(
                    m,
                    total_write_bytes_field(),
                ),
                total.read_ops + map_sum(rest, read_ops_field()) == map_sum(m, read_ops_field()),
                total.write_ops + map_sum(rest, write_ops_field()) == map_sum(m, write_ops_field()),
                (if total.peak_fds > map_max(rest, peak_fds_field()) {
                    total.peak_fds as int
                } else {
                    map_max(rest, peak_fds_field())
                }) == map_max(m, peak_fds_field()),
        {
            proof {
                assert(it.seq()[it.index()] == (pid, stats));
                assert(rest.contains_key(*pid));
                assert(rest[*pid] == *stats);
                lemma_map_sum_remove(rest, *pid, open_fds_field());
                lemma_map_sum_remove(rest, *pid, total_opened_field());
                lemma_map_sum_remove(rest, *pid, total_closed_field());
                lemma_map_sum_remove(rest, *pid, total_read_bytes_field());
                lemma_map_sum_remove(rest, *pid, total_write_bytes_field());
                lemma_map_sum_remove(rest, *pid, read_ops_field());
                lemma_map_sum_remove(rest, *pid, write_ops_field());
                lemma_map_max_remove(rest, *pid, peak_fds_field());
                lemma_map_sum_nonneg(rest.remove(*pid), open_fds_field());
                lemma_map_sum_nonneg(rest.remove(*pid), total_opened_field());
                lemma_map_sum_nonneg(rest.remove(*pid), total_closed_field());
                lemma_map_sum_nonneg(rest.remove(*pid), total_read_bytes_field());
                lemma_map_sum_nonneg(rest.remove(*pid), total_write_bytes_field());
                lemma_map_sum_nonneg(rest.remove(*pid), read_ops_field());
                lemma_map_sum_nonneg(rest.remove(*pid), write_ops_field());
            }
            total.open_fds += stats.open_fds;
            total.total_opened += stats.total_opened;
            total.total_closed += stats.total_closed;
            total.total_read_bytes += stats.total_read_bytes;
            total.total_write_bytes += stats.total_write_bytes;
            total.read_ops += stats.read_ops;
            total.write_ops += stats.write_ops;
            if stats.peak_fds > total.peak_fds {
                total.peak_fds = stats.peak_fds;
            }
            proof {
                let ghost idx = it.index();
                rest = rest.remove(*pid);
                assert forall|q: u32| #[trigger]
                    rest.contains_key(q) <==> exists|j: int|
                        idx + 1 <= j < it.seq().len() && *it.seq()[j].0 == q by {
                    if exists|j: int| idx + 1 <= j < it.seq().len() && *it.seq()[j].0 == q {
                        let j = choose|j: int| idx + 1 <= j < it.seq().len() && *it.seq()[j].0 == q;
                        assert(it.seq()[j] != it.seq()[idx]);
                        assert(m.contains_key(*it.seq()[j].0));
                        assert(m.contains_key(*it.seq()[idx].0));
                    }
                    if rest.contains_key(q) {
                        let j = choose|j: int| idx <= j < it.seq().len() && *it.seq()[j].0 == q;
                        assert(j != idx);
                    }
                }
            }
        }
        proof {
            assert(rest =~= Map::<u32, ProcessFdStats>::empty());
            lemma_map_max_nonneg(rest, peak_fds_field());
        }
        total
    }

    /// Takes in the processes found in `/proc`: each entry name that stands
    /// for a process id the tracker does not know yet is offered to
    /// `has_open_fds`, and the process gets zero statistics if that says
    /// it has open descriptors. Known processes keep their statistics.
    pub fn scan_proc<F: Fn(u32) -> bool>(&mut self, entry_names: &Vec<Vec<u8>>, has_open_fds: F)
        requires
            old(self)@.wf(),
            forall|pid: u32| #[trigger] has_open_fds.requires((pid,)),
        ensures
            final(self)@.wf(),
            final(self)@ == (FdTrackerView {
                process_stats: final(self)@.process_stats,
                ..old(self)@
            }),
            forall|pid: u32| #[trigger]
                old(self)@.process_stats.contains_key(pid) ==> final(self)@.process_stats.contains_key(
                    pid,
                ) && final(self)@.process_stats[pid] == old(self)@.process_stats[pid],
            forall|pid: u32| #[trigger]
                final(self)@.process_stats.contains_key(pid) && !old(self)@.process_stats.contains_key(pid) ==> {
                    &&& names_pid(entry_names@, entry_names@.len() as int, pid)
                    &&& final(self)@.process_stats[pid] == ProcessFdStats::zero()
                    &&& has_open_fds.ensures((pid,), true)
                },
            forall|pid: u32|
                names_pid(entry_names@, entry_names@.len() as int, pid) && !old(self)@.process_stats.contains_key(pid) && !#[trigger] final(self)@.process_stats.contains_key(pid) ==> has_open_fds.ensures((pid,), false),
    {
        let ghost pre = self@;
        let n = entry_names.len();
        let mut i: usize = 0;
        while i < n
            invariant
                i <= n,
                n == entry_names@.len(),
                pre.wf(),
                self@.wf(),
                forall|pid: u32| #[trigger] has_open_fds.requires((pid,)),
                self@ == (FdTrackerView { process_stats: self@.process_stats, ..pre }),
                forall|pid: u32| #[trigger]
                    pre.process_stats.contains_key(pid) ==> self@.process_stats.contains_key(pid)
                        && self@.process_stats[pid] == pre.process_stats[pid],
                forall|pid: u32| #[trigger]
                    self@.process_stats.contains_key(pid) && !pre.process_stats.contains_key(pid) ==> {
                        &&& names_pid(entry_names@, i as int, pid)
                        &&& self@.process_stats[pid] == ProcessFdStats::zero()
                        &&& has_open_fds.ensures((pid,), true)
                    },
                forall|pid: u32|
                    names_pid(entry_names@, i as int, pid) && !pre.process_stats.contains_key(pid)
                        && !#[trigger] self@.process_stats.contains_key(pid) ==> has_open_fds.ensures(
                        (pid,),
                        false,
                    ),
            decreases n - i,
        {
            let parsed = parse_pid(entry_names[i].as_slice());
            match parsed {
                Some(pid) => {
                    if !self.process_stats.contains_key(&pid) {
                        if has_open_fds(pid) {
                            proof {
                                lemma_unknown_pid_has_no_fds(self@, pid);
                            }
                            self.process_stats.insert(pid, ProcessFdStats::default());
                        }
                    }
                },
                None => {},
            }
            proof {
                assert forall|pid: u32| names_pid(entry_names@, i + 1, pid) implies names_pid(
                    entry_names@,
                    i as int,
                    pid,
                ) || parsed == Some(pid) by {
                    let j = choose|j: int|
                        0 <= j < i + 1 && pid_from_name(#[trigger] entry_names@[j]@) == Some(pid);
                    if j < i {
                        assert(pid_from_name(entry_names@[j]@) == Some(pid));
                    }
                }
                assert forall|pid: u32| names_pid(entry_names@, i as int, pid) implies names_pid(
                    entry_names@,
                    i + 1,
                    pid,
                ) by {
                    let j = choose|j: int|
                        0 <= j < i && pid_from_name(#[trigger] entry_names@[j]@) == Some(pid);
                    assert(pid_from_name(entry_names@[j]@) == Some(pid));
                }
                if let Some(pid) = parsed {
                    assert(pid_from_name(entry_names@[i as int]@) == Some(pid));
                    assert(names_pid(entry_names@, i + 1, pid));
                }
            }
            i += 1;
        }
    }

    fn cached_keys(&self) -> (keys: Vec<u64>)
        ensures
            forall|k: u64| #[trigger] self@.path_cache.contains_key(k) ==> keys@.contains(k),
    {
        let ghost m = self@.path_cache;
        let mut keys: Vec<u64> = Vec::new();
        for k in it: self.path_cache.keys()
            invariant
                keys@.len() == it.index(),
                m == self@.path_cache,
                forall|i: int| 0 <= i < keys@.len() ==> keys@[i] == *it.seq()[i],
                forall|q: u64| #[trigger] m.contains_key(q) ==> it.seq().contains(&q),
                forall|q: u64| #[trigger]
                    m.contains_key(q) ==> keys@.contains(q) || (exists|j: int|
                    it.index() <= j < it.seq().len() && *it.seq()[j] == q),
        {
            let ghost before = keys@;
            keys.push(*k);
            proof {
                assert forall|q: u64| #[trigger] m.contains_key(q) implies keys@.contains(q) || (
                exists|j: int| it.index() + 1 <= j < it.seq().len() && *it.seq()[j] == q) by {
                    if before.contains(q) {
                        let i = choose|i: int| 0 <= i < before.len() && before[i] == q;
                        assert(keys@[i] == q);
                    } else if *k == q {
                        assert(keys@[before.len() as int] == q);
                    }
                }
            }
        }
        keys
    }
}

} // verus!
