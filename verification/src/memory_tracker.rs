//! Per-process accounting of kernel memory allocations.
use vstd::prelude::*;
use std::collections::HashMap;
use crate::events::MemoryEvent;
use crate::sums::{map_sum, lemma_map_sum_insert, lemma_map_sum_remove, lemma_map_sum_nonneg, lemma_map_sum_zero};
use crate::top::{is_top_ranking, rank_top};

verus! {

broadcast use vstd::std_specs::hash::group_hash_axioms;

/// A live allocation: who made it, when, and how large it is.
#[derive(Clone, Copy, Debug, PartialEq, Eq, Structural)]
pub struct MemoryAllocation {
    pub pid: u32,
    pub timestamp: u64,
    pub size: u64,
}

/// Allocation statistics of one process.
#[derive(Clone, Copy, Debug, PartialEq, Eq, Structural)]
pub struct ProcessMemoryStats {
    pub total_allocations: u64,
    pub current_allocated_bytes: u64,
    pub peak_allocated_bytes: u64,
    pub total_allocated_bytes: u64,
}

impl ProcessMemoryStats {
    /// The statistics of a process that has not allocated yet.
    pub open spec fn zero() -> Self {
        ProcessMemoryStats {
            total_allocations: 0,
            current_allocated_bytes: 0,
            peak_allocated_bytes: 0,
            total_allocated_bytes: 0,
        }
    }

    /// The counters can take one more allocation of `size` bytes.
    pub open spec fn can_allocate(self, size: u64) -> bool {
        &&& self.total_allocations < u64::MAX
        &&& self.current_allocated_bytes + size <= u64::MAX
        &&& self.total_allocated_bytes + size <= u64::MAX
    }

    /// The statistics after one more allocation of `size` bytes.
    pub open spec fn allocated(self, size: u64) -> Self {
        let current = (self.current_allocated_bytes + size) as u64;
        ProcessMemoryStats {
            total_allocations: (self.total_allocations + 1) as u64,
            current_allocated_bytes: current,
            peak_allocated_bytes: if current > self.peak_allocated_bytes {
                current
            } else {
                self.peak_allocated_bytes
            },
            total_allocated_bytes: (self.total_allocated_bytes + size) as u64,
        }
    }

    /// The statistics after `size` bytes were released (saturating at zero).
    pub open spec fn released(self, size: u64) -> Self {
        ProcessMemoryStats {
            current_allocated_bytes: if self.current_allocated_bytes >= size {
                (self.current_allocated_bytes - size) as u64
            } else {
                0
            },
            ..self
        }
    }

    /// What the counters always satisfy: the bytes held now never exceed the
    /// peak, and the peak never exceeds the bytes ever allocated.
    pub open spec fn consistent(self) -> bool {
        &&& self.current_allocated_bytes <= self.peak_allocated_bytes
        &&& self.peak_allocated_bytes <= self.total_allocated_bytes
    }
}

impl Default for ProcessMemoryStats {
    fn default() -> (s: Self)
        ensures
            s == ProcessMemoryStats::zero(),
    {
        ProcessMemoryStats {
            total_allocations: 0,
            current_allocated_bytes: 0,
            peak_allocated_bytes: 0,
            total_allocated_bytes: 0,
        }
    }
}

/// The contents of a [`MemoryTracker`].
pub struct MemoryTrackerView {
    /// live allocations by address
    pub allocations: Map<u64, MemoryAllocation>,
    /// statistics by process id
    pub process_stats: Map<u32, ProcessMemoryStats>,
}

impl MemoryTrackerView {
    /// The statistics of `pid`, zero where the process is not known.
    pub open spec fn stats_of(self, pid: u32) -> ProcessMemoryStats {
        if self.process_stats.contains_key(pid) {
            self.process_stats[pid]
        } else {
            ProcessMemoryStats::zero()
        }
    }

    /// Bytes of the live allocations of process `pid`.
    pub open spec fn live_bytes(self, pid: u32) -> int {
        map_sum(self.allocations, live_bytes_of(pid))
    }

    /// Both maps are finite; every process's counters are consistent and
    /// cover the bytes of its live allocations; every live allocation
    /// belongs to a process with statistics.
    pub open spec fn wf(self) -> bool {
        &&& self.allocations.dom().finite()
        &&& self.process_stats.dom().finite()
        &&& forall|pid: u32| #[trigger]
            self.process_stats.contains_key(pid) ==> self.process_stats[pid].consistent()
                && self.live_bytes(pid) <= self.process_stats[pid].current_allocated_bytes
        &&& forall|addr: u64| #[trigger]
            self.allocations.contains_key(addr) ==> self.process_stats.contains_key(
                self.allocations[addr].pid,
            )
    }

    /// Recording `event` keeps every counter within its integer type.
    pub open spec fn accepts(self, event: MemoryEvent) -> bool {
        event.is_alloc ==> self.stats_of(event.pid).can_allocate(event.size)
    }

    /// The tracker after `event`: an allocation is stored under its address
    /// and charged to its process; a release of a known address forgets the
    /// allocation and credits its size back to the process that made it;
    /// a release of an unknown address changes nothing.
    pub open spec fn after_event(self, event: MemoryEvent) -> MemoryTrackerView {
        if event.is_alloc {
            MemoryTrackerView {
                allocations: self.allocations.insert(
                    event.address,
                    MemoryAllocation { pid: event.pid, timestamp: event.timestamp, size: event.size },
                ),
                process_stats: self.process_stats.insert(
                    event.pid,
                    self.stats_of(event.pid).allocated(event.size),
                ),
            }
        } else if self.allocations.contains_key(event.address) {
            let a = self.allocations[event.address];
            MemoryTrackerView {
                allocations: self.allocations.remove(event.address),
                process_stats: if self.process_stats.contains_key(a.pid) {
                    self.process_stats.insert(a.pid, self.process_stats[a.pid].released(a.size))
                } else {
                    self.process_stats
                },
            }
        } else {
            self
        }
    }
}

/// The size of an allocation of process `pid`, 0 for other processes.
pub open spec fn live_bytes_of(pid: u32) -> spec_fn(MemoryAllocation) -> int {
    |a: MemoryAllocation| if a.pid == pid {
        a.size as int
    } else {
        0
    }
}

/// Recording an event the tracker accepts keeps it well formed.
pub proof fn lemma_event_keeps_wf(v: MemoryTrackerView, event: MemoryEvent)
    requires
        v.wf(),
        v.accepts(event),
    ensures
        v.after_event(event).wf(),
{
    let w = v.after_event(event);
    if event.is_alloc {
        let a = MemoryAllocation { pid: event.pid, timestamp: event.timestamp, size: event.size };
        assert forall|pid: u32| #[trigger] w.process_stats.contains_key(pid) implies w.process_stats[
            pid
        ].consistent() && w.live_bytes(pid) <= w.process_stats[pid].current_allocated_bytes by {
            lemma_map_sum_insert(v.allocations, event.address, a, live_bytes_of(pid));
            if v.allocations.contains_key(event.address) {
                assert(v.process_stats.contains_key(v.allocations[event.address].pid));
            }
            if pid == event.pid && !v.process_stats.contains_key(pid) {
                assert forall|k: u64| #[trigger] v.allocations.contains_key(k) implies (live_bytes_of(
                    pid,
                ))(v.allocations[k]) == 0 by {
                    assert(v.process_stats.contains_key(v.allocations[k].pid));
                }
                lemma_map_sum_zero(v.allocations, live_bytes_of(pid));
            }
        }
    } else if v.allocations.contains_key(event.address) {
        let a = v.allocations[event.address];
        assert forall|pid: u32| #[trigger] w.process_stats.contains_key(pid) implies w.process_stats[
            pid
        ].consistent() && w.live_bytes(pid) <= w.process_stats[pid].current_allocated_bytes by {
            lemma_map_sum_remove(v.allocations, event.address, live_bytes_of(pid));
            lemma_map_sum_nonneg(v.allocations.remove(event.address), live_bytes_of(pid));
        }
    }
}

/// Releasing an allocation undoes its effect on the memory held: the
/// address is no longer live (where it was not live before, the live
/// allocations are those of before) and the process holds as many bytes
/// as before; the counts of allocations and of bytes ever allocated keep
/// it, and the peak is the higher of the old peak and the bytes held
/// while the allocation was live.
pub proof fn lemma_release_undoes_allocation(
    v: MemoryTrackerView,
    alloc: MemoryEvent,
    release: MemoryEvent,
)
    requires
        v.wf(),
        alloc.is_alloc,
        v.accepts(alloc),
        !release.is_alloc,
        release.address == alloc.address,
    ensures
        ({
            let after = v.after_event(alloc).after_event(release);
            &&& after.allocations == v.allocations.remove(alloc.address)
            &&& after.stats_of(alloc.pid).current_allocated_bytes == v.stats_of(
                alloc.pid,
            ).current_allocated_bytes
            &&& after.stats_of(alloc.pid).total_allocations == v.stats_of(alloc.pid).total_allocations
                + 1
            &&& after.stats_of(alloc.pid).total_allocated_bytes == v.stats_of(
                alloc.pid,
            ).total_allocated_bytes + alloc.size
            &&& after.stats_of(alloc.pid).peak_allocated_bytes == if v.stats_of(
                alloc.pid,
            ).current_allocated_bytes + alloc.size > v.stats_of(alloc.pid).peak_allocated_bytes {
                v.stats_of(alloc.pid).current_allocated_bytes + alloc.size
            } else {
                v.stats_of(alloc.pid).peak_allocated_bytes as int
            }
            &&& !v.allocations.contains_key(alloc.address) ==> after.allocations == v.allocations
        }),
{
    let mid = v.after_event(alloc);
    assert(mid.allocations.contains_key(alloc.address));
    assert(mid.allocations[alloc.address].pid == alloc.pid);
    assert(v.after_event(alloc).after_event(release).allocations =~= v.allocations.remove(
        alloc.address,
    ));
    if !v.allocations.contains_key(alloc.address) {
        assert(v.allocations.remove(alloc.address) =~= v.allocations);
    }
}

/// A ranking for memory use puts the processes that hold more bytes now
/// first: each process listed holds at least as many bytes as every process
/// listed after it and as every process left out.
pub proof fn lemma_memory_ranking_by_bytes_held(
    ids: Seq<u32>,
    m: Map<u32, ProcessMemoryStats>,
    limit: int,
)
    requires
        is_top_ranking(ids, m, limit, |pid: u32, s: ProcessMemoryStats| memory_score(s)),
    ensures
        forall|i: int, j: int|
            #![trigger ids[i], ids[j]]
            0 <= i < j < ids.len() ==> m[ids[i]].current_allocated_bytes
                >= m[ids[j]].current_allocated_bytes,
        forall|pid: u32, i: int|
            #![trigger m.dom().contains(pid), ids[i]]
            m.dom().contains(pid) && !ids.contains(pid) && 0 <= i < ids.len()
                ==> m[pid].current_allocated_bytes <= m[ids[i]].current_allocated_bytes,
{
}

/// Tracks live kernel allocations and per-process allocation statistics.
pub struct MemoryTracker {
    allocations: HashMap<u64, MemoryAllocation>,
    process_stats: HashMap<u32, ProcessMemoryStats>,
}

impl View for MemoryTracker {
    type V = MemoryTrackerView;

    closed spec fn view(&self) -> MemoryTrackerView {
        MemoryTrackerView { allocations: self.allocations@, process_stats: self.process_stats@ }
    }
}

/// The score by which processes rank for memory use: bytes held now.
pub open spec fn memory_score(s: ProcessMemoryStats) -> int {
    s.current_allocated_bytes as int
}

fn memory_score_of(pid: &u32, s: &ProcessMemoryStats) -> (r: u128)
    ensures
        r as int == memory_score(*s),
{
    s.current_allocated_bytes as u128
}

impl MemoryTracker {
    /// An empty tracker.
    pub fn new() -> (t: Self)
        ensures
            t@.allocations == Map::<u64, MemoryAllocation>::empty(),
            t@.process_stats == Map::<u32, ProcessMemoryStats>::empty(),
            t@.wf(),
    {
        MemoryTracker { allocations: HashMap::new(), process_stats: HashMap::new() }
    }

    /// Whether recording `event` keeps every counter within its type.
    pub fn can_record(&self, event: MemoryEvent) -> (ok: bool)
        ensures
            ok == self@.accepts(event),
    {
        if !event.is_alloc {
            return true;
        }
        let s = self.stats_or_zero(event.pid);
        s.total_allocations < u64::MAX && s.current_allocated_bytes <= u64::MAX - event.size
            && s.total_allocated_bytes <= u64::MAX - event.size
    }

    /// Records an allocation or a release.
    pub fn record_event(&mut self, event: MemoryEvent)
        requires
            old(self)@.wf(),
            old(self)@.accepts(event),
        ensures
            final(self)@ == old(self)@.after_event(event),
            final(self)@.wf(),
    {
        proof {
            lemma_event_keeps_wf(self@, event);
        }
        if event.is_alloc {
            self.record_allocation(event);
        } else {
            self.record_free(event);
        }
    }

    fn stats_or_zero(&self, pid: u32) -> (s: ProcessMemoryStats)
        ensures
            s == self@.stats_of(pid),
    {
        match self.process_stats.get(&pid) {
            Some(s) => *s,
            None => ProcessMemoryStats::default(),
        }
    }

    fn record_allocation(&mut self, event: MemoryEvent)
        requires
            event.is_alloc,
            old(self)@.wf(),
            old(self)@.accepts(event),
        ensures
            final(self)@ == old(self)@.after_event(event),
    {
        self.allocations.insert(
            event.address,
            MemoryAllocation { pid: event.pid, timestamp: event.timestamp, size: event.size },
        );
        let mut stats = self.stats_or_zero(event.pid);
        stats.total_allocations += 1;
        stats.current_allocated_bytes += event.size;
        stats.total_allocated_bytes += event.size;
        if stats.current_allocated_bytes > stats.peak_allocated_bytes {
            stats.peak_allocated_bytes = stats.current_allocated_bytes;
        }
        self.process_stats.insert(event.pid, stats);
        assert(self@.process_stats == old(self)@.after_event(event).process_stats);
    }

    fn record_free(&mut self, event: MemoryEvent)
        requires
            !event.is_alloc,
            old(self)@.wf(),
        ensures
            final(self)@ == old(self)@.after_event(event),
    {
        let ghost pre = self@;
        if let Some(alloc) = self.allocations.remove(&event.address) {
            assert(alloc == pre.allocations[event.address]);
            match self.process_stats.get(&alloc.pid) {
                Some(s) => {
                    let mut stats = *s;
                    stats.current_allocated_bytes = stats.current_allocated_bytes.saturating_sub(
                        alloc.size,
                    );
                    self.process_stats.insert(alloc.pid, stats);
                    assert(stats == pre.process_stats[alloc.pid].released(alloc.size));
                },
                None => {},
            }
            assert(self@.allocations == pre.after_event(event).allocations);
            assert(self@.process_stats == pre.after_event(event).process_stats);
        } else {
            assert(self@.allocations =~= pre.allocations);
        }
    }

    /// The processes holding the most bytes now, at most `limit` of them,
    /// most first, each with its statistics.
    pub fn get_top_processes(&self, limit: usize) -> (r: Vec<(u32, &ProcessMemoryStats)>)
        ensures
            is_top_ranking(
                r@.map_values(|p: (u32, &ProcessMemoryStats)| p.0),
                self@.process_stats,
                limit as int,
                |pid: u32, s: ProcessMemoryStats| memory_score(s),
            ),
            forall|i: int|
                0 <= i < r@.len() ==> *(#[trigger] r@[i]).1 == self@.process_stats[r@[i].0],
            forall|i: int, j: int|
                0 <= i < j < r@.len() ==> (#[trigger] r@[i]).1.current_allocated_bytes
                    >= (#[trigger] r@[j]).1.current_allocated_bytes,
            forall|pid: u32, i: int|
                #![trigger self@.process_stats.dom().contains(pid), r@[i]]
                self@.process_stats.dom().contains(pid) && !r@.map_values(
                    |p: (u32, &ProcessMemoryStats)| p.0,
                ).contains(pid) && 0 <= i < r@.len()
                    ==> self@.process_stats[pid].current_allocated_bytes
                    <= r@[i].1.current_allocated_bytes,
    {
        let ids = rank_top(
            &self.process_stats,
            limit,
            memory_score_of,
            Ghost(|pid: u32, s: ProcessMemoryStats| memory_score(s)),
        );
        let mut r: Vec<(u32, &ProcessMemoryStats)> = Vec::new();
        let mut i: usize = 0;
        while i < ids.len()
            invariant
                i <= ids@.len(),
                r@.len() == i,
                forall|j: int| 0 <= j < ids@.len() ==> self@.process_stats.contains_key(#[trigger] ids@[j]),
                forall|j: int| 0 <= j < i ==> r@[j].0 == ids@[j],
                forall|j: int| 0 <= j < i ==> *r@[j].1 == self@.process_stats[r@[j].0],
            decreases ids@.len() - i,
        {
            let pid = ids[i];
            let stats = self.process_stats.get(&pid).unwrap();
            r.push((pid, stats));
            i += 1;
        }
        assert(r@.map_values(|p: (u32, &ProcessMemoryStats)| p.0) =~= ids@);
        proof {
            lemma_memory_ranking_by_bytes_held(ids@, self@.process_stats, limit as int);
            assert forall|i: int, j: int|
                0 <= i < j < r@.len() implies (#[trigger] r@[i]).1.current_allocated_bytes
                    >= (#[trigger] r@[j]).1.current_allocated_bytes by {
                assert(ids@[i] == r@[i].0 && ids@[j] == r@[j].0);
            }
            assert forall|pid: u32, i: int|
                #![trigger self@.process_stats.dom().contains(pid), r@[i]]
                self@.process_stats.dom().contains(pid) && !r@.map_values(
                    |p: (u32, &ProcessMemoryStats)| p.0,
                ).contains(pid) && 0 <= i < r@.len()
                    implies self@.process_stats[pid].current_allocated_bytes
                    <= r@[i].1.current_allocated_bytes by {
                assert(ids@[i] == r@[i].0);
            }
        }
        r
    }
}

impl Default for MemoryTracker {
    fn default() -> (t: Self)
        ensures
            t@.allocations == Map::<u64, MemoryAllocation>::empty(),
            t@.process_stats == Map::<u32, ProcessMemoryStats>::empty(),
            t@.wf(),
    {
        MemoryTracker::new()
    }
}

} // verus!
