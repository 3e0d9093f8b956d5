use sys_monitor::events::MemoryEvent;
use sys_monitor::memory_tracker::{MemoryTracker, ProcessMemoryStats};

fn allocation(pid: u32, address: u64, size: u64) -> MemoryEvent {
    MemoryEvent { pid, tid: pid, timestamp: 1, address, size, is_alloc: true }
}

fn release(pid: u32, address: u64) -> MemoryEvent {
    MemoryEvent { pid, tid: pid, timestamp: 2, address, size: 0, is_alloc: false }
}

fn stats_of(t: &MemoryTracker, pid: u32) -> ProcessMemoryStats {
    *t.get_top_processes(usize::MAX).into_iter().find(|(p, _)| *p == pid).unwrap().1
}

#[test]
fn new_tracker_is_empty() {
    let t = MemoryTracker::new();
    assert!(t.get_top_processes(10).is_empty());
    let d = MemoryTracker::default();
    assert!(d.get_top_processes(10).is_empty());
}

#[test]
fn allocations_are_charged_to_their_process() {
    let mut t = MemoryTracker::new();
    t.record_event(allocation(1, 0x1000, 100));
    t.record_event(allocation(2, 0x2000, 300));
    t.record_event(allocation(1, 0x3000, 50));
    let s1 = stats_of(&t, 1);
    assert_eq!(s1, ProcessMemoryStats {
        total_allocations: 2,
        current_allocated_bytes: 150,
        peak_allocated_bytes: 150,
        total_allocated_bytes: 150,
    });
    let s2 = stats_of(&t, 2);
    assert_eq!(s2.current_allocated_bytes, 300);
    assert_eq!(s2.total_allocations, 1);
}

#[test]
fn top_processes_rank_by_bytes_held() {
    let mut t = MemoryTracker::new();
    t.record_event(allocation(1, 0x1000, 100));
    t.record_event(allocation(2, 0x2000, 300));
    t.record_event(allocation(3, 0x3000, 200));
    let top: Vec<u32> = t.get_top_processes(10).iter().map(|(p, _)| *p).collect();
    assert_eq!(top, vec![2, 3, 1]);
    let top2: Vec<u32> = t.get_top_processes(2).iter().map(|(p, _)| *p).collect();
    assert_eq!(top2, vec![2, 3]);
    assert!(t.get_top_processes(0).is_empty());
}

#[test]
fn release_credits_bytes_back_and_keeps_peak() {
    let mut t = MemoryTracker::new();
    t.record_event(allocation(1, 0x1000, 100));
    t.record_event(allocation(1, 0x2000, 50));
    t.record_event(release(1, 0x1000));
    let s = stats_of(&t, 1);
    assert_eq!(s.current_allocated_bytes, 50);
    assert_eq!(s.peak_allocated_bytes, 150);
    assert_eq!(s.total_allocated_bytes, 150);
    assert_eq!(s.total_allocations, 2);
}

#[test]
fn release_of_unknown_address_changes_nothing() {
    let mut t = MemoryTracker::new();
    t.record_event(allocation(1, 0x1000, 100));
    t.record_event(release(1, 0x9999));
    assert_eq!(stats_of(&t, 1).current_allocated_bytes, 100);
    // a second release of the same address finds nothing left
    t.record_event(release(1, 0x1000));
    t.record_event(release(1, 0x1000));
    assert_eq!(stats_of(&t, 1).current_allocated_bytes, 0);
}

#[test]
fn release_is_credited_to_the_allocating_process() {
    let mut t = MemoryTracker::new();
    t.record_event(allocation(1, 0x1000, 100));
    // another process reports the release
    t.record_event(release(7, 0x1000));
    assert_eq!(stats_of(&t, 1).current_allocated_bytes, 0);
    assert_eq!(t.get_top_processes(10).len(), 1);
}

#[test]
fn release_undoes_allocation_law() {
    let mut t = MemoryTracker::new();
    t.record_event(allocation(4, 0x10, 40));
    let before = stats_of(&t, 4);
    t.record_event(allocation(4, 0x20, 60));
    t.record_event(release(4, 0x20));
    let after = stats_of(&t, 4);
    assert_eq!(after.current_allocated_bytes, before.current_allocated_bytes);
    assert_eq!(after.total_allocations, before.total_allocations + 1);
    assert_eq!(after.total_allocated_bytes, before.total_allocated_bytes + 60);
}

#[test]
fn counters_stay_consistent() {
    let mut t = MemoryTracker::new();
    for i in 0..20u64 {
        t.record_event(allocation(1, i, i * 3));
        if i % 3 == 0 {
            t.record_event(release(1, i / 2));
        }
    }
    let s = stats_of(&t, 1);
    assert!(s.current_allocated_bytes <= s.peak_allocated_bytes);
    assert!(s.peak_allocated_bytes <= s.total_allocated_bytes);
}

#[test]
fn release_undoes_allocation_and_raises_peak() {
    let mut t = MemoryTracker::new();
    t.record_event(allocation(4, 0x10, 40));
    t.record_event(allocation(4, 0x18, 30));
    t.record_event(release(4, 0x18));
    let before = stats_of(&t, 4);
    assert_eq!((before.current_allocated_bytes, before.peak_allocated_bytes), (40, 70));
    t.record_event(allocation(4, 0x20, 50));
    t.record_event(release(4, 0x20));
    let after = stats_of(&t, 4);
    assert_eq!(after.current_allocated_bytes, 40);
    assert_eq!(after.peak_allocated_bytes, 90);
    assert_eq!(after.total_allocations, 3);
    assert_eq!(after.total_allocated_bytes, 120);
    t.record_event(release(4, 0x10));
    assert_eq!(stats_of(&t, 4).current_allocated_bytes, 0);
}

#[test]
fn default_stats_are_zero() {
    let s = ProcessMemoryStats::default();
    assert_eq!(s.total_allocations, 0);
    assert_eq!(s.current_allocated_bytes, 0);
    assert_eq!(s.peak_allocated_bytes, 0);
    assert_eq!(s.total_allocated_bytes, 0);
}

