//! State of the process monitor's terminal interface.
use vstd::prelude::*;
use std::collections::HashMap;
use crate::input::{KeyInput, KeyPress};
use crate::proc_events::{FileEvent, MemoryEvent};
use crate::top::{is_top_ranking, rank_top};

verus! {

broadcast use vstd::std_specs::hash::group_hash_axioms;

/// How many of the latest events of each kind the interface shows.
pub const SHOWN_EVENTS: usize = 50;

/// What the interface asks of itself.
#[derive(Clone, Copy, Debug, PartialEq, Eq, Structural)]
pub enum AppEvent {
    Quit,
}

/// What the interface's main loop hands to the state.
#[derive(Clone, Copy, Debug)]
pub enum Event {
    /// the redraw timer fired
    Tick,
    /// a key was pressed
    Key(KeyPress),
    /// a request of the interface to itself
    App(AppEvent),
    /// the traced process opened a file
    FileOpen(FileEvent),
    /// the traced process allocated memory
    MemAlloc(MemoryEvent),
}

/// The request a key press makes: Esc, `q`, and Control+`c` (either case)
/// ask to quit; other keys ask nothing.
pub open spec fn key_request(key: KeyPress) -> Option<AppEvent> {
    match key.code {
        KeyInput::Esc | KeyInput::Char('q') => Some(AppEvent::Quit),
        KeyInput::Char('c') | KeyInput::Char('C') => if key.control_only {
            Some(AppEvent::Quit)
        } else {
            None
        },
        _ => None,
    }
}

/// The score by which threads rank for allocation: bytes allocated, and
/// among equal amounts the higher thread id first.
pub open spec fn tid_score(tid: u32, bytes: u64) -> int {
    bytes * 0x1_0000_0000 + tid
}

/// More bytes always rank a thread higher, whatever the thread ids; among
/// equal bytes the higher thread id ranks higher; and a score at least as
/// high as another's, for a different thread, means more bytes, or as many
/// bytes and a higher thread id.
pub proof fn lemma_tid_score_orders_by_bytes_then_tid(t1: u32, a: u64, t2: u32, b: u64)
    ensures
        a > b ==> tid_score(t1, a) > tid_score(t2, b),
        a == b && t1 > t2 ==> tid_score(t1, a) > tid_score(t2, b),
        tid_score(t1, a) >= tid_score(t2, b) && t1 != t2 ==> a > b || (a == b && t1 > t2),
{
    assert(a > b ==> a * 0x1_0000_0000 + t1 > b * 0x1_0000_0000 + t2) by (nonlinear_arith)
        requires
            t1 < 0x1_0000_0000,
            t2 < 0x1_0000_0000,
            t1 >= 0,
            t2 >= 0,
    ;
    assert(a < b ==> a * 0x1_0000_0000 + t1 < b * 0x1_0000_0000 + t2) by (nonlinear_arith)
        requires
            t1 < 0x1_0000_0000,
            t2 < 0x1_0000_0000,
            t1 >= 0,
            t2 >= 0,
    ;
}

/// A ranking of threads by allocation puts the threads that allocated more
/// bytes first, and among equal bytes the higher thread id first; every
/// thread left out allocated fewer bytes than each thread listed, or as many
/// with a lower thread id.
pub proof fn lemma_tid_ranking_by_bytes_then_tid(ids: Seq<u32>, m: Map<u32, u64>, limit: int)
    requires
        is_top_ranking(ids, m, limit, |tid: u32, bytes: u64| tid_score(tid, bytes)),
    ensures
        forall|i: int, j: int|
            #![trigger ids[i], ids[j]]
            0 <= i < j < ids.len() ==> m[ids[i]] > m[ids[j]] || (m[ids[i]] == m[ids[j]] && ids[i]
                > ids[j]),
        forall|tid: u32, i: int|
            #![trigger m.dom().contains(tid), ids[i]]
            m.dom().contains(tid) && !ids.contains(tid) && 0 <= i < ids.len() ==> m[tid] < m[ids[i]]
                || (m[tid] == m[ids[i]] && tid < ids[i]),
{
    assert forall|i: int, j: int|
        #![trigger ids[i], ids[j]]
        0 <= i < j < ids.len() implies m[ids[i]] > m[ids[j]] || (m[ids[i]] == m[ids[j]] && ids[i]
            > ids[j]) by {
        lemma_tid_score_orders_by_bytes_then_tid(ids[i], m[ids[i]], ids[j], m[ids[j]]);
    }
    assert forall|tid: u32, i: int|
        #![trigger m.dom().contains(tid), ids[i]]
        m.dom().contains(tid) && !ids.contains(tid) && 0 <= i < ids.len() implies m[tid]
            < m[ids[i]] || (m[tid] == m[ids[i]] && tid < ids[i]) by {
        lemma_tid_score_orders_by_bytes_then_tid(ids[i], m[ids[i]], tid, m[tid]);
        assert(ids[i] != tid);
    }
}

fn tid_score_of(tid: &u32, bytes: &u64) -> (r: u128)
    ensures
        r as int == tid_score(*tid, *bytes),
{
    *bytes as u128 * 0x1_0000_0000u128 + *tid as u128
}

/// Bytes that the memory events of thread `tid` in `events` allocated.
pub open spec fn tid_total(events: Seq<MemoryEvent>, tid: u32) -> int
    decreases events.len(),
{
    if events.len() == 0 {
        0
    } else {
        tid_total(events.drop_last(), tid) + if events.last().tid == tid {
            events.last().size as int
        } else {
            0
        }
    }
}

/// Some event in `events` comes from thread `tid`.
pub open spec fn has_tid(events: Seq<MemoryEvent>, tid: u32) -> bool {
    exists|i: int| 0 <= i < events.len() && #[trigger] events[i].tid == tid
}

/// The state of the process monitor's interface: whether it runs, and the
/// events received from the traced process.
pub struct App {
    pub running: bool,
    pub file_events: Vec<FileEvent>,
    pub mem_events: Vec<MemoryEvent>,
    /// bytes allocated by each thread
    pub mem_events_by_tid: HashMap<u32, u64>,
}

impl App {
    /// The bytes thread `tid` has allocated so far.
    pub open spec fn allocated_by(&self, tid: u32) -> int {
        if self.mem_events_by_tid@.contains_key(tid) {
            self.mem_events_by_tid@[tid] as int
        } else {
            0
        }
    }

    /// The per-thread totals are those of the recorded memory events: a
    /// thread has a total exactly when it has an event, and the total is
    /// the sum of its events' sizes.
    pub open spec fn totals_match_events(&self) -> bool {
        forall|tid: u32|
            #![trigger self.mem_events_by_tid@.contains_key(tid)]
            #![trigger self.allocated_by(tid)]
            (self.mem_events_by_tid@.contains_key(tid) <==> has_tid(self.mem_events@, tid))
                && self.allocated_by(tid) == tid_total(self.mem_events@, tid)
    }

    /// Taking in `event` keeps the allocation total of its thread in a `u64`.
    pub open spec fn accepts(&self, event: Event) -> bool {
        match event {
            Event::MemAlloc(ev) => self.allocated_by(ev.tid) + ev.size <= u64::MAX,
            _ => true,
        }
    }

    /// Whether taking in `event` keeps the thread totals within `u64`.
    pub fn can_handle(&self, event: &Event) -> (ok: bool)
        ensures
            ok == self.accepts(*event),
    {
        match event {
            Event::MemAlloc(ev) => match self.mem_events_by_tid.get(&ev.tid) {
                Some(b) => *b <= u64::MAX - ev.size as u64,
                None => true,
            },
            _ => true,
        }
    }

    /// A running interface with no events yet.
    pub fn new() -> (app: Self)
        ensures
            app.running,
            app.file_events@.len() == 0,
            app.mem_events@.len() == 0,
            app.mem_events_by_tid@ == Map::<u32, u64>::empty(),
            app.totals_match_events(),
    {
        Self::default()
    }

    /// Handles the redraw timer; nothing changes.
    pub fn tick(&self) {
    }

    /// Stops the interface.
    pub fn quit(&mut self)
        ensures
            !final(self).running,
            final(self).file_events@ == old(self).file_events@,
            final(self).mem_events@ == old(self).mem_events@,
            final(self).mem_events_by_tid@ == old(self).mem_events_by_tid@,
    {
        self.running = false;
    }

    /// The request a key press makes; the caller passes it back as
    /// [`Event::App`].
    pub fn handle_key_events(&self, key: KeyPress) -> (request: Option<AppEvent>)
        ensures
            request == key_request(key),
    {
        match key.code {
            KeyInput::Esc | KeyInput::Char('q') => Some(AppEvent::Quit),
            KeyInput::Char('c') | KeyInput::Char('C') => if key.control_only {
                Some(AppEvent::Quit)
            } else {
                None
            },
            _ => None,
        }
    }

    fn on_file_event(&mut self, ev: FileEvent)
        ensures
            final(self).running == old(self).running,
            final(self).file_events@ == old(self).file_events@.push(ev),
            final(self).mem_events@ == old(self).mem_events@,
            final(self).mem_events_by_tid@ == old(self).mem_events_by_tid@,
    {
        self.file_events.push(ev);
    }

    fn on_mem_event(&mut self, ev: MemoryEvent)
        requires
            old(self).allocated_by(ev.tid) + ev.size <= u64::MAX,
        ensures
            final(self).running == old(self).running,
            final(self).file_events@ == old(self).file_events@,
            final(self).mem_events@ == old(self).mem_events@.push(ev),
            final(self).mem_events_by_tid@ == old(self).mem_events_by_tid@.insert(
                ev.tid,
                (old(self).allocated_by(ev.tid) + ev.size) as u64,
            ),
            old(self).totals_match_events() ==> final(self).totals_match_events(),
    {
        let ghost pre_events = self.mem_events@;
        let before: u64 = match self.mem_events_by_tid.get(&ev.tid) {
            Some(b) => *b,
            None => 0,
        };
        self.mem_events_by_tid.insert(ev.tid, before + ev.size as u64);
        self.mem_events.push(ev);
        proof {
            assert(self.mem_events@.drop_last() =~= pre_events);
            assert forall|tid: u32| has_tid(self.mem_events@, tid) <==> has_tid(pre_events, tid)
                || ev.tid == tid by {
                if has_tid(self.mem_events@, tid) {
                    let i = choose|i: int|
                        0 <= i < self.mem_events@.len() && #[trigger] self.mem_events@[i].tid == tid;
                    if i < pre_events.len() {
                        assert(pre_events[i].tid == tid);
                    }
                }
                if has_tid(pre_events, tid) {
                    let i = choose|i: int| 0 <= i < pre_events.len() && #[trigger] pre_events[i].tid == tid;
                    assert(self.mem_events@[i].tid == tid);
                }
                if ev.tid == tid {
                    assert(self.mem_events@[pre_events.len() as int].tid == tid);
                }
            }
        }
    }

    /// Takes in one event of the main loop: a tick changes nothing, a key
    /// press returns its request, a quit request stops the interface, file
    /// and memory events are appended, a memory event also counting toward
    /// its thread's total.
    pub fn handle_event(&mut self, event: Event) -> (request: Option<AppEvent>)
        requires
            old(self).accepts(event),
        ensures
            request == match event {
                Event::Key(key) => key_request(key),
                _ => None,
            },
            final(self).running == match event {
                Event::App(AppEvent::Quit) => false,
                _ => old(self).running,
            },
            final(self).file_events@ == match event {
                Event::FileOpen(ev) => old(self).file_events@.push(ev),
                _ => old(self).file_events@,
            },
            final(self).mem_events@ == match event {
                Event::MemAlloc(ev) => old(self).mem_events@.push(ev),
                _ => old(self).mem_events@,
            },
            final(self).mem_events_by_tid@ == match event {
                Event::MemAlloc(ev) => old(self).mem_events_by_tid@.insert(
                    ev.tid,
                    (old(self).allocated_by(ev.tid) + ev.size) as u64,
                ),
                _ => old(self).mem_events_by_tid@,
            },
            old(self).totals_match_events() ==> final(self).totals_match_events(),
    {
        let result = match event {
            Event::Tick => {
                self.tick();
                None
            },
            Event::Key(key) => self.handle_key_events(key),
            Event::App(app_event) => match app_event {
                AppEvent::Quit => {
                    self.quit();
                    None
                },
            },
            Event::FileOpen(ev) => {
                self.on_file_event(ev);
                None
            },
            Event::MemAlloc(ev) => {
                self.on_mem_event(ev);
                None
            },
        };
        result
    }

    /// The threads that allocated the most bytes, at most `n` of them,
    /// most first (the higher thread id first among equal amounts), each
    /// with its total.
    pub fn get_top_allocating_tids(&self, n: usize) -> (r: Vec<(u32, u64)>)
        ensures
            is_top_ranking(
                r@.map_values(|p: (u32, u64)| p.0),
                self.mem_events_by_tid@,
                n as int,
                |tid: u32, bytes: u64| tid_score(tid, bytes),
            ),
            forall|i: int|
                0 <= i < r@.len() ==> (#[trigger] r@[i]).1 == self.mem_events_by_tid@[r@[i].0],
            forall|i: int, j: int|
                0 <= i < j < r@.len() ==> (#[trigger] r@[i]).1 > (#[trigger] r@[j]).1 || (r@[i].1
                    == r@[j].1 && r@[i].0 > r@[j].0),
            forall|tid: u32, i: int|
                #![trigger self.mem_events_by_tid@.dom().contains(tid), r@[i]]
                self.mem_events_by_tid@.dom().contains(tid) && !r@.map_values(|p: (u32, u64)| p.0).contains(
                    tid,
                ) && 0 <= i < r@.len() ==> self.mem_events_by_tid@[tid] < r@[i].1 || (
                self.mem_events_by_tid@[tid] == r@[i].1 && tid < r@[i].0),
    {
        let ids = rank_top(
            &self.mem_events_by_tid,
            n,
            tid_score_of,
            Ghost(|tid: u32, bytes: u64| tid_score(tid, bytes)),
        );
        let mut r: Vec<(u32, u64)> = Vec::new();
        let mut i: usize = 0;
        while i < ids.len()
            invariant
                i <= ids@.len(),
                r@.len() == i,
                forall|j: int| 0 <= j < ids@.len() ==> self.mem_events_by_tid@.contains_key(#[trigger] ids@[j]),
                forall|j: int| 0 <= j < i ==> r@[j].0 == ids@[j],
                forall|j: int| 0 <= j < i ==> r@[j].1 == self.mem_events_by_tid@[r@[j].0],
            decreases ids@.len() - i,
        {
            let tid = ids[i];
            let bytes = *self.mem_events_by_tid.get(&tid).unwrap();
            r.push((tid, bytes));
            i += 1;
        }
        assert(r@.map_values(|p: (u32, u64)| p.0) =~= ids@);
        proof {
            lemma_tid_ranking_by_bytes_then_tid(ids@, self.mem_events_by_tid@, n as int);
            assert forall|i: int, j: int| 0 <= i < j < r@.len() implies (#[trigger] r@[i]).1 > (
            #[trigger] r@[j]).1 || (r@[i].1 == r@[j].1 && r@[i].0 > r@[j].0) by {
                assert(ids@[i] == r@[i].0 && ids@[j] == r@[j].0);
            }
            assert forall|tid: u32, i: int|
                #![trigger self.mem_events_by_tid@.dom().contains(tid), r@[i]]
                self.mem_events_by_tid@.dom().contains(tid) && !r@.map_values(|p: (u32, u64)| p.0).contains(
                    tid,
                ) && 0 <= i < r@.len() implies self.mem_events_by_tid@[tid] < r@[i].1 || (
                self.mem_events_by_tid@[tid] == r@[i].1 && tid < r@[i].0) by {
                assert(ids@[i] == r@[i].0);
            }
        }
        r
    }
}

impl Default for App {
    fn default() -> (app: Self)
        ensures
            app.running,
            app.file_events@.len() == 0,
            app.mem_events@.len() == 0,
            app.mem_events_by_tid@ == Map::<u32, u64>::empty(),
            app.totals_match_events(),
    {
        App {
            running: true,
            file_events: Vec::new(),
            mem_events: Vec::new(),
            mem_events_by_tid: HashMap::new(),
        }
    }
}

} // verus!
