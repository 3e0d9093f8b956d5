//! State of the system monitor's terminal interface.
use vstd::prelude::*;
use std::collections::VecDeque;
use std::time::Duration;
use crate::clock::{WallTime, wall_clock_now};
use crate::events::{FileDescriptorEvent, MemoryEvent};
use crate::fd_tracker::{FdTracker, FdTrackerView, ProcessFdStats, keep_last, open_fds_score};
use crate::input::KeyInput;
use crate::memory_tracker::{MemoryTracker, MemoryTrackerView, ProcessMemoryStats, memory_score};
use crate::top::is_top_ranking;

verus! {

/// How many events of each kind the interface keeps for display.
pub const DISPLAY_EVENT_LIMIT: usize = 100;

/// The tabs of the interface.
#[derive(Clone, Copy, Debug, PartialEq, Eq, Structural)]
pub enum TabState {
    Memory,
    FileDescriptors,
    Help,
}

/// The tab after `t`, wrapping around.
pub open spec fn tab_after(t: TabState) -> TabState {
    match t {
        TabState::Memory => TabState::FileDescriptors,
        TabState::FileDescriptors => TabState::Help,
        TabState::Help => TabState::Memory,
    }
}

/// The tab before `t`, wrapping around.
pub open spec fn tab_before(t: TabState) -> TabState {
    match t {
        TabState::Memory => TabState::Help,
        TabState::FileDescriptors => TabState::Memory,
        TabState::Help => TabState::FileDescriptors,
    }
}

/// Going to the next tab and then the previous one comes back to where it
/// started, and so does the other way round.
pub proof fn lemma_tab_steps_undo(t: TabState)
    ensures
        tab_before(tab_after(t)) == t,
        tab_after(tab_before(t)) == t,
{
}

/// The scroll offset one line further down, stopping at the largest offset.
pub open spec fn scrolled_down(offset: usize) -> usize {
    if offset < usize::MAX {
        (offset + 1) as usize
    } else {
        usize::MAX
    }
}

/// The scroll offset one line further up, stopping at the top.
pub open spec fn scrolled_up(offset: usize) -> usize {
    if offset > 0 {
        (offset - 1) as usize
    } else {
        0
    }
}

/// Scrolling up undoes scrolling down, except at the largest offset; and
/// scrolling down undoes scrolling up, except at the top.
pub proof fn lemma_scroll_steps_undo(offset: usize)
    ensures
        offset < usize::MAX ==> scrolled_up(scrolled_down(offset)) == offset,
        offset > 0 ==> scrolled_down(scrolled_up(offset)) == offset,
{
}

/// Three steps forward visit every tab and come back.
pub proof fn lemma_tabs_cycle(t: TabState)
    ensures
        tab_after(tab_after(tab_after(t))) == t,
        tab_after(t) != t,
        tab_after(tab_after(t)) != t,
{
}

/// The contents of the interface state.
pub struct AppView {
    pub should_quit: bool,
    pub tab_state: TabState,
    pub scroll_state: usize,
    pub memory: MemoryTrackerView,
    pub fds: FdTrackerView,
    /// the latest memory events, oldest first, with the instants they arrived
    pub memory_events: Seq<(WallTime, MemoryEvent)>,
    /// the latest descriptor events, oldest first, with the instants they arrived
    pub fd_events: Seq<(WallTime, FileDescriptorEvent)>,
}

impl AppView {
    /// Both trackers are well formed and at most [`DISPLAY_EVENT_LIMIT`]
    /// events of each kind are kept.
    pub open spec fn wf(self) -> bool {
        &&& self.memory.wf()
        &&& self.fds.wf()
        &&& self.memory_events.len() <= DISPLAY_EVENT_LIMIT
        &&& self.fd_events.len() <= DISPLAY_EVENT_LIMIT
    }

    /// The state after the memory `event` arrived at `now`: it joins the
    /// displayed events, of which the last [`DISPLAY_EVENT_LIMIT`] stay,
    /// and the memory tracker takes it in.
    pub open spec fn after_memory_event(self, event: MemoryEvent, now: WallTime) -> AppView {
        AppView {
            memory_events: keep_last(self.memory_events.push((now, event)), DISPLAY_EVENT_LIMIT as nat),
            memory: self.memory.after_event(event),
            ..self
        }
    }

    /// The state after the descriptor `event` arrived at `now`: it joins
    /// the displayed events, and the descriptor tracker records it at
    /// `recorded`, with `looked_up` as the path found for it.
    pub open spec fn after_fd_event(
        self,
        event: FileDescriptorEvent,
        now: WallTime,
        recorded: WallTime,
        looked_up: Option<String>,
    ) -> AppView {
        AppView {
            fd_events: keep_last(self.fd_events.push((now, event)), DISPLAY_EVENT_LIMIT as nat),
            fds: self.fds.after_event(event, recorded, looked_up),
            ..self
        }
    }
}

/// The state of the system monitor's interface: which tab is shown, how
/// far it is scrolled, whether to quit, and the monitoring data.
pub struct App {
    pub should_quit: bool,
    pub tab_state: TabState,
    pub scroll_state: usize,
    memory_tracker: MemoryTracker,
    fd_tracker: FdTracker,
    memory_events: VecDeque<(WallTime, MemoryEvent)>,
    fd_events: VecDeque<(WallTime, FileDescriptorEvent)>,
}

impl View for App {
    type V = AppView;

    closed spec fn view(&self) -> AppView {
        AppView {
            should_quit: self.should_quit,
            tab_state: self.tab_state,
            scroll_state: self.scroll_state,
            memory: self.memory_tracker@,
            fds: self.fd_tracker@,
            memory_events: self.memory_events@,
            fd_events: self.fd_events@,
        }
    }
}

impl App {
    /// Whether the interface is to quit.
    pub fn should_quit(&self) -> (b: bool)
        ensures
            b == self@.should_quit,
    {
        self.should_quit
    }

    /// The tab shown.
    pub fn tab_state(&self) -> (t: TabState)
        ensures
            t == self@.tab_state,
    {
        self.tab_state
    }

    /// How far the shown tab is scrolled.
    pub fn scroll_state(&self) -> (n: usize)
        ensures
            n == self@.scroll_state,
    {
        self.scroll_state
    }

    /// The interface at start: memory tab, not scrolled, no data.
    pub fn new() -> (app: Self)
        ensures
            app@.wf(),
            !app@.should_quit,
            app@.tab_state == TabState::Memory,
            app@.scroll_state == 0,
            app@.memory.allocations == Map::<u64, crate::memory_tracker::MemoryAllocation>::empty(),
            app@.memory.process_stats == Map::<u32, ProcessMemoryStats>::empty(),
            app@.fds.active_fds == Map::<u64, crate::fd_tracker::FileDescriptor>::empty(),
            app@.fds.process_stats == Map::<u32, ProcessFdStats>::empty(),
            app@.fds.recent_events.len() == 0,
            app@.fds.history_limit == crate::fd_tracker::HISTORY_LIMIT,
            app@.fds.path_cache == Map::<u64, String>::empty(),
            app@.memory_events.len() == 0,
            app@.fd_events.len() == 0,
    {
        App {
            should_quit: false,
            tab_state: TabState::Memory,
            scroll_state: 0,
            memory_tracker: MemoryTracker::new(),
            fd_tracker: FdTracker::new(),
            memory_events: VecDeque::with_capacity(DISPLAY_EVENT_LIMIT),
            fd_events: VecDeque::with_capacity(DISPLAY_EVENT_LIMIT),
        }
    }

    /// Whether recording the memory `event` keeps every counter within its
    /// type.
    pub fn can_record_memory_event(&self, event: MemoryEvent) -> (ok: bool)
        ensures
            ok == self@.memory.accepts(event),
    {
        self.memory_tracker.can_record(event)
    }

    /// Whether recording the descriptor `event` keeps every counter within
    /// its type.
    pub fn can_record_fd_event(&self, event: FileDescriptorEvent) -> (ok: bool)
        ensures
            ok == self@.fds.accepts(event),
    {
        self.fd_tracker.can_record(event)
    }

    /// Records a memory event: it joins the displayed events, stamped with
    /// the current time, and the memory tracker takes it in.
    pub fn record_memory_event(&mut self, event: MemoryEvent)
        requires
            old(self)@.wf(),
            old(self)@.memory.accepts(event),
        ensures
            final(self)@.wf(),
            exists|now: WallTime|
                {
                    &&& now.wf()
                    &&& final(self)@ == #[trigger] old(self)@.after_memory_event(event, now)
                },
    {
        let now = wall_clock_now();
        let ghost pre = self@;
        self.memory_events.push_back((now, event));
        if self.memory_events.len() > DISPLAY_EVENT_LIMIT {
            self.memory_events.pop_front();
        }
        assert(self.memory_events@ =~= keep_last(pre.memory_events.push((now, event)), DISPLAY_EVENT_LIMIT as nat));
        self.memory_tracker.record_event(event);
        assert(self@ == pre.after_memory_event(event, now));
    }

    /// Records a descriptor event: it joins the displayed events, stamped
    /// with the current time, and the descriptor tracker takes it in;
    /// `read_link` resolves the path of a newly opened descriptor.
    pub fn record_fd_event<F: Fn(u32, i32) -> Option<String>>(
        &mut self,
        event: FileDescriptorEvent,
        read_link: F,
    )
        requires
            old(self)@.wf(),
            old(self)@.fds.accepts(event),
            forall|pid: u32, fd: i32| #[trigger] read_link.requires((pid, fd)),
        ensures
            final(self)@.wf(),
            exists|now: WallTime, recorded: WallTime, looked_up: Option<String>|
                {
                    &&& now.wf()
                    &&& recorded.wf()
                    &&& old(self)@.fds.path_lookup_needed(event) ==> read_link.ensures(
                        (event.pid, event.fd),
                        looked_up,
                    )
                    &&& final(self)@ == #[trigger] old(self)@.after_fd_event(
                        event,
                        now,
                        recorded,
                        looked_up,
                    )
                },
    {
        let now = wall_clock_now();
        let ghost pre = self@;
        self.fd_events.push_back((now, event));
        if self.fd_events.len() > DISPLAY_EVENT_LIMIT {
            self.fd_events.pop_front();
        }
        assert(self.fd_events@ =~= keep_last(pre.fd_events.push((now, event)), DISPLAY_EVENT_LIMIT as nat));
        let ghost fds_before = self.fd_tracker@;
        self.fd_tracker.record_event(event, read_link);
        proof {
            let (recorded, looked_up) = choose|recorded: WallTime, looked_up: Option<String>|
                {
                    &&& recorded.wf()
                    &&& fds_before.path_lookup_needed(event) ==> read_link.ensures(
                        (event.pid, event.fd),
                        looked_up,
                    )
                    &&& self.fd_tracker@ == #[trigger] fds_before.after_event(event, recorded, looked_up)
                };
            assert(self@ == pre.after_fd_event(event, now, recorded, looked_up));
        }
    }

    /// The displayed memory events, oldest first.
    pub fn get_memory_events(&self) -> (r: Vec<(WallTime, MemoryEvent)>)
        ensures
            r@ == self@.memory_events,
    {
        let mut r: Vec<(WallTime, MemoryEvent)> = Vec::new();
        let mut i: usize = 0;
        while i < self.memory_events.len()
            invariant
                i <= self.memory_events@.len(),
                r@ == self.memory_events@.take(i as int),
            decreases self.memory_events@.len() - i,
        {
            r.push(self.memory_events[i]);
            i += 1;
        }
        assert(self.memory_events@.take(i as int) =~= self.memory_events@);
        r
    }

    /// The displayed descriptor events, oldest first.
    pub fn get_fd_events(&self) -> (r: Vec<(WallTime, FileDescriptorEvent)>)
        ensures
            r@ == self@.fd_events,
    {
        let mut r: Vec<(WallTime, FileDescriptorEvent)> = Vec::new();
        let mut i: usize = 0;
        while i < self.fd_events.len()
            invariant
                i <= self.fd_events@.len(),
                r@ == self.fd_events@.take(i as int),
            decreases self.fd_events@.len() - i,
        {
            r.push(self.fd_events[i]);
            i += 1;
        }
        assert(self.fd_events@.take(i as int) =~= self.fd_events@);
        r
    }

    /// The processes holding the most memory; see
    /// [`MemoryTracker::get_top_processes`].
    pub fn get_top_memory_processes(&self, limit: usize) -> (r: Vec<(u32, &ProcessMemoryStats)>)
        ensures
            is_top_ranking(
                r@.map_values(|p: (u32, &ProcessMemoryStats)| p.0),
                self@.memory.process_stats,
                limit as int,
                |pid: u32, s: ProcessMemoryStats| memory_score(s),
            ),
            forall|i: int|
                0 <= i < r@.len() ==> *(#[trigger] r@[i]).1 == self@.memory.process_stats[r@[i].0],
            forall|i: int, j: int|
                0 <= i < j < r@.len() ==> (#[trigger] r@[i]).1.current_allocated_bytes
                    >= (#[trigger] r@[j]).1.current_allocated_bytes,
            forall|pid: u32, i: int|
                #![trigger self@.memory.process_stats.dom().contains(pid), r@[i]]
                self@.memory.process_stats.dom().contains(pid) && !r@.map_values(
                    |p: (u32, &ProcessMemoryStats)| p.0,
                ).contains(pid) && 0 <= i < r@.len()
                    ==> self@.memory.process_stats[pid].current_allocated_bytes
                    <= r@[i].1.current_allocated_bytes,
    {
        self.memory_tracker.get_top_processes(limit)
    }

    /// The processes with the most open descriptors; see
    /// [`FdTracker::get_top_processes_by_fds`].
    pub fn get_top_fd_processes(&self, limit: usize) -> (r: Vec<(u32, ProcessFdStats)>)
        ensures
            is_top_ranking(
                r@.map_values(|p: (u32, ProcessFdStats)| p.0),
                self@.fds.process_stats,
                limit as int,
                |pid: u32, s: ProcessFdStats| open_fds_score(s),
            ),
            forall|i: int|
                0 <= i < r@.len() ==> (#[trigger] r@[i]).1 == self@.fds.process_stats[r@[i].0],
            forall|i: int, j: int|
                0 <= i < j < r@.len() ==> (#[trigger] r@[i]).1.open_fds >= (#[trigger] r@[j]).1.open_fds,
            forall|pid: u32, i: int|
                #![trigger self@.fds.process_stats.dom().contains(pid), r@[i]]
                self@.fds.process_stats.dom().contains(pid) && !r@.map_values(
                    |p: (u32, ProcessFdStats)| p.0,
                ).contains(pid) && 0 <= i < r@.len() ==> self@.fds.process_stats[pid].open_fds
                    <= r@[i].1.open_fds,
    {
        self.fd_tracker.get_top_processes_by_fds(limit)
    }

    /// Shows the next tab, scrolled to the top.
    pub fn next_tab(&mut self)
        ensures
            final(self)@ == (AppView {
                tab_state: tab_after(old(self)@.tab_state),
                scroll_state: 0,
                ..old(self)@
            }),
    {
        self.tab_state = match self.tab_state {
            TabState::Memory => TabState::FileDescriptors,
            TabState::FileDescriptors => TabState::Help,
            TabState::Help => TabState::Memory,
        };
        self.scroll_state = 0;
    }

    /// Shows the previous tab, scrolled to the top.
    pub fn prev_tab(&mut self)
        ensures
            final(self)@ == (AppView {
                tab_state: tab_before(old(self)@.tab_state),
                scroll_state: 0,
                ..old(self)@
            }),
    {
        self.tab_state = match self.tab_state {
            TabState::Memory => TabState::Help,
            TabState::FileDescriptors => TabState::Memory,
            TabState::Help => TabState::FileDescriptors,
        };
        self.scroll_state = 0;
    }

    /// Scrolls one line down, stopping at the largest offset.
    pub fn scroll_down(&mut self)
        ensures
            final(self)@ == (AppView {
                scroll_state: scrolled_down(old(self)@.scroll_state),
                ..old(self)@
            }),
    {
        self.scroll_state = self.scroll_state.saturating_add(1);
    }

    /// Scrolls one line up, stopping at the top.
    pub fn scroll_up(&mut self)
        ensures
            final(self)@ == (AppView {
                scroll_state: scrolled_up(old(self)@.scroll_state),
                ..old(self)@
            }),
    {
        self.scroll_state = self.scroll_state.saturating_sub(1);
    }

    /// Asks the interface to quit.
    pub fn quit(&mut self)
        ensures
            final(self)@ == (AppView { should_quit: true, ..old(self)@ }),
    {
        self.should_quit = true;
    }
}

/// Applies a key press to the interface: `q` or Esc quits, Tab and
/// Shift+Tab change tabs, `j` or Down and `k` or Up scroll; other keys do
/// nothing.
pub fn handle_key_events(key: KeyInput, app: &mut App)
    ensures
        match key {
            KeyInput::Char('q') | KeyInput::Esc => final(app)@ == (AppView {
                should_quit: true,
                ..old(app)@
            }),
            KeyInput::Tab => final(app)@ == (AppView {
                tab_state: tab_after(old(app)@.tab_state),
                scroll_state: 0,
                ..old(app)@
            }),
            KeyInput::BackTab => final(app)@ == (AppView {
                tab_state: tab_before(old(app)@.tab_state),
                scroll_state: 0,
                ..old(app)@
            }),
            KeyInput::Down | KeyInput::Char('j') => final(app)@ == (AppView {
                scroll_state: scrolled_down(old(app)@.scroll_state),
                ..old(app)@
            }),
            KeyInput::Up | KeyInput::Char('k') => final(app)@ == (AppView {
                scroll_state: scrolled_up(old(app)@.scroll_state),
                ..old(app)@
            }),
            _ => final(app)@ == old(app)@,
        },
{
    match key {
        KeyInput::Char('q') | KeyInput::Esc => {
            app.quit();
        },
        KeyInput::Tab => {
            app.next_tab();
        },
        KeyInput::BackTab => {
            app.prev_tab();
        },
        KeyInput::Down | KeyInput::Char('j') => {
            app.scroll_down();
        },
        KeyInput::Up | KeyInput::Char('k') => {
            app.scroll_up();
        },
        _ => {},
    }
}

/// What the interface's loop waits for: a key press or the redraw timer.
#[derive(Clone, Copy, Debug, PartialEq, Eq, Structural)]
pub enum Event {
    Key(KeyInput),
    Tick,
}

/// Waits for input for at most its tick rate between two redraws.
pub struct EventHandler {
    tick_rate: Duration,
}

impl View for EventHandler {
    type V = Duration;

    closed spec fn view(&self) -> Duration {
        self.tick_rate
    }
}

impl EventHandler {
    /// A handler that waits at most `tick_rate` for a key.
    pub fn new(tick_rate: Duration) -> (h: Self)
        ensures
            h@ == tick_rate,
    {
        EventHandler { tick_rate }
    }

    /// How long the handler waits for a key before a tick.
    pub fn tick_rate(&self) -> (d: Duration)
        ensures
            d == self@,
    {
        self.tick_rate
    }
}

} // verus!
