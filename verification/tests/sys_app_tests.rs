use std::time::Duration;
use sys_monitor::events::{FileDescriptorEvent, MemoryEvent, FD_OP_OPEN};
use sys_monitor::input::KeyInput;
use sys_monitor::memory_tracker::MemoryTracker;
use sys_monitor::sys_app::{handle_key_events, App, EventHandler, TabState, DISPLAY_EVENT_LIMIT};

fn mem(pid: u32, address: u64, size: u64, timestamp: u64) -> MemoryEvent {
    MemoryEvent { pid, tid: pid, timestamp, address, size, is_alloc: true }
}

fn no_link(_pid: u32, _fd: i32) -> Option<String> {
    None
}

#[test]
fn new_app_starts_on_memory_tab() {
    let app = App::new();
    assert!(!app.should_quit);
    assert!(app.tab_state == TabState::Memory);
    assert_eq!(app.scroll_state, 0);
    assert!(!app.should_quit());
    assert!(app.tab_state() == TabState::Memory);
    assert_eq!(app.scroll_state(), 0);
    assert!(app.get_memory_events().is_empty());
    assert!(app.get_fd_events().is_empty());
    assert!(app.get_top_memory_processes(10).is_empty());
    assert!(app.get_top_fd_processes(10).is_empty());
}

#[test]
fn tabs_cycle_forward_and_back() {
    let mut app = App::new();
    app.next_tab();
    assert!(app.tab_state == TabState::FileDescriptors);
    app.next_tab();
    assert!(app.tab_state == TabState::Help);
    app.next_tab();
    assert!(app.tab_state == TabState::Memory);
    app.prev_tab();
    assert!(app.tab_state == TabState::Help);
    app.prev_tab();
    assert!(app.tab_state == TabState::FileDescriptors);
    app.prev_tab();
    assert!(app.tab_state == TabState::Memory);
}

#[test]
fn prev_tab_undoes_next_tab_and_resets_scroll() {
    for start in [TabState::Memory, TabState::FileDescriptors, TabState::Help] {
        let mut app = App::new();
        app.tab_state = start;
        app.scroll_state = 7;
        app.next_tab();
        assert_eq!(app.scroll_state, 0);
        app.prev_tab();
        assert!(app.tab_state == start);
        app.prev_tab();
        app.next_tab();
        assert!(app.tab_state == start);
    }
}

#[test]
fn scrolling_saturates_at_both_ends() {
    let mut app = App::new();
    app.scroll_up();
    assert_eq!(app.scroll_state, 0);
    app.scroll_down();
    app.scroll_down();
    assert_eq!(app.scroll_state, 2);
    app.scroll_up();
    assert_eq!(app.scroll_state, 1);
    app.scroll_state = usize::MAX;
    app.scroll_down();
    assert_eq!(app.scroll_state, usize::MAX);
    app.scroll_up();
    assert_eq!(app.scroll_state, usize::MAX - 1);
}

#[test]
fn quit_sets_the_flag() {
    let mut app = App::new();
    app.quit();
    assert!(app.should_quit);
    assert!(app.should_quit());
}

#[test]
fn keys_drive_the_interface() {
    let mut app = App::new();
    handle_key_events(KeyInput::Tab, &mut app);
    assert!(app.tab_state == TabState::FileDescriptors);
    handle_key_events(KeyInput::BackTab, &mut app);
    assert!(app.tab_state == TabState::Memory);
    handle_key_events(KeyInput::Char('j'), &mut app);
    handle_key_events(KeyInput::Down, &mut app);
    assert_eq!(app.scroll_state, 2);
    handle_key_events(KeyInput::Char('k'), &mut app);
    assert_eq!(app.scroll_state, 1);
    handle_key_events(KeyInput::Up, &mut app);
    assert_eq!(app.scroll_state, 0);
    handle_key_events(KeyInput::Char('x'), &mut app);
    handle_key_events(KeyInput::Other, &mut app);
    assert!(!app.should_quit);
    assert_eq!(app.scroll_state, 0);
    handle_key_events(KeyInput::Char('q'), &mut app);
    assert!(app.should_quit);
    let mut app2 = App::new();
    handle_key_events(KeyInput::Esc, &mut app2);
    assert!(app2.should_quit);
}

#[test]
fn memory_events_keep_the_last_hundred() {
    let mut app = App::new();
    for i in 0..(DISPLAY_EVENT_LIMIT as u64 + 5) {
        app.record_memory_event(mem(1, i, 10, i));
    }
    let events = app.get_memory_events();
    assert_eq!(events.len(), DISPLAY_EVENT_LIMIT);
    assert_eq!(events[0].1.timestamp, 5);
    assert_eq!(events[DISPLAY_EVENT_LIMIT - 1].1.timestamp, DISPLAY_EVENT_LIMIT as u64 + 4);
    for (t, _) in &events {
        assert!(!t.before_epoch);
        assert!(t.secs > 1_600_000_000);
        assert!(t.nanos < 1_000_000_000);
    }
    let top = app.get_top_memory_processes(10);
    assert_eq!(top.len(), 1);
    assert_eq!(top[0].0, 1);
    assert_eq!(top[0].1.current_allocated_bytes, 10 * (DISPLAY_EVENT_LIMIT as u64 + 5));
}

#[test]
fn fd_events_feed_the_descriptor_tracker() {
    let mut app = App::new();
    for (pid, fd) in [(3u32, 0), (4, 0), (4, 1)] {
        app.record_fd_event(
            FileDescriptorEvent { pid, tid: pid, timestamp: 0, fd, op_type: FD_OP_OPEN, count: 0 },
            no_link,
        );
    }
    assert_eq!(app.get_fd_events().len(), 3);
    let top: Vec<(u32, u32)> =
        app.get_top_fd_processes(10).iter().map(|(p, s)| (*p, s.open_fds)).collect();
    assert_eq!(top, vec![(4, 2), (3, 1)]);
}

#[test]
fn event_handler_keeps_its_tick_rate() {
    let h = EventHandler::new(Duration::from_millis(100));
    assert_eq!(h.tick_rate(), Duration::from_millis(100));
}

#[test]
fn interface_ranks_memory_as_its_tracker_does() {
    let mut app = App::new();
    let mut t = MemoryTracker::new();
    let sizes = [(1u32, 30u64), (2, 50), (3, 30), (4, 10), (5, 50), (6, 20)];
    for (i, (pid, size)) in sizes.iter().enumerate() {
        let e = mem(*pid, i as u64, *size, 0);
        app.record_memory_event(e);
        t.record_event(e);
    }
    let a = app.get_top_memory_processes(4);
    let b = t.get_top_processes(4);
    assert_eq!(a.len(), 4);
    assert_eq!(b.len(), 4);
    let held = |r: &Vec<(u32, &sys_monitor::memory_tracker::ProcessMemoryStats)>| {
        r.iter().map(|(_, s)| s.current_allocated_bytes).collect::<Vec<u64>>()
    };
    assert_eq!(held(&a), vec![50, 50, 30, 30]);
    assert_eq!(held(&a), held(&b));
}
