use sys_monitor::display::latest;
use sys_monitor::input::{KeyInput, KeyPress};
use sys_monitor::proc_app::{App, AppEvent, Event, SHOWN_EVENTS};
use sys_monitor::proc_events::{FileEvent, MemoryEvent};

fn mem(tid: u32, size: u32) -> MemoryEvent {
    MemoryEvent { pid: 1, tid, timestamp: 0, address: 0x1000, size, is_alloc: true }
}

fn key(code: KeyInput, control_only: bool) -> KeyPress {
    KeyPress { code, control_only }
}

#[test]
fn new_app_runs_with_no_events() {
    let app = App::new();
    assert!(app.running);
    assert!(app.file_events.is_empty());
    assert!(app.mem_events.is_empty());
    assert!(app.mem_events_by_tid.is_empty());
    assert!(app.get_top_allocating_tids(10).is_empty());
    app.tick();
}

#[test]
fn quit_keys_request_quit() {
    let app = App::new();
    assert_eq!(app.handle_key_events(key(KeyInput::Esc, false)), Some(AppEvent::Quit));
    assert_eq!(app.handle_key_events(key(KeyInput::Char('q'), false)), Some(AppEvent::Quit));
    assert_eq!(app.handle_key_events(key(KeyInput::Char('c'), true)), Some(AppEvent::Quit));
    assert_eq!(app.handle_key_events(key(KeyInput::Char('C'), true)), Some(AppEvent::Quit));
    assert_eq!(app.handle_key_events(key(KeyInput::Char('c'), false)), None);
    assert_eq!(app.handle_key_events(key(KeyInput::Char('x'), true)), None);
    assert_eq!(app.handle_key_events(key(KeyInput::Tab, false)), None);
}

#[test]
fn events_update_the_state() {
    let mut app = App::new();
    assert_eq!(app.handle_event(Event::Tick), None);
    assert!(app.running);
    assert_eq!(app.handle_event(Event::Key(key(KeyInput::Char('q'), false))), Some(AppEvent::Quit));
    assert!(app.running);
    let fe = FileEvent { pid: 1, tid: 2, timestamp: 3, filename: [b'a'; 128] };
    assert_eq!(app.handle_event(Event::FileOpen(fe)), None);
    assert_eq!(app.file_events.len(), 1);
    assert_eq!(app.file_events[0].filename[0], b'a');
    assert_eq!(app.handle_event(Event::MemAlloc(mem(7, 100))), None);
    assert_eq!(app.handle_event(Event::MemAlloc(mem(7, 50))), None);
    assert_eq!(app.handle_event(Event::MemAlloc(mem(8, 0))), None);
    assert_eq!(app.mem_events.len(), 3);
    assert_eq!(app.mem_events_by_tid.get(&7), Some(&150));
    assert_eq!(app.mem_events_by_tid.get(&8), Some(&0));
    assert_eq!(app.handle_event(Event::App(AppEvent::Quit)), None);
    assert!(!app.running);
}

#[test]
fn per_thread_totals_are_sums_of_event_sizes() {
    let mut app = App::new();
    let sizes = [(1u32, 10u32), (2, 20), (1, 5), (3, 1), (2, 2)];
    for (tid, size) in sizes {
        app.handle_event(Event::MemAlloc(mem(tid, size)));
    }
    for tid in 1..=3u32 {
        let sum: u64 = app.mem_events.iter().filter(|e| e.tid == tid).map(|e| e.size as u64).sum();
        assert_eq!(app.mem_events_by_tid[&tid], sum);
    }
    assert_eq!(app.mem_events_by_tid.len(), 3);
}

#[test]
fn top_allocating_threads_most_first_ties_by_higher_tid() {
    let mut app = App::new();
    for (tid, size) in [(5u32, 100u32), (7, 100), (9, 300), (2, 1)] {
        app.handle_event(Event::MemAlloc(mem(tid, size)));
    }
    assert_eq!(app.get_top_allocating_tids(10), vec![(9, 300), (7, 100), (5, 100), (2, 1)]);
    assert_eq!(app.get_top_allocating_tids(2), vec![(9, 300), (7, 100)]);
    assert!(app.get_top_allocating_tids(0).is_empty());
}

#[test]
fn quit_stops_the_interface() {
    let mut app = App::default();
    app.quit();
    assert!(!app.running);
}

#[test]
fn display_shows_the_latest_memory_events() {
    let mut app = App::new();
    for i in 0..70u32 {
        app.handle_event(Event::MemAlloc(mem(i, 1)));
    }
    let shown = latest(&app.mem_events, SHOWN_EVENTS);
    assert_eq!(shown.len(), 50);
    assert_eq!(shown[0].tid, 20);
    assert_eq!(shown[49].tid, 69);
}
