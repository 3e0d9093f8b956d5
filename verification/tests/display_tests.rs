use sys_monitor::display::{fd_event_kind, latest, newest_first, FdEventKind};
use sys_monitor::events::{FD_OP_CLOSE, FD_OP_OPEN, FD_OP_READ, FD_OP_WRITE};

#[test]
fn descriptor_events_are_described_by_their_code() {
    assert_eq!(fd_event_kind(FD_OP_OPEN), FdEventKind::Opened);
    assert_eq!(fd_event_kind(FD_OP_CLOSE), FdEventKind::Closed);
    assert_eq!(fd_event_kind(FD_OP_READ), FdEventKind::Read);
    assert_eq!(fd_event_kind(FD_OP_WRITE), FdEventKind::Wrote);
    assert_eq!(fd_event_kind(4), FdEventKind::Unknown);
    assert_eq!(fd_event_kind(255), FdEventKind::Unknown);
}

#[test]
fn newest_events_come_first() {
    assert_eq!(newest_first(&vec![1, 2, 3]), vec![3, 2, 1]);
    assert_eq!(newest_first::<u8>(&vec![]), Vec::<u8>::new());
}

#[test]
fn latest_keeps_the_last_events_in_order() {
    let v: Vec<u32> = (0..60).collect();
    assert_eq!(latest(&v, 50), (10..60).collect::<Vec<u32>>());
    assert_eq!(latest(&v, 100), v);
    assert_eq!(latest(&v, 0), Vec::<u32>::new());
}
