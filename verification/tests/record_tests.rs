use sys_monitor::records::{
    decode_file_event, decode_memory_event, decode_proc_memory_event, FILE_RECORD_LEN,
    MEMORY_RECORD_LEN, PROC_MEMORY_RECORD_LEN,
};

#[test]
fn system_memory_record_fields_are_little_endian() {
    let mut b = vec![0u8; MEMORY_RECORD_LEN];
    b[0..4].copy_from_slice(&0x0102_0304u32.to_le_bytes());
    b[4..8].copy_from_slice(&7u32.to_le_bytes());
    b[8..16].copy_from_slice(&0x1122_3344_5566_7788u64.to_le_bytes());
    b[16..24].copy_from_slice(&0xdead_beefu64.to_le_bytes());
    b[24..32].copy_from_slice(&u64::MAX.to_le_bytes());
    b[32] = 1;
    let e = decode_memory_event(&b);
    assert_eq!((e.pid, e.tid, e.timestamp, e.address, e.size, e.is_alloc),
        (0x0102_0304, 7, 0x1122_3344_5566_7788, 0xdead_beef, u64::MAX, true));
    b[32] = 0;
    assert!(!decode_memory_event(&b).is_alloc);
}

#[test]
fn process_memory_record_fields() {
    let mut b = vec![0u8; PROC_MEMORY_RECORD_LEN];
    b[0..4].copy_from_slice(&42u32.to_le_bytes());
    b[4..8].copy_from_slice(&43u32.to_le_bytes());
    b[8..16].copy_from_slice(&5u64.to_le_bytes());
    b[16..24].copy_from_slice(&0x7f00_0000_1000u64.to_le_bytes());
    b[24..28].copy_from_slice(&4096u32.to_le_bytes());
    b[28] = 1;
    let e = decode_proc_memory_event(&b);
    assert_eq!((e.pid, e.tid, e.timestamp, e.address, e.size, e.is_alloc),
        (42, 43, 5, 0x7f00_0000_1000, 4096, true));
}

#[test]
fn file_record_carries_the_name() {
    let mut b = vec![0u8; FILE_RECORD_LEN + 3];
    b[0..4].copy_from_slice(&1u32.to_le_bytes());
    b[4..8].copy_from_slice(&2u32.to_le_bytes());
    b[8..16].copy_from_slice(&3u64.to_le_bytes());
    b[16..26].copy_from_slice(b"/etc/hosts");
    b[FILE_RECORD_LEN - 1] = b'!';
    let e = decode_file_event(&b);
    assert_eq!((e.pid, e.tid, e.timestamp), (1, 2, 3));
    assert_eq!(&e.filename[..10], b"/etc/hosts");
    assert_eq!(e.filename[10], 0);
    assert_eq!(e.filename[127], b'!');
}
