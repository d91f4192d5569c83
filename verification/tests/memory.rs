use omo::memory::MemoryState;

#[test]
fn read_unwritten_is_zero() {
    let m = MemoryState::new();
    assert_eq!(m.read_bytes(0x1000, 4), vec![0, 0, 0, 0]);
    assert_eq!(m.read_bytes(0x1002, 2), vec![0, 0]);
    assert_eq!(m.read_bytes(0x1003, 1), vec![0]);
}

#[test]
fn write_then_read_word() {
    let mut m = MemoryState::new();
    m.write_value(0x1000, 4, 0xAABBCCDD);
    assert_eq!(m.read_bytes(0x1000, 4), vec![0xAA, 0xBB, 0xCC, 0xDD]);
    assert_eq!(m.read_bytes(0x1000, 2), vec![0xAA, 0xBB]);
    assert_eq!(m.read_bytes(0x1002, 2), vec![0xCC, 0xDD]);
    assert_eq!(m.read_bytes(0x1001, 1), vec![0xBB]);
}

#[test]
fn partial_writes_land_inside_their_word() {
    let mut m = MemoryState::new();
    m.write_value(0x1003, 1, 0x2A);
    assert_eq!(m.read_bytes(0x1000, 4), vec![0, 0, 0, 0x2A]);
    m.write_value(0x1000, 2, 0x1234);
    assert_eq!(m.read_bytes(0x1000, 4), vec![0x12, 0x34, 0, 0x2A]);
    m.write_value(0x1002, 1, 0xFF);
    assert_eq!(m.read_bytes(0x1000, 4), vec![0x12, 0x34, 0xFF, 0x2A]);
}

#[test]
fn write_truncates_to_its_size() {
    let mut m = MemoryState::new();
    m.write_value(0x2000, 1, 0xABCD);
    assert_eq!(m.read_bytes(0x2000, 1), vec![0xCD]);
    assert_eq!(m.read_bytes(0x2000, 4), vec![0xCD, 0, 0, 0]);
}

#[test]
fn overwrite_replaces_previous_value() {
    let mut m = MemoryState::new();
    m.write_value(0x3000, 4, 0x01020304);
    m.write_value(0x3000, 4, 0x0A0B0C0D);
    assert_eq!(m.read_bytes(0x3000, 4), vec![0x0A, 0x0B, 0x0C, 0x0D]);
    assert_eq!(m.len(), 1);
}

#[test]
fn snapshot_is_an_independent_copy() {
    let mut m = MemoryState::new();
    m.write_value(0, 4, 1);
    let s = m.snapshot();
    m.write_value(0, 4, 2);
    assert_eq!(s.read_bytes(0, 4), vec![0, 0, 0, 1]);
    assert_eq!(m.read_bytes(0, 4), vec![0, 0, 0, 2]);
}

#[test]
fn cells_are_kept_sorted_by_address() {
    let mut m = MemoryState::new();
    m.write_value(0x3000, 4, 3);
    m.write_value(0x1000, 4, 1);
    m.write_value(0x2000, 4, 2);
    let addrs: Vec<u64> = m.entries().iter().map(|c| c.0).collect();
    assert_eq!(addrs, vec![0x1000, 0x2000, 0x3000]);
}
