use fellm::error::FellmError;
use fellm::paging::{KvArenaGeometry, PageTableMirror};

#[test]
fn kv_arena_geometry() {
    let g = KvArenaGeometry::new(4, 8, 64).unwrap();
    assert_eq!(g.tokens_stride, 512);
    assert_eq!(g.block_bytes, 2 * 16 * 512 * 4);
    assert_eq!(g.total_bytes, 4 * 65536);
    assert_eq!(KvArenaGeometry::new(1, 0, 0).unwrap().tokens_stride, 1);
    match KvArenaGeometry::new(0, 8, 64) {
        Err(FellmError::Other(m)) => assert_eq!(m, "DeviceKvArena: n_blocks must be > 0"),
        _ => panic!("expected an error"),
    }
    match KvArenaGeometry::new(usize::MAX / 1000, 8, 64) {
        Err(FellmError::Other(m)) => assert_eq!(m, "DeviceKvArena: size overflow"),
        _ => panic!("expected an overflow"),
    }
}

#[test]
fn page_table_spreads_layers_at_the_stride() {
    let mut m = PageTableMirror::new(8, 2);
    assert_eq!(m.stride(), 4);
    let table = [1, 2, 3, 7, 8, 9];
    assert_eq!(m.prepare(&table, 2, 3).unwrap(), true);
    assert_eq!(m.staged_entries(), &[1, 2, 3, u32::MAX, 7, 8, 9, u32::MAX]);
    m.commit(&table);
    assert_eq!(m.prepare(&table, 2, 3).unwrap(), false);
    assert_eq!(m.prepare(&[5, 6], 2, 1).unwrap(), true);
    assert_eq!(m.staged_entries(), &[5, u32::MAX, u32::MAX, u32::MAX, 6, u32::MAX, u32::MAX, u32::MAX]);
}

#[test]
fn page_table_errors() {
    let mut m = PageTableMirror::new(4, 2);
    match m.prepare(&[0; 5], 1, 5) {
        Err(FellmError::Other(msg)) => assert_eq!(msg, "device page table capacity exceeded: 5 > 4"),
        _ => panic!("expected an error"),
    }
    match m.prepare(&[0, 1, 2], 2, 2) {
        Err(FellmError::Other(msg)) => assert_eq!(msg, "invalid compact page-table dimensions"),
        _ => panic!("expected an error"),
    }
    match m.prepare(&[0, 1, 2], 1, 3) {
        Err(FellmError::Other(msg)) => assert_eq!(msg, "invalid compact page-table dimensions"),
        _ => panic!("expected an error"),
    }
}
