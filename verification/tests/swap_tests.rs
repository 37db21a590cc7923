use fellm::error::FellmError;
use fellm::swap::{PinnedSwapArena, SwapCopy};

fn other(e: FellmError) -> String {
    match e {
        FellmError::Other(m) => m,
        _ => panic!("unexpected error kind"),
    }
}

#[test]
fn new_arena_geometry_and_errors() {
    let a = PinnedSwapArena::new(4, 256).unwrap();
    assert_eq!(a.free_count(), 4);
    assert_eq!(a.block_bytes(), 256);
    assert_eq!(a.total_bytes(), 1024);
    let one = PinnedSwapArena::new(0, 64).unwrap();
    assert_eq!(one.free_count(), 1);
    assert_eq!(other(PinnedSwapArena::new(4, 0).unwrap_err()), "PinnedSwapArena: block_bytes must be > 0");
    assert_eq!(other(PinnedSwapArena::new(2, usize::MAX).unwrap_err()), "PinnedSwapArena: size overflow");
}

#[test]
fn swap_out_hands_out_slot_zero_first() {
    let mut a = PinnedSwapArena::new(3, 100).unwrap();
    let c = a.reserve_swap_out(7).unwrap().unwrap();
    assert_eq!(c, SwapCopy { slot: 0, offset: 0 });
    a.commit_swap_out(7, c);
    assert!(a.contains(7));
    assert_eq!(a.free_count(), 2);
    assert_eq!(a.reserve_swap_out(7).unwrap(), None);
    let d = a.reserve_swap_out(9).unwrap().unwrap();
    assert_eq!(d, SwapCopy { slot: 1, offset: 100 });
    a.commit_swap_out(9, d);
    assert_eq!(a.free_count(), 1);
}

#[test]
fn swap_round_trip_restores_free_slots() {
    let mut a = PinnedSwapArena::new(2, 8).unwrap();
    let c = a.reserve_swap_out(5).unwrap().unwrap();
    a.commit_swap_out(5, c);
    let back = a.release_swap_in(5).unwrap();
    assert_eq!(back, c);
    assert!(!a.contains(5));
    a.commit_swap_in(back);
    assert_eq!(a.free_count(), 2);
    let again = a.reserve_swap_out(6).unwrap().unwrap();
    assert_eq!(again.slot, 0);
}

#[test]
fn swap_errors() {
    let mut a = PinnedSwapArena::new(1, 8).unwrap();
    assert_eq!(other(a.release_swap_in(3).unwrap_err()), "PinnedSwapArena: unknown physical id");
    let c = a.reserve_swap_out(1).unwrap().unwrap();
    a.commit_swap_out(1, c);
    assert_eq!(other(a.reserve_swap_out(2).unwrap_err()), "PinnedSwapArena: out of swap slots");
}
