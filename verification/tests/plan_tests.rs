use fellm::dtype::DType;
use fellm::plan::{align_up, plan_static_arena, PlanTensorDesc, PlanTensorId, StorageClass};

fn tensor(id: u32, bytes: u64, first: u32, last: u32) -> PlanTensorDesc {
    PlanTensorDesc {
        id: PlanTensorId(id),
        dtype: DType::U8,
        shape: vec![bytes],
        alignment: 64,
        storage: StorageClass::Transient,
        first_use: first,
        last_use: last,
    }
}

#[test]
fn reuses_non_overlapping_lifetimes() {
    let plan = plan_static_arena(&[
        tensor(0, 1024, 0, 3),
        tensor(1, 1024, 4, 7),
        tensor(2, 512, 2, 5),
    ])
    .unwrap();
    let a = plan.arena.iter().find(|s| s.tensor.0 == 0).unwrap();
    let b = plan.arena.iter().find(|s| s.tensor.0 == 1).unwrap();
    assert_eq!(a.offset, b.offset);
    assert_eq!(plan.arena_bytes, 1536);
}

#[test]
fn overlapping_lifetimes_never_alias() {
    let plan = plan_static_arena(&[tensor(0, 256, 0, 2), tensor(1, 256, 2, 4)]).unwrap();
    assert_ne!(plan.arena[0].offset, plan.arena[1].offset);
}

#[test]
fn overlapping_slots_are_disjoint_and_aligned() {
    let ts = vec![
        tensor(0, 100, 0, 9),
        tensor(1, 300, 1, 2),
        tensor(2, 50, 2, 6),
        tensor(3, 1000, 3, 4),
        tensor(4, 64, 5, 9),
    ];
    let plan = plan_static_arena(&ts).unwrap();
    assert_eq!(plan.arena.len(), 5);
    for a in &plan.arena {
        assert_eq!(a.offset % 64, 0);
        assert!(a.offset + a.size <= plan.arena_bytes);
        for b in &plan.arena {
            if a.tensor != b.tensor && a.first_use <= b.last_use && b.first_use <= a.last_use {
                assert!(a.offset + a.size <= b.offset || b.offset + b.size <= a.offset);
            }
        }
    }
    assert_eq!(plan.arena_bytes % 256, 0);
}

#[test]
fn inverted_lifetime_is_rejected() {
    assert!(plan_static_arena(&[tensor(0, 16, 5, 1)]).is_err());
}

#[test]
fn non_transient_tensors_are_not_planned() {
    let mut c = tensor(0, 4096, 0, 1);
    c.storage = StorageClass::Constant;
    let plan = plan_static_arena(&[c, tensor(1, 16, 0, 1)]).unwrap();
    assert_eq!(plan.arena.len(), 1);
    assert_eq!(plan.arena[0].tensor, PlanTensorId(1));
    assert_eq!(plan.arena_bytes, 256);
}

#[test]
fn plan_align_up_rounds_to_power_of_two() {
    assert_eq!(align_up(0, 64).unwrap(), 0);
    assert_eq!(align_up(1, 64).unwrap(), 64);
    assert_eq!(align_up(65, 64).unwrap(), 128);
    assert_eq!(align_up(7, 0).unwrap(), 7);
    assert!(align_up(5, 48).is_err());
    assert!(align_up(usize::MAX, 64).is_err());
}
