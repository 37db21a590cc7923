use fellm::error::FellmError;
use fellm::fabric::{Placement, WeightBlob, WeightPacking};
use fellm::plan::PlanTensorId;

fn blob(id: u64, tensor: u32, len: usize, alignment: usize) -> WeightBlob {
    WeightBlob { id, tensor: PlanTensorId(tensor), len, alignment }
}

#[test]
fn weights_pack_once_each_aligned() {
    let blobs = [blob(1, 10, 100, 32), blob(2, 11, 50, 512), blob(1, 12, 100, 32), blob(3, 13, 10, 0)];
    let p = WeightPacking::pack(&blobs).unwrap();
    assert_eq!(p.resolve(PlanTensorId(10)).unwrap(), Placement { offset: 0, len: 100 });
    assert_eq!(p.resolve(PlanTensorId(11)).unwrap(), Placement { offset: 512, len: 50 });
    assert_eq!(p.resolve(PlanTensorId(12)).unwrap(), Placement { offset: 0, len: 100 });
    assert_eq!(p.resolve(PlanTensorId(13)).unwrap(), Placement { offset: 640, len: 10 });
    assert_eq!(p.byte_len(), 768);
}

#[test]
fn empty_packing_and_unknown_tensors() {
    let p = WeightPacking::pack(&[]).unwrap();
    assert_eq!(p.byte_len(), 0);
    match p.resolve(PlanTensorId(1)) {
        Err(FellmError::Other(m)) => assert_eq!(m, "model tensor has no logical WeightId"),
        _ => panic!("expected an error"),
    }
}

#[test]
fn bad_alignment_or_overflow_fails() {
    assert!(matches!(WeightPacking::pack(&[blob(1, 1, 8, 200)]), Err(FellmError::Other(_))));
    match WeightPacking::pack(&[blob(1, 1, 8, 128), blob(2, 2, usize::MAX - 64, 128)]) {
        Err(FellmError::Other(m)) => assert_eq!(m, "CUDA weight replica size overflow"),
        _ => panic!("expected an overflow"),
    }
}

use fellm::dtype::DType;
use fellm::fabric::resolve_arena;
use fellm::plan::{ArenaSlot, PlanTensorDesc, StorageClass};

fn desc(id: u32, dtype: DType, shape: Vec<u64>) -> PlanTensorDesc {
    PlanTensorDesc {
        id: PlanTensorId(id),
        dtype,
        shape,
        alignment: 64,
        storage: StorageClass::Transient,
        first_use: 0,
        last_use: 1,
    }
}

fn slot(id: u32, offset: usize) -> ArenaSlot {
    ArenaSlot { tensor: PlanTensorId(id), offset, size: 0, alignment: 64, first_use: 0, last_use: 1 }
}

#[test]
fn arena_tensors_get_row_major_byte_strides() {
    let tensors = [desc(1, DType::F32, vec![2, 3, 4]), desc(2, DType::F16, vec![8])];
    let out = resolve_arena(&[slot(2, 256), slot(1, 0)], &tensors).unwrap();
    assert_eq!(out.len(), 2);
    assert_eq!(out[0].offset_bytes, 256);
    assert_eq!(out[0].strides, vec![2]);
    assert_eq!(out[1].shape, vec![2, 3, 4]);
    assert_eq!(out[1].strides, vec![48, 16, 4]);
}

#[test]
fn arena_resolution_errors() {
    let tensors = [desc(1, DType::Q4K, vec![256]), desc(2, DType::F32, vec![u64::MAX, 2])];
    let err = |r: Result<Vec<fellm::fabric::ArenaTensor>, FellmError>| match r {
        Err(FellmError::Other(m)) => m,
        _ => panic!("expected an error"),
    };
    assert_eq!(err(resolve_arena(&[slot(9, 0)], &tensors)), "arena slot has no tensor descriptor");
    assert_eq!(
        err(resolve_arena(&[slot(1, 0)], &tensors)),
        "quantized values are model allocations, not strided activation arena tensors"
    );
    assert_eq!(err(resolve_arena(&[slot(2, 0)], &tensors)), "device tensor stride overflow");
}
