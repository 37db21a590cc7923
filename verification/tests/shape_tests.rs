use fellm::dtype::DType;
use fellm::error::FellmError;
use fellm::shape::{Layout, Shape, Strides};

#[test]
fn strides_row_major() {
    let s = Shape::new(&[2, 3, 4]).unwrap();
    assert_eq!(s.row_major_strides().as_slice(), &[12, 4, 1]);
}

#[test]
fn num_elements() {
    assert_eq!(Shape::new(&[2, 3, 4]).unwrap().num_elements(), 24);
    assert_eq!(Shape::scalar().num_elements(), 1);
}

#[test]
fn rank_limit() {
    assert!(Shape::new(&[1, 2, 3, 4, 5, 6]).is_err());
}

#[test]
fn rank_limit_reports_rank() {
    match Shape::new(&[1, 2, 3, 4, 5, 6]) {
        Err(FellmError::RankTooHigh(n)) => assert_eq!(n, 6),
        other => panic!("{other:?}"),
    }
    assert_eq!(Shape::new(&[1, 2, 3, 4, 5]).unwrap().rank(), 5);
    assert!(Strides::new(&[1, 1, 1, 1, 1, 1]).is_err());
    assert_eq!(Strides::new(&[3, 1]).unwrap().as_slice(), &[3, 1]);
}

#[test]
fn dims_and_dim() {
    let s = Shape::new(&[7, 0, 9]).unwrap();
    assert_eq!(s.dims(), &[7, 0, 9]);
    assert_eq!(s.dim(2), 9);
    assert_eq!(s.num_elements(), 0);
    assert_eq!(s.row_major_strides().as_slice(), &[0, 9, 1]);
    assert_eq!(Shape::scalar().rank(), 0);
    assert!(Shape::scalar().row_major_strides().as_slice().is_empty());
}

#[test]
fn layout_contiguity_and_size() {
    let l = Layout::contiguous(DType::Q4K, Shape::new(&[2, 512]).unwrap());
    assert!(l.is_contiguous());
    assert_eq!(l.byte_size(), 4 * 144);
    assert_eq!(l.strides.as_slice(), &[512, 1]);
    let odd = Layout {
        dtype: DType::F32,
        shape: Shape::new(&[2, 3]).unwrap(),
        strides: Strides::new(&[1, 2]).unwrap(),
        offset_bytes: 0,
    };
    assert!(!odd.is_contiguous());
    assert_eq!(odd.byte_size(), 24);
}
