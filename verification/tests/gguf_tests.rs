use fellm::dtype::DType;
use fellm::error::FellmError;
use fellm::file::{align_up, GgufFile};
use fellm::meta::{read_value, MetaArray, MetaKind, MetaMap, MetaValue};
use fellm::reader::Reader;

#[test]
fn align_up_works() {
    assert_eq!(align_up(0, 32), 0);
    assert_eq!(align_up(1, 32), 32);
    assert_eq!(align_up(32, 32), 32);
    assert_eq!(align_up(33, 32), 64);
    assert_eq!(align_up(100, 1), 100);
}

#[test]
fn align_up_zero_and_masking() {
    assert_eq!(align_up(100, 0), 100);
    // A non-power-of-two alignment is applied as a mask, as the format's writers do.
    assert_eq!(align_up(10, 6), 10);
}

fn push_str(out: &mut Vec<u8>, s: &str) {
    out.extend_from_slice(&(s.len() as u64).to_le_bytes());
    out.extend_from_slice(s.as_bytes());
}

fn header(tensors: u64, metas: u64) -> Vec<u8> {
    let mut out = Vec::new();
    out.extend_from_slice(&0x4655_4747u32.to_le_bytes());
    out.extend_from_slice(&3u32.to_le_bytes());
    out.extend_from_slice(&tensors.to_le_bytes());
    out.extend_from_slice(&metas.to_le_bytes());
    out
}

fn sample_file(alignment: Option<u32>) -> Vec<u8> {
    let mut out = header(2, if alignment.is_some() { 2 } else { 1 });
    push_str(&mut out, "general.architecture");
    out.extend_from_slice(&8u32.to_le_bytes());
    push_str(&mut out, "llama");
    if let Some(a) = alignment {
        push_str(&mut out, "general.alignment");
        out.extend_from_slice(&4u32.to_le_bytes());
        out.extend_from_slice(&a.to_le_bytes());
    }
    // tensor "a": dims stored innermost first [4, 3] => shape [3, 4], F32, offset 0
    push_str(&mut out, "a");
    out.extend_from_slice(&2u32.to_le_bytes());
    out.extend_from_slice(&4u64.to_le_bytes());
    out.extend_from_slice(&3u64.to_le_bytes());
    out.extend_from_slice(&0u32.to_le_bytes());
    out.extend_from_slice(&0u64.to_le_bytes());
    // tensor "b": [512], Q4_K, offset 64
    push_str(&mut out, "b");
    out.extend_from_slice(&1u32.to_le_bytes());
    out.extend_from_slice(&512u64.to_le_bytes());
    out.extend_from_slice(&12u32.to_le_bytes());
    out.extend_from_slice(&64u64.to_le_bytes());
    out
}

#[test]
fn parses_header_metadata_and_tensors() {
    let bytes = sample_file(Some(64));
    let end = bytes.len() as u64;
    let g = GgufFile::from_bytes(&bytes).unwrap();
    assert_eq!(g.metadata.arch().unwrap(), "llama");
    assert_eq!(g.alignment(), 64);
    assert_eq!(g.tensor_data_offset(), (end + 63) / 64 * 64);
    assert_eq!(g.tensors().len(), 2);
    assert_eq!(g.tensor_infos[0].name, "a");
    assert_eq!(g.tensor_infos[0].shape.dims(), &[3, 4]);
    assert_eq!(g.tensor_infos[1].dtype, DType::Q4K);
    assert!(g.has_tensor("b"));
    assert!(!g.has_tensor("c"));
    let a = g.tensor("a").unwrap();
    assert_eq!(a.offset, g.tensor_data_offset());
    assert_eq!(a.len, 48);
    assert_eq!(a.layout.strides.as_slice(), &[4, 1]);
    let b = g.tensor_at(1).unwrap();
    assert_eq!(b.offset, g.tensor_data_offset() + 64);
    assert_eq!(b.len, 288);
    assert!(g.tensor_fits(0));
    assert!(matches!(g.tensor_at(2), Err(FellmError::Parse(_))));
    assert!(matches!(g.tensor("zzz"), Err(FellmError::TensorNotFound(n)) if n == "zzz"));
}

#[test]
fn default_alignment_is_32() {
    let bytes = sample_file(None);
    let g = GgufFile::from_bytes(&bytes).unwrap();
    assert_eq!(g.alignment(), 32);
    assert_eq!(g.tensor_data_offset() % 32, 0);
    assert!(g.tensor_data_offset() >= bytes.len() as u64);
    assert!(g.tensor_data_offset() < bytes.len() as u64 + 32);
}

#[test]
fn rejects_bad_magic_and_version() {
    let mut bytes = sample_file(None);
    bytes[0] = b'X';
    assert!(matches!(GgufFile::from_bytes(&bytes), Err(FellmError::BadGgufMagic(_))));
    let mut bytes = sample_file(None);
    bytes[4] = 1;
    assert!(matches!(GgufFile::from_bytes(&bytes), Err(FellmError::UnsupportedGgufVersion(1))));
    assert!(matches!(GgufFile::from_bytes(&[0x47, 0x47]), Err(FellmError::Parse(_))));
}

#[test]
fn rejects_truncated_and_bad_tensor_descriptors() {
    let bytes = sample_file(Some(64));
    for cut in [10, 30, bytes.len() - 1] {
        assert!(matches!(GgufFile::from_bytes(&bytes[..cut]), Err(FellmError::Parse(_))));
    }
    let mut too_many = header(1, 0);
    push_str(&mut too_many, "t");
    too_many.extend_from_slice(&5u32.to_le_bytes());
    assert!(matches!(GgufFile::from_bytes(&too_many), Err(FellmError::Parse(_))));
    let mut unknown = header(1, 0);
    push_str(&mut unknown, "t");
    unknown.extend_from_slice(&1u32.to_le_bytes());
    unknown.extend_from_slice(&8u64.to_le_bytes());
    unknown.extend_from_slice(&77u32.to_le_bytes());
    unknown.extend_from_slice(&0u64.to_le_bytes());
    assert!(matches!(GgufFile::from_bytes(&unknown), Err(FellmError::UnknownDType(77))));
}

#[test]
fn later_metadata_entries_replace_earlier() {
    let mut out = header(0, 2);
    for v in [7u32, 9u32] {
        push_str(&mut out, "k");
        out.extend_from_slice(&4u32.to_le_bytes());
        out.extend_from_slice(&v.to_le_bytes());
    }
    let g = GgufFile::from_bytes(&out).unwrap();
    assert_eq!(g.metadata.get_u32("k").unwrap(), 9);
    assert_eq!(g.metadata.iter().len(), 1);
}

#[test]
fn reader_primitives_are_little_endian() {
    let data = [0x01u8, 0xFF, 0x34, 0x12, 0xFE, 0xFF, 0xFF, 0xFF, 0x00, 0x00, 0x00, 0x80];
    let mut r = Reader::new(&data);
    assert_eq!(r.u8().unwrap(), 1);
    assert_eq!(r.i8().unwrap(), -1);
    assert_eq!(r.u16().unwrap(), 0x1234);
    assert_eq!(r.i32().unwrap(), -2);
    assert_eq!(r.pos(), 8);
    assert_eq!(r.remaining(), 4);
    assert_eq!(r.peek(4).unwrap(), &[0, 0, 0, 0x80]);
    assert_eq!(r.i32().unwrap(), i32::MIN);
    assert!(matches!(r.u8(), Err(FellmError::Parse(_))));
    r.set_pos(2);
    assert_eq!(r.i16().unwrap(), 0x1234);
    r.set_pos(0);
    assert_eq!(r.u64().unwrap(), 0xFFFF_FFFE_1234_FF01);
    r.set_pos(4);
    assert_eq!(r.i64().unwrap(), i64::MIN + 0xFFFF_FFFE);
    r.set_pos(0);
    assert_eq!(r.u32().unwrap(), 0x1234_FF01);
    assert!(r.peek(100).is_err());
}

#[test]
fn reader_strings() {
    let mut data = Vec::new();
    push_str(&mut data, "héllo");
    let mut r = Reader::new(&data);
    assert_eq!(r.gguf_string().unwrap(), "héllo");
    assert_eq!(r.remaining(), 0);
    let bad = [2u8, 0, 0, 0, 0, 0, 0, 0, 0xFF, 0xFE];
    assert!(matches!(Reader::new(&bad).gguf_string(), Err(FellmError::InvalidUtf8)));
    let short = [9u8, 0, 0, 0, 0, 0, 0, 0, b'a'];
    assert!(matches!(Reader::new(&short).gguf_string(), Err(FellmError::Parse(_))));
}

#[test]
fn reads_typed_values_and_arrays() {
    let mut data = Vec::new();
    data.extend_from_slice(&9u32.to_le_bytes());
    data.extend_from_slice(&5u32.to_le_bytes());
    data.extend_from_slice(&3u64.to_le_bytes());
    for v in [-1i32, 0, 7] {
        data.extend_from_slice(&v.to_le_bytes());
    }
    let mut r = Reader::new(&data);
    match read_value(&mut r).unwrap() {
        MetaValue::Array(MetaArray::I32(v)) => assert_eq!(v, vec![-1, 0, 7]),
        other => panic!("{other:?}"),
    }
    let nested = [9u8, 0, 0, 0, 9, 0, 0, 0, 0, 0, 0, 0, 0, 0, 0, 0];
    assert!(matches!(read_value(&mut Reader::new(&nested)), Err(FellmError::Parse(_))));
    let unknown = [42u8, 0, 0, 0];
    assert!(matches!(read_value(&mut Reader::new(&unknown)), Err(FellmError::Parse(_))));
    assert_eq!(MetaKind::from_code(8).unwrap(), MetaKind::String);
    assert_eq!(MetaKind::U64.name(), "u64");
}

#[test]
fn meta_map_typed_getters() {
    let mut m = MetaMap::new();
    m.insert("b".to_string(), MetaValue::U16(5));
    m.insert("a".to_string(), MetaValue::Bool(true));
    m.insert("s".to_string(), MetaValue::Array(MetaArray::String(vec!["x".to_string()])));
    assert_eq!(m.get_u32("b").unwrap(), 5);
    assert_eq!(m.get_u64("b").unwrap(), 5);
    assert!(m.get_bool("a").unwrap());
    assert_eq!(m.get_string_array("s").unwrap().len(), 1);
    assert!(matches!(m.get_u32("missing"), Err(FellmError::MetadataKeyNotFound(k)) if k == "missing"));
    match m.get_string("a") {
        Err(FellmError::MetadataTypeMismatch { key, expected, got }) => {
            assert_eq!(key, "a");
            assert_eq!(expected, "string");
            assert_eq!(got, "bool");
        }
        other => panic!("{other:?}"),
    }
    let keys: Vec<&str> = m.iter().iter().map(|(k, _)| k.as_str()).collect();
    assert_eq!(keys, vec!["a", "b", "s"]);
}

#[test]
fn align_up_reaches_the_top_of_the_range() {
    assert_eq!(align_up(u64::MAX - 31, 32), u64::MAX - 31);
    assert_eq!(align_up(u64::MAX - 62, 32), u64::MAX - 31);
}
