use fellm::dtype::DType;
use fellm::error::FellmError;

#[test]
fn q4k_block_size_matches_ggml() {
    assert_eq!(DType::Q4K.bytes_per_block(), 144);
    assert_eq!(DType::Q4K.elements_per_block(), 256);
}

#[test]
fn q6k_block_size_matches_ggml() {
    assert_eq!(DType::Q6K.bytes_per_block(), 210);
    assert_eq!(DType::Q6K.elements_per_block(), 256);
}

#[test]
fn f32_byte_size() {
    assert_eq!(DType::F32.byte_size(10), 40);
}

#[test]
fn q4k_byte_size_rounds_up() {
    // 500 elements => ceil(500/256) = 2 blocks => 288 bytes
    assert_eq!(DType::Q4K.byte_size(500), 288);
}

#[test]
fn from_ggml_code_roundtrip() {
    assert_eq!(DType::from_ggml_code(12).unwrap(), DType::Q4K);
    assert_eq!(DType::from_ggml_code(14).unwrap(), DType::Q6K);
    assert!(DType::from_ggml_code(9999).is_err());
}

#[test]
fn every_code_maps_back_to_itself() {
    for code in 0u32..=300 {
        match DType::from_ggml_code(code) {
            Ok(d) => assert_eq!(d.ggml_code(), code),
            Err(FellmError::UnknownDType(c)) => assert_eq!(c, code),
            Err(e) => panic!("unexpected error {e:?}"),
        }
    }
}

#[test]
fn unknown_codes_are_the_gaps() {
    assert!(DType::from_ggml_code(4).is_err());
    assert!(DType::from_ggml_code(5).is_err());
    assert!(DType::from_ggml_code(31).is_err());
    assert!(DType::from_ggml_code(199).is_err());
    assert!(DType::from_ggml_code(205).is_err());
    assert_eq!(DType::from_ggml_code(39).unwrap(), DType::MXFP4);
    assert_eq!(DType::from_ggml_code(204).unwrap(), DType::Bool);
}

#[test]
fn byte_size_of_blocks() {
    assert_eq!(DType::Q4_0.byte_size(64), 36);
    assert_eq!(DType::Q4_0.byte_size(1), 18);
    assert_eq!(DType::Q4_0.byte_size(0), 0);
    assert_eq!(DType::Q8_0.byte_size(33), 68);
    assert_eq!(DType::F16.byte_size(7), 14);
    assert_eq!(DType::Q6K.byte_size(256), 210);
}

#[test]
fn quantized_and_float_kinds() {
    assert!(DType::Q4K.is_quantized());
    assert!(DType::MXFP4.is_quantized());
    assert!(!DType::F32.is_quantized());
    assert!(!DType::I32.is_quantized());
    assert!(DType::F16.is_float());
    assert!(DType::BF16.is_float());
    assert!(!DType::F64.is_float());
    assert!(!DType::Q4K.is_float());
}

#[test]
fn dtype_names() {
    assert_eq!(DType::Q4K.name(), "q4_k");
    assert_eq!(DType::F32.name(), "f32");
}

#[test]
fn error_constructors_keep_message() {
    match FellmError::other("boom") {
        FellmError::Other(m) => assert_eq!(m, "boom"),
        e => panic!("{e:?}"),
    }
    match FellmError::parse("bad") {
        FellmError::Parse(m) => assert_eq!(m, "bad"),
        e => panic!("{e:?}"),
    }
}
