use fellm::arch::{Lfm2MoeArch, LlamaArch};
use fellm::config::{MemoryConfig, PluginsAction, PluginsCmd, PluginsConfig};
use fellm::cuda::{CudaDeviceCaps, CudaExecutionMetrics, CudaExecutionMode};
use fellm::dtype::DType;
use fellm::error::FellmError;
use fellm::kernels::{is_supported_matvec_weight_dtype, mla_trace_layer, splitmix64};
use fellm::output::flush_valid_utf8_prefix;

#[test]
fn splitmix64_reference_values() {
    // SplitMix64 seeded with 0: first outputs of the reference generator.
    assert_eq!(splitmix64(0), 0xE220_A839_7B1D_CDAF);
    assert_eq!(splitmix64(0x9E37_79B9_7F4A_7C15), 0x6E78_9E6A_A1B9_65F4);
}

#[test]
fn traced_mla_layers() {
    let traced: Vec<u32> = (0..20).filter(|&l| mla_trace_layer(l)).collect();
    assert_eq!(traced, vec![0, 1, 8, 9]);
}

#[test]
fn matvec_weight_types() {
    assert!(is_supported_matvec_weight_dtype(DType::Q4K));
    assert!(is_supported_matvec_weight_dtype(DType::MXFP4));
    assert!(!is_supported_matvec_weight_dtype(DType::Q3K));
    assert!(!is_supported_matvec_weight_dtype(DType::I32));
}

#[test]
fn cuda_mode_settings() {
    assert_eq!(CudaExecutionMode::from_setting(None).unwrap(), CudaExecutionMode::StrictCuda);
    assert_eq!(CudaExecutionMode::from_setting(Some(" Strict ")).unwrap(), CudaExecutionMode::StrictCuda);
    assert_eq!(CudaExecutionMode::from_setting(Some("HYBRID")).unwrap(), CudaExecutionMode::Hybrid);
    assert_eq!(
        CudaExecutionMode::from_setting(Some("cpu-fallback-debug")).unwrap(),
        CudaExecutionMode::CpuFallbackDebug
    );
    assert!(matches!(CudaExecutionMode::from_setting(Some("gpu")), Err(FellmError::Other(_))));
}

#[test]
fn defaults_are_zero_and_empty() {
    let m = CudaExecutionMetrics::default();
    assert_eq!(m.h2d_bytes + m.cpu_partition_count + m.storage_wait_nanos, 0);
    assert_eq!(CudaDeviceCaps::default().sm_count, 0);
    assert!(MemoryConfig::default().device_memory_limit.is_none());
    assert!(PluginsConfig::default().plugin_dir.is_none());
    let _ = (LlamaArch::new(), Lfm2MoeArch::new(), LlamaArch::default(), Lfm2MoeArch::default());
}

#[test]
fn config_fills_only_unset_plugin_dir() {
    let mut cmd = PluginsCmd { action: PluginsAction::List { plugin_dir: None, capability: Some("kv".into()) } };
    cmd.apply_config(PluginsConfig { plugin_dir: Some("cfg".into()) });
    match &cmd.action {
        PluginsAction::List { plugin_dir, capability } => {
            assert_eq!(plugin_dir.as_deref(), Some("cfg"));
            assert_eq!(capability.as_deref(), Some("kv"));
        }
        other => panic!("{other:?}"),
    }
    let mut cmd = PluginsCmd { action: PluginsAction::Inspect { name: "p".into(), plugin_dir: Some("cli".into()) } };
    cmd.apply_config(PluginsConfig { plugin_dir: Some("cfg".into()) });
    match &cmd.action {
        PluginsAction::Inspect { plugin_dir, .. } => assert_eq!(plugin_dir.as_deref(), Some("cli")),
        other => panic!("{other:?}"),
    }
}

#[test]
fn utf8_prefix_flushing_keeps_incomplete_tail() {
    let mut buf = "hé".as_bytes().to_vec();
    buf.push(0xE2);
    buf.push(0x82);
    assert_eq!(flush_valid_utf8_prefix(&mut buf), "hé");
    assert_eq!(buf, vec![0xE2, 0x82]);
    buf.push(0xAC);
    assert_eq!(flush_valid_utf8_prefix(&mut buf), "€");
    assert!(buf.is_empty());
    let mut bad = vec![0xFF, b'a'];
    assert_eq!(flush_valid_utf8_prefix(&mut bad), "");
    assert_eq!(bad, vec![0xFF, b'a']);
}

#[test]
fn plugin_kernel_switch() {
    assert!(fellm::cuda::use_plugin_kernels(None, 3));
    assert!(!fellm::cuda::use_plugin_kernels(None, 0));
    assert!(!fellm::cuda::use_plugin_kernels(Some("off"), 3));
    assert!(!fellm::cuda::use_plugin_kernels(Some("0"), 3));
    assert!(!fellm::cuda::use_plugin_kernels(Some("false"), 3));
    assert!(fellm::cuda::use_plugin_kernels(Some("1"), 3));
    assert!(!fellm::cuda::use_plugin_kernels(Some("yes"), 0));
}

#[test]
fn gpu_feature_families() {
    let f = fellm::cuda::gpu_features(8);
    assert!(f.ampere_ada && !f.hopper && !f.blackwell);
    let f = fellm::cuda::gpu_features(9);
    assert!(f.ampere_ada && f.hopper && !f.blackwell);
    let f = fellm::cuda::gpu_features(12);
    assert!(f.ampere_ada && f.hopper && f.blackwell);
    let f = fellm::cuda::gpu_features(7);
    assert!(!f.ampere_ada && !f.hopper && !f.blackwell);
}

#[test]
fn weight_cache_budget_holds_three_groups() {
    assert_eq!(fellm::cuda::weight_cache_budget(Some(100), 40), (300, 3));
    assert_eq!(fellm::cuda::weight_cache_budget(Some(10), 40), (120, 3));
    assert_eq!(fellm::cuda::weight_cache_budget(None, 7), (21, 3));
    assert_eq!(fellm::cuda::weight_cache_budget(None, u64::MAX / 2), (u64::MAX, 3));
}

#[test]
fn error_messages_read_as_the_error_type_displays_them() {
    assert_eq!(FellmError::other("boom").message(), "boom");
    assert_eq!(FellmError::parse("bad header").message(), "parse error: bad header");
    assert_eq!(FellmError::Io("denied".into()).message(), "I/O error: denied");
    assert_eq!(FellmError::UnknownDType(4096).message(), "unknown ggml dtype code: 4096");
    assert_eq!(FellmError::UnsupportedDType(DType::Q4K).message(), "unsupported dtype for operation: q4_k");
    assert_eq!(
        FellmError::ShapeMismatch { expected: vec![1, 20, 300], got: vec![] }.message(),
        "shape mismatch: expected [1, 20, 300], got []"
    );
    assert_eq!(FellmError::RankTooHigh(7).message(), "rank 7 exceeds maximum (5)");
    assert_eq!(FellmError::BadGgufMagic(0x1b).message(), "bad GGUF magic: 0x0000001b");
    assert_eq!(FellmError::BadGgufMagic(0xDEADBEEF).message(), "bad GGUF magic: 0xdeadbeef");
    assert_eq!(FellmError::UnsupportedGgufVersion(0).message(), "unsupported GGUF version: 0");
    assert_eq!(FellmError::TensorNotFound("w".into()).message(), "tensor not found: w");
    assert_eq!(FellmError::MetadataKeyNotFound("k".into()).message(), "metadata key not found: k");
    assert_eq!(
        FellmError::MetadataTypeMismatch { key: "k".into(), expected: "u32", got: "string" }.message(),
        "metadata type mismatch for k: expected u32, got string"
    );
    assert_eq!(FellmError::UnsupportedTokenizer("bpe2".into()).message(), "unsupported tokenizer model: bpe2");
    assert_eq!(FellmError::Tokenization("t".into()).message(), "tokenization error: t");
    assert_eq!(FellmError::UnsupportedArchitecture("a".into()).message(), "unsupported architecture: a");
    assert_eq!(FellmError::InvalidGraph("g".into()).message(), "invalid graph: g");
    assert_eq!(FellmError::NoKernel { op: "add".into(), dtypes: "f32,f16".into() }.message(), "no kernel for op add with dtypes f32,f16");
    assert_eq!(FellmError::InvalidUtf8.message(), "invalid UTF-8 in GGUF string");
    assert_eq!(
        FellmError::ShapeMismatch { expected: vec![u64::MAX], got: vec![0] }.message(),
        format!("shape mismatch: expected [{}], got [0]", u64::MAX)
    );
}
