use fellm::dispatch::moe_forced_experts;
use fellm::error::FellmError;
use fellm::cuda::CudaExecutionMode;
use fellm::dispatch::{
    cpu_kernel_supported, cuda_kernel_handle, route_cuda_handle, KernelRoute, OpKind, CPU_FALLBACK_BIT, HYBRID_BIT,
    PLUGIN_BIT,
};
use fellm::dtype::DType;

#[test]
fn cpu_matmul_needs_weight_and_f32_activations() {
    assert!(cpu_kernel_supported(OpKind::MatMul, &[DType::Q4K, DType::F32], DType::F32));
    assert!(!cpu_kernel_supported(OpKind::MatMul, &[DType::Q2K, DType::F32], DType::F32));
    assert!(!cpu_kernel_supported(OpKind::MatMul, &[DType::Q4K, DType::F16], DType::F32));
    assert!(!cpu_kernel_supported(OpKind::MatMul, &[DType::Q4K], DType::F32));
}

#[test]
fn cpu_embedding_and_elementwise_ops() {
    assert!(cpu_kernel_supported(OpKind::Embedding, &[DType::Q6K], DType::F32));
    assert!(!cpu_kernel_supported(OpKind::Embedding, &[DType::IQ3S], DType::F32));
    assert!(!cpu_kernel_supported(OpKind::Embedding, &[], DType::F32));
    assert!(cpu_kernel_supported(OpKind::Add, &[], DType::F16));
    assert!(cpu_kernel_supported(OpKind::KvWrite, &[DType::F32], DType::F32));
    assert!(!cpu_kernel_supported(OpKind::Custom(900), &[DType::F32], DType::F32));
}

#[test]
fn cpu_moe_and_gated_delta_net_shapes() {
    let moe = [DType::F32, DType::Q4K, DType::I32, DType::U32, DType::Q6K];
    assert!(cpu_kernel_supported(OpKind::MoE, &moe, DType::F32));
    assert!(!cpu_kernel_supported(OpKind::MoE, &moe[..4], DType::F32));
    assert!(!cpu_kernel_supported(OpKind::MoE, &[DType::F32, DType::Q4K, DType::I8, DType::U32, DType::F32], DType::F32));
    let mut gdn = [DType::F32; 10];
    gdn[1] = DType::Q4K;
    gdn[9] = DType::Q8_0;
    assert!(cpu_kernel_supported(OpKind::GatedDeltaNet, &gdn, DType::F32));
    assert!(!cpu_kernel_supported(OpKind::GatedDeltaNet, &gdn, DType::F16));
    gdn[6] = DType::Q4K;
    assert!(!cpu_kernel_supported(OpKind::GatedDeltaNet, &gdn, DType::F32));
}

#[test]
fn cpu_mla_requires_f32_first_and_weights_after() {
    assert!(cpu_kernel_supported(OpKind::MlaAttention, &[DType::F32, DType::Q4K, DType::F32], DType::F32));
    assert!(!cpu_kernel_supported(OpKind::HyperConnection, &[DType::Q4K, DType::F32], DType::F32));
    assert!(!cpu_kernel_supported(OpKind::HyperConnection, &[DType::F32, DType::I32], DType::F32));
}

#[test]
fn cuda_handles_encode_and_route_back() {
    let hybrid = cuda_kernel_handle(Some(5), true, true, Some(9), CudaExecutionMode::Hybrid).unwrap();
    assert_eq!(hybrid, HYBRID_BIT | (5 << 28) | 9);
    assert_eq!(route_cuda_handle(hybrid), KernelRoute::Hybrid { plugin: 5, cpu: 9 });
    let plugin = cuda_kernel_handle(Some(5), true, false, Some(9), CudaExecutionMode::StrictCuda).unwrap();
    assert_eq!(plugin, PLUGIN_BIT | 5);
    assert_eq!(route_cuda_handle(plugin), KernelRoute::Plugin(5));
    let big = cuda_kernel_handle(Some(1 << 30), true, true, Some(9), CudaExecutionMode::Hybrid).unwrap();
    assert_eq!(route_cuda_handle(big), KernelRoute::Plugin(1 << 30));
    let cpu = cuda_kernel_handle(None, true, true, Some(12), CudaExecutionMode::CpuFallbackDebug).unwrap();
    assert_eq!(cpu, CPU_FALLBACK_BIT | 12);
    assert_eq!(route_cuda_handle(cpu), KernelRoute::CpuFallback(12));
    assert_eq!(cuda_kernel_handle(None, true, true, Some(12), CudaExecutionMode::StrictCuda), None);
    assert_eq!(cuda_kernel_handle(Some(3), false, false, None, CudaExecutionMode::CpuFallbackDebug), None);
    assert_eq!(route_cuda_handle(42), KernelRoute::Unknown);
}

#[test]
fn moe_forced_experts_from_trailing_inputs() {
    let table = [0, 1, 2, 3, 4, 5];
    assert_eq!(moe_forced_experts(1, None, None, &[], &[], 2).unwrap(), (1, None));
    assert_eq!(moe_forced_experts(5, Some(DType::F32), Some(DType::U32), &table, &[1], 2).unwrap(), (5, None));
    assert_eq!(
        moe_forced_experts(5, Some(DType::I32), Some(DType::U32), &table, &[1], 2).unwrap(),
        (3, Some(vec![2, 3]))
    );
    assert_eq!(
        moe_forced_experts(4, Some(DType::I32), Some(DType::U32), &table, &[5], 0).unwrap(),
        (2, Some(vec![5]))
    );
    match moe_forced_experts(4, Some(DType::I32), Some(DType::U32), &table, &[], 2) {
        Err(FellmError::Other(m)) => assert_eq!(m, "moe: empty token_id"),
        _ => panic!("expected an error"),
    }
    match moe_forced_experts(4, Some(DType::I32), Some(DType::U32), &table, &[3], 2) {
        Err(FellmError::Other(m)) => assert_eq!(m, "moe: token 3 expert map out of range (table=6, used=2)"),
        _ => panic!("expected an error"),
    }
}
