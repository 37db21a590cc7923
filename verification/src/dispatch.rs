//! Kernel selection: which operations and element types the CPU backend runs, and how the
//! CUDA backend encodes and routes its kernel handles (its own CUDA plugin kernels, CPU
//! fallback kernels, and hybrid kernels that carry both).
use vstd::prelude::*;

use crate::cuda::CudaExecutionMode;
use crate::dtype::DType;
use crate::error::FellmError;
use crate::kernels::{is_supported_matvec_weight_dtype, matvec_weight_dtype};

verus! {

/// An operation of a compute graph.
#[derive(Debug, Clone, Copy, PartialEq, Eq, Structural)]
pub enum OpKind {
    /// Matrix-vector product with a weight matrix.
    MatMul,
    /// Fused gate/up projections with SwiGLU.
    GateUpSwiGlu,
    /// Embedding row lookup.
    Embedding,
    /// Weighted sum of embedding rows.
    WeightedEmbedding,
    /// Short causal convolution block.
    ShortConv,
    /// Gated delta-net recurrent block.
    GatedDeltaNet,
    /// Mixture-of-experts feed-forward.
    MoE,
    /// Multi-head latent attention.
    MlaAttention,
    /// Hyper-connection stream mixing.
    HyperConnection,
    /// RMS normalization.
    RmsNorm,
    /// Rotary position embedding.
    Rope,
    /// SiLU gate.
    SiluGate,
    /// Softmax.
    Softmax,
    /// Attention.
    Attention,
    /// Element-wise addition.
    Add,
    /// Element-wise product.
    Mul,
    /// Sigmoid gate.
    SigmoidGate,
    /// Interleaved head selection.
    InterleavedHeadSelect,
    /// Reshape.
    Reshape,
    /// Element type conversion.
    Cast,
    /// Concatenation.
    Concat,
    /// Token sampling.
    Sample,
    /// KV cache write.
    KvWrite,
    /// A custom operation, by its numeric id.
    Custom(u32),
}

/// Weight types of the CPU matrix-vector product.
pub open spec fn matmul_weight_dtype(d: DType) -> bool {
    match d {
        DType::F32 | DType::F16 | DType::BF16 | DType::Q4_0 | DType::Q5_0 | DType::Q8_0 | DType::Q4K
        | DType::Q5K | DType::Q6K | DType::IQ2XS | DType::IQ3XXS | DType::IQ3S | DType::MXFP4 => true,
        _ => false,
    }
}

/// Table types of the CPU embedding lookup.
pub open spec fn embedding_table_dtype(d: DType) -> bool {
    match d {
        DType::F32 | DType::F16 | DType::BF16 | DType::Q4_0 | DType::Q5_0 | DType::Q8_0 | DType::Q4K
        | DType::Q5K | DType::Q6K => true,
        _ => false,
    }
}

/// `f32`, or a weight type of the matrix-vector kernels.
pub open spec fn f32_or_weight(d: DType) -> bool {
    d == DType::F32 || matvec_weight_dtype(d)
}

/// Extra MoE inputs: `f32`, `i32`, `u32`, or a weight type.
pub open spec fn moe_extra_dtype(d: DType) -> bool {
    d == DType::F32 || d == DType::I32 || d == DType::U32 || matvec_weight_dtype(d)
}

/// Whether the CPU backend has a kernel for `op` with these input and output types.
pub open spec fn cpu_supports(op: OpKind, ins: Seq<DType>, out: DType) -> bool {
    match op {
        OpKind::MatMul => ins.len() >= 2 && matmul_weight_dtype(ins[0]) && ins[1] == DType::F32,
        OpKind::GateUpSwiGlu => ins.len() >= 3 && matvec_weight_dtype(ins[0]) && matvec_weight_dtype(ins[1])
            && ins[2] == DType::F32,
        OpKind::Embedding => ins.len() >= 1 && embedding_table_dtype(ins[0]),
        OpKind::WeightedEmbedding => ins.len() >= 2 && matvec_weight_dtype(ins[0]) && ins[1] == DType::F32
            && out == DType::F32,
        OpKind::ShortConv => ins.len() >= 4 && ins[0] == DType::F32 && matvec_weight_dtype(ins[1])
            && ins[2] == DType::F32 && matvec_weight_dtype(ins[3]),
        OpKind::GatedDeltaNet => {
            &&& ins.len() == 10
            &&& ins[0] == DType::F32
            &&& matvec_weight_dtype(ins[1]) && matvec_weight_dtype(ins[2]) && matvec_weight_dtype(ins[3])
            &&& matvec_weight_dtype(ins[4]) && matvec_weight_dtype(ins[9])
            &&& ins[5] == DType::F32 && ins[6] == DType::F32 && ins[7] == DType::F32 && ins[8] == DType::F32
            &&& out == DType::F32
        },
        OpKind::MoE => {
            &&& ins.len() >= 5
            &&& ins[0] == DType::F32
            &&& f32_or_weight(ins[1])
            &&& forall|i: int| 2 <= i < ins.len() ==> #[trigger] input_ok(true, ins[i])
        },
        OpKind::MlaAttention | OpKind::HyperConnection => {
            &&& ins.len() >= 1
            &&& ins[0] == DType::F32
            &&& forall|i: int| 0 <= i < ins.len() ==> #[trigger] input_ok(false, ins[i])
            &&& out == DType::F32
        },
        OpKind::Custom(_) => false,
        _ => true,
    }
}

/// The CPU matrix product takes `f32` activations (second input) against weights (first
/// input) of exactly these types: F32, F16, BF16, Q4_0, Q5_0, Q8_0, Q4_K, Q5_K, Q6_K,
/// IQ2_XS, IQ3_XXS, IQ3_S and MXFP4.
pub proof fn lemma_cpu_matmul_weights(ins: Seq<DType>, out: DType)
    ensures
        cpu_supports(OpKind::MatMul, ins, out) <==> ins.len() >= 2 && ins[1] == DType::F32 && {
            let w = ins[0];
            ||| w == DType::F32
            ||| w == DType::F16
            ||| w == DType::BF16
            ||| w == DType::Q4_0
            ||| w == DType::Q5_0
            ||| w == DType::Q8_0
            ||| w == DType::Q4K
            ||| w == DType::Q5K
            ||| w == DType::Q6K
            ||| w == DType::IQ2XS
            ||| w == DType::IQ3XXS
            ||| w == DType::IQ3S
            ||| w == DType::MXFP4
        },
{
}

/// The CPU gate/up SwiGLU product takes `f32` activations (third input) against two
/// weights of exactly these types: F32, BF16, Q4_0, Q5_0, Q8_0, F16, Q2_K, Q4_K, Q5_K,
/// Q6_K, IQ2_XXS, IQ2_XS, IQ3_XXS, IQ3_S and MXFP4.
pub proof fn lemma_cpu_gate_up_weights(ins: Seq<DType>, out: DType)
    ensures
        cpu_supports(OpKind::GateUpSwiGlu, ins, out) <==> ins.len() >= 3 && ins[2] == DType::F32 && (forall|k: int|
            0 <= k < 2 ==> {
                let w = #[trigger] ins[k];
                ||| w == DType::F32
                ||| w == DType::BF16
                ||| w == DType::Q4_0
                ||| w == DType::Q5_0
                ||| w == DType::Q8_0
                ||| w == DType::F16
                ||| w == DType::Q2K
                ||| w == DType::Q4K
                ||| w == DType::Q5K
                ||| w == DType::Q6K
                ||| w == DType::IQ2XXS
                ||| w == DType::IQ2XS
                ||| w == DType::IQ3XXS
                ||| w == DType::IQ3S
                ||| w == DType::MXFP4
            }),
{
    if ins.len() >= 3 {
        assert(ins[0] == ins[0]);
        assert(ins[1] == ins[1]);
    }
}

/// The CPU embedding lookup takes tables of exactly these types: F32, F16, BF16, Q4_0,
/// Q5_0, Q8_0, Q4_K, Q5_K and Q6_K.
pub proof fn lemma_cpu_embedding_tables(ins: Seq<DType>, out: DType)
    ensures
        cpu_supports(OpKind::Embedding, ins, out) <==> ins.len() >= 1 && {
            let w = ins[0];
            ||| w == DType::F32
            ||| w == DType::F16
            ||| w == DType::BF16
            ||| w == DType::Q4_0
            ||| w == DType::Q5_0
            ||| w == DType::Q8_0
            ||| w == DType::Q4K
            ||| w == DType::Q5K
            ||| w == DType::Q6K
        },
{
}

/// The CPU backend runs the element-wise and bookkeeping operations (normalisation, rotary
/// embedding, gates, softmax, attention, add, multiply, head selection, reshape, cast,
/// concatenation, sampling, KV writes) for any element types, and no custom operation.
pub proof fn lemma_cpu_generic_ops(op: OpKind, ins: Seq<DType>, out: DType)
    ensures
        (op is RmsNorm || op is Rope || op is SiluGate || op is Softmax || op is Attention || op is Add || op is Mul
            || op is SigmoidGate || op is InterleavedHeadSelect || op is Reshape || op is Cast || op is Concat
            || op is Sample || op is KvWrite) ==> cpu_supports(op, ins, out),
        op is Custom ==> !cpu_supports(op, ins, out),
{
}

fn is_matmul_weight(d: DType) -> (b: bool)
    ensures
        b == matmul_weight_dtype(d),
{
    match d {
        DType::F32 | DType::F16 | DType::BF16 | DType::Q4_0 | DType::Q5_0 | DType::Q8_0 | DType::Q4K
        | DType::Q5K | DType::Q6K | DType::IQ2XS | DType::IQ3XXS | DType::IQ3S | DType::MXFP4 => true,
        _ => false,
    }
}

fn is_embedding_table(d: DType) -> (b: bool)
    ensures
        b == embedding_table_dtype(d),
{
    match d {
        DType::F32 | DType::F16 | DType::BF16 | DType::Q4_0 | DType::Q5_0 | DType::Q8_0 | DType::Q4K
        | DType::Q5K | DType::Q6K => true,
        _ => false,
    }
}

/// The type test of the inputs that a variadic CPU kernel checks one by one.
pub open spec fn input_ok(moe_extras: bool, d: DType) -> bool {
    if moe_extras {
        moe_extra_dtype(d)
    } else {
        f32_or_weight(d)
    }
}

fn all_from(ins: &[DType], start: usize, moe_extras: bool) -> (b: bool)
    ensures
        b == forall|i: int| start <= i < ins@.len() ==> #[trigger] input_ok(moe_extras, ins@[i]),
{
    let mut i: usize = start;
    while i < ins.len()
        invariant
            start <= i,
            forall|k: int| start <= k < i ==> #[trigger] input_ok(moe_extras, ins@[k]),
        decreases ins@.len() - i,
    {
        let d = ins[i];
        let ok = if moe_extras {
            d == DType::F32 || d == DType::I32 || d == DType::U32 || is_supported_matvec_weight_dtype(d)
        } else {
            d == DType::F32 || is_supported_matvec_weight_dtype(d)
        };
        if !ok {
            assert(!input_ok(moe_extras, ins@[i as int]));
            return false;
        }
        i = i + 1;
    }
    true
}

/// Whether the CPU backend has a kernel for `op` with these input and output types.
#[verifier::rlimit(80)]
pub fn cpu_kernel_supported(op: OpKind, input_dtypes: &[DType], output_dtype: DType) -> (b: bool)
    ensures
        b == cpu_supports(op, input_dtypes@, output_dtype),
{
    let ins = input_dtypes;
    let n = ins.len();
    match op {
        OpKind::MatMul => n >= 2 && is_matmul_weight(ins[0]) && ins[1] == DType::F32,
        OpKind::GateUpSwiGlu => n >= 3 && is_supported_matvec_weight_dtype(ins[0])
            && is_supported_matvec_weight_dtype(ins[1]) && ins[2] == DType::F32,
        OpKind::Embedding => n >= 1 && is_embedding_table(ins[0]),
        OpKind::WeightedEmbedding => n >= 2 && is_supported_matvec_weight_dtype(ins[0]) && ins[1] == DType::F32
            && output_dtype == DType::F32,
        OpKind::ShortConv => n >= 4 && ins[0] == DType::F32 && is_supported_matvec_weight_dtype(ins[1])
            && ins[2] == DType::F32 && is_supported_matvec_weight_dtype(ins[3]),
        OpKind::GatedDeltaNet => {
            n == 10 && ins[0] == DType::F32 && is_supported_matvec_weight_dtype(ins[1])
                && is_supported_matvec_weight_dtype(ins[2]) && is_supported_matvec_weight_dtype(ins[3])
                && is_supported_matvec_weight_dtype(ins[4]) && is_supported_matvec_weight_dtype(ins[9])
                && ins[5] == DType::F32 && ins[6] == DType::F32 && ins[7] == DType::F32
                && ins[8] == DType::F32 && output_dtype == DType::F32
        },
        OpKind::MoE => {
            let activations_ok = n >= 2 && ins[0] == DType::F32 && (ins[1] == DType::F32
                || is_supported_matvec_weight_dtype(ins[1]));
            let rest_ok = all_from(ins, 2, true);
            activations_ok && rest_ok && n >= 5
        },
        OpKind::MlaAttention | OpKind::HyperConnection => {
            n >= 1 && ins[0] == DType::F32 && all_from(ins, 0, false) && output_dtype == DType::F32
        },
        OpKind::Custom(_) => false,
        _ => true,
    }
}

/// Handle bit of kernels run by the embedded CPU backend.
pub const CPU_FALLBACK_BIT: u64 = 0x0080_0000_0000_0000;

/// Handle bit of kernels run by a loaded CUDA plugin.
pub const PLUGIN_BIT: u64 = 0x0100_0000_0000_0000;

/// Handle bit of hybrid kernels: a CUDA plugin kernel and a CPU partition kernel.
pub const HYBRID_BIT: u64 = 0x0200_0000_0000_0000;

/// Width of each of the two handles packed into a hybrid handle.
pub const HYBRID_HANDLE_BITS: u64 = 28;

/// Mask of a handle packed into a hybrid handle.
pub const HYBRID_HANDLE_MASK: u64 = 0x0FFF_FFFF;

/// Where a CUDA backend kernel handle sends a launch.
#[derive(Debug, Clone, Copy, PartialEq, Eq, Structural)]
pub enum KernelRoute {
    /// A CUDA plugin kernel, with the CPU kernel of an explicit CPU partition.
    Hybrid {
        /// The plugin kernel handle.
        plugin: u64,
        /// The CPU kernel handle.
        cpu: u64,
    },
    /// A CUDA plugin kernel.
    Plugin(u64),
    /// A CPU fallback kernel.
    CpuFallback(u64),
    /// No kernel.
    Unknown,
}

/// The route of a handle: the hybrid bit wins over the plugin bit, which wins over the
/// CPU fallback bit; the handles are the bits below the route's bit (or the two packed
/// 28-bit fields of a hybrid handle).
pub open spec fn route_of(h: u64) -> KernelRoute {
    if h & HYBRID_BIT != 0 {
        KernelRoute::Hybrid { plugin: (h >> HYBRID_HANDLE_BITS) & HYBRID_HANDLE_MASK, cpu: h & HYBRID_HANDLE_MASK }
    } else if h & PLUGIN_BIT != 0 {
        KernelRoute::Plugin(h & ((PLUGIN_BIT - 1) as u64))
    } else if h & CPU_FALLBACK_BIT != 0 {
        KernelRoute::CpuFallback(h & ((CPU_FALLBACK_BIT - 1) as u64))
    } else {
        KernelRoute::Unknown
    }
}

/// Where a CUDA backend kernel handle sends a launch.
pub fn route_cuda_handle(handle: u64) -> (r: KernelRoute)
    ensures
        r == route_of(handle),
{
    if handle & HYBRID_BIT != 0 {
        KernelRoute::Hybrid {
            plugin: (handle >> HYBRID_HANDLE_BITS) & HYBRID_HANDLE_MASK,
            cpu: handle & HYBRID_HANDLE_MASK,
        }
    } else if handle & PLUGIN_BIT != 0 {
        KernelRoute::Plugin(handle & (PLUGIN_BIT - 1))
    } else if handle & CPU_FALLBACK_BIT != 0 {
        KernelRoute::CpuFallback(handle & (CPU_FALLBACK_BIT - 1))
    } else {
        KernelRoute::Unknown
    }
}

/// The handle the CUDA backend gives an operation. With plugins in use and a plugin
/// kernel `plugin` for it: a hybrid handle when the model has CPU partitions, the CPU
/// backend has a kernel `cpu` too and both fit 28 bits; else the plugin handle. Without a
/// plugin kernel, only the CPU fallback debug mode takes the CPU kernel; the other modes
/// have none.
pub open spec fn cuda_handle_choice(
    plugin: Option<u64>,
    use_plugins: bool,
    has_cpu_partitions: bool,
    cpu: Option<u64>,
    mode: CudaExecutionMode,
) -> Option<u64> {
    if use_plugins && plugin is Some {
        let h = plugin->0;
        if has_cpu_partitions && cpu is Some && h <= HYBRID_HANDLE_MASK && cpu->0 <= HYBRID_HANDLE_MASK {
            Some(HYBRID_BIT | (h << HYBRID_HANDLE_BITS) | cpu->0)
        } else {
            Some(PLUGIN_BIT | h)
        }
    } else if mode != CudaExecutionMode::CpuFallbackDebug {
        None
    } else {
        match cpu {
            Some(c) => Some(CPU_FALLBACK_BIT | c),
            None => None,
        }
    }
}

/// The handle the CUDA backend gives an operation, from the plugin registry's kernel for
/// it (`plugin`) and the CPU backend's (`cpu`).
pub fn cuda_kernel_handle(
    plugin: Option<u64>,
    use_plugins: bool,
    has_cpu_partitions: bool,
    cpu: Option<u64>,
    mode: CudaExecutionMode,
) -> (r: Option<u64>)
    ensures
        r == cuda_handle_choice(plugin, use_plugins, has_cpu_partitions, cpu, mode),
{
    if use_plugins {
        if let Some(h) = plugin {
            if has_cpu_partitions {
                if let Some(c) = cpu {
                    if h <= HYBRID_HANDLE_MASK && c <= HYBRID_HANDLE_MASK {
                        return Some(HYBRID_BIT | (h << HYBRID_HANDLE_BITS) | c);
                    }
                }
            }
            return Some(PLUGIN_BIT | h);
        }
    }
    if mode != CudaExecutionMode::CpuFallbackDebug {
        return None;
    }
    match cpu {
        Some(c) => Some(CPU_FALLBACK_BIT | c),
        None => None,
    }
}

/// The route the CUDA backend means a chosen handle to take.
pub open spec fn intended_route(
    plugin: Option<u64>,
    use_plugins: bool,
    has_cpu_partitions: bool,
    cpu: Option<u64>,
) -> KernelRoute {
    if use_plugins && plugin is Some {
        let h = plugin->0;
        if has_cpu_partitions && cpu is Some && h <= HYBRID_HANDLE_MASK && cpu->0 <= HYBRID_HANDLE_MASK {
            KernelRoute::Hybrid { plugin: h, cpu: cpu->0 }
        } else {
            KernelRoute::Plugin(h)
        }
    } else {
        KernelRoute::CpuFallback(cpu->0)
    }
}

/// Routing a chosen handle gives back the kernels it was made from, provided the plugin
/// and CPU handles stay clear of the route bits.
pub proof fn lemma_cuda_handle_routes_back(
    plugin: Option<u64>,
    use_plugins: bool,
    has_cpu_partitions: bool,
    cpu: Option<u64>,
    mode: CudaExecutionMode,
)
    requires
        plugin matches Some(h) ==> h < CPU_FALLBACK_BIT,
        cpu matches Some(c) ==> c < CPU_FALLBACK_BIT,
    ensures
        cuda_handle_choice(plugin, use_plugins, has_cpu_partitions, cpu, mode) matches Some(x)
            ==> route_of(x) == intended_route(plugin, use_plugins, has_cpu_partitions, cpu),
{
    if use_plugins && plugin is Some {
        let h = plugin->0;
        if has_cpu_partitions && cpu is Some && h <= HYBRID_HANDLE_MASK && cpu->0 <= HYBRID_HANDLE_MASK {
            let c = cpu->0;
            let x = HYBRID_BIT | (h << HYBRID_HANDLE_BITS) | c;
            assert(x & HYBRID_BIT != 0 && (x >> HYBRID_HANDLE_BITS) & HYBRID_HANDLE_MASK == h
                && x & HYBRID_HANDLE_MASK == c) by (bit_vector)
                requires
                    x == 0x0200_0000_0000_0000u64 | (h << 28u64) | c,
                    h <= 0x0FFF_FFFFu64,
                    c <= 0x0FFF_FFFFu64,
            ;
        } else {
            let x = PLUGIN_BIT | h;
            assert(x & HYBRID_BIT == 0 && x & PLUGIN_BIT != 0 && x & ((PLUGIN_BIT - 1) as u64) == h) by (bit_vector)
                requires
                    x == 0x0100_0000_0000_0000u64 | h,
                    h < 0x0080_0000_0000_0000u64,
            ;
        }
    } else if mode == CudaExecutionMode::CpuFallbackDebug && cpu is Some {
        let c = cpu->0;
        let x = CPU_FALLBACK_BIT | c;
        assert(x & HYBRID_BIT == 0 && x & PLUGIN_BIT == 0 && x & CPU_FALLBACK_BIT != 0 && x & ((CPU_FALLBACK_BIT - 1) as u64) == c) by (bit_vector)
            requires
                x == 0x0080_0000_0000_0000u64 | c,
                c < 0x0080_0000_0000_0000u64,
        ;
    }
}

/// The experts a MoE launch is forced to use, from its optional trailing
/// `(tid2eid, token_id)` inputs: a frozen table of `max(n_expert_used, 1)` experts per token.
/// Without those two inputs (fewer than two inputs, or the last two not `i32` and `u32`),
/// nothing is forced and every input is a regular one.
pub open spec fn forced_experts(
    n_inputs: nat,
    map_dtype: Option<DType>,
    token_dtype: Option<DType>,
    table: Seq<i32>,
    ids: Seq<u32>,
    n_expert_used: nat,
) -> Result<(nat, Option<Seq<i32>>), ()> {
    if n_inputs < 2 || map_dtype != Some(DType::I32) || token_dtype != Some(DType::U32) {
        Ok((n_inputs, None))
    } else if ids.len() == 0 {
        Err(())
    } else {
        let used = if n_expert_used == 0 { 1 } else { n_expert_used };
        let start = ids[0] * used;
        if start + used > table.len() {
            Err(())
        } else {
            Ok(((n_inputs - 2) as nat, Some(table.subrange(start as int, (start + used) as int))))
        }
    }
}

/// Message for a token whose expert row lies outside the table.
#[verifier::external_body]
fn expert_map_message(token: u32, table_len: usize, used: usize) -> String {
    format!("moe: token {token} expert map out of range (table={table_len}, used={used})")
}

/// The forced experts of a MoE launch: how many inputs are regular, and the experts the
/// token's row of the table names, if the launch carries a table.
pub fn moe_forced_experts(
    n_inputs: usize,
    map_dtype: Option<DType>,
    token_dtype: Option<DType>,
    table: &[i32],
    ids: &[u32],
    n_expert_used: usize,
) -> (r: Result<(usize, Option<Vec<i32>>), FellmError>)
    requires
        table@.len() < usize::MAX,
        ids@.len() > 0 ==> ids@[0] * (if n_expert_used == 0 { 1 } else { n_expert_used }) <= usize::MAX,
    ensures
        match forced_experts(n_inputs as nat, map_dtype, token_dtype, table@, ids@, n_expert_used as nat) {
            Ok((n, None)) => r matches Ok((k, None)) && k == n,
            Ok((n, Some(row))) => r matches Ok((k, Some(v))) && k == n && v@ == row,
            Err(()) => r matches Err(FellmError::Other(_)),
        },
        ids@.len() == 0 && n_inputs >= 2 && map_dtype == Some(DType::I32) && token_dtype == Some(DType::U32) ==> (r matches Err(
            FellmError::Other(m),
        ) && m@ == "moe: empty token_id"@),
{
    if n_inputs < 2 {
        return Ok((n_inputs, None));
    }
    if map_dtype != Some(DType::I32) || token_dtype != Some(DType::U32) {
        return Ok((n_inputs, None));
    }
    if ids.len() == 0 {
        return Err(FellmError::other("moe: empty token_id"));
    }
    let token = ids[0];
    let used = if n_expert_used == 0 { 1 } else { n_expert_used };
    let start = (token as usize) * used;
    let end = if start > usize::MAX - used { usize::MAX } else { start + used };
    if end > table.len() {
        return Err(FellmError::Other(expert_map_message(token, table.len(), used)));
    }
    let mut row: Vec<i32> = Vec::new();
    let mut i: usize = start;
    while i < end
        invariant
            start <= i <= end,
            end <= table@.len(),
            row@ == table@.subrange(start as int, i as int),
        decreases end - i,
    {
        row.push(table[i]);
        proof {
            assert(row@ =~= table@.subrange(start as int, i + 1));
        }
        i = i + 1;
    }
    proof {
        let u: nat = if n_expert_used == 0 { 1 } else { n_expert_used as nat };
        assert(u == used);
        assert(start == ids@[0] * u);
        assert(row@ == table@.subrange(start as int, (start + used) as int));
    }
    Ok((n_inputs - 2, Some(row)))
}

} // verus!
