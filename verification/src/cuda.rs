//! CUDA execution policy, transfer counters and device capabilities, as plain data.
use vstd::prelude::*;

use crate::error::{FellmError, Result};
use crate::tools::{ascii_lower, trim, trim_chars};

verus! {

/// CUDA execution policy. Only debug mode permits arbitrary per-operation CPU fallback.
#[derive(Debug, Clone, Copy, PartialEq, Eq, Structural)]
pub enum CudaExecutionMode {
    /// Every graph operation must resolve to a CUDA kernel.
    StrictCuda,
    /// Explicit model partitions may use the host; arbitrary op fallback is forbidden.
    Hybrid,
    /// Correctness bring-up with visible CPU fallback accounting.
    CpuFallbackDebug,
}

/// A setting, trimmed and in ASCII lower case.
pub open spec fn normalized(s: Seq<char>) -> Seq<char> {
    trim(s).map_values(|c: char| ascii_lower(c))
}

/// The mode a `FELLM_CUDA_MODE` setting selects: `strict`/`strict-cuda` (also when
/// unset), `hybrid`, `debug`/`cpu-fallback-debug`, compared after trimming and ignoring
/// ASCII case; anything else selects none.
pub open spec fn mode_named(s: Option<Seq<char>>) -> Option<CudaExecutionMode> {
    match s {
        None => Some(CudaExecutionMode::StrictCuda),
        Some(t) => {
            let n = normalized(t);
            if n == "strict"@ || n == "strict-cuda"@ {
                Some(CudaExecutionMode::StrictCuda)
            } else if n == "hybrid"@ {
                Some(CudaExecutionMode::Hybrid)
            } else if n == "debug"@ || n == "cpu-fallback-debug"@ {
                Some(CudaExecutionMode::CpuFallbackDebug)
            } else {
                None
            }
        },
    }
}

/// Whether plugin kernels are used: a `FELLM_PLUGIN_KERNELS` setting of `0`, `false` or
/// `off` turns them off; otherwise they are used when the registry has any.
pub open spec fn plugin_kernels_on(setting: Option<Seq<char>>, plugin_ops: nat) -> bool {
    match setting {
        Some(v) => !(v == "0"@ || v == "false"@ || v == "off"@) && plugin_ops > 0,
        None => plugin_ops > 0,
    }
}

/// Whether plugin kernels are used, from the `FELLM_PLUGIN_KERNELS` setting and the number
/// of kernels the plugin registry holds.
pub fn use_plugin_kernels(setting: Option<&str>, plugin_ops: usize) -> (b: bool)
    ensures
        b == plugin_kernels_on(
            match setting {
                Some(v) => Some(v@),
                None => None,
            },
            plugin_ops as nat,
        ),
{
    match setting {
        Some(v) => {
            if crate::text::str_equal(v, "0") || crate::text::str_equal(v, "false") || crate::text::str_equal(
                v,
                "off",
            ) {
                false
            } else {
                plugin_ops > 0
            }
        },
        None => plugin_ops > 0,
    }
}

/// Architecture feature families of a compute capability major version: Ampere/Ada
/// features from 8 on, Hopper from 9 on, Blackwell from 10 on.
#[derive(Debug, Clone, Copy, PartialEq, Eq, Structural)]
pub struct GpuFeatures {
    /// Ampere/Ada features.
    pub ampere_ada: bool,
    /// Hopper features.
    pub hopper: bool,
    /// Blackwell features.
    pub blackwell: bool,
}

/// The feature families of a device with compute capability major version `major`.
pub fn gpu_features(major: u32) -> (f: GpuFeatures)
    ensures
        f.ampere_ada == (major >= 8),
        f.hopper == (major >= 9),
        f.blackwell == (major >= 10),
{
    let ampere_ada_only = major >= 8 && major < 9;
    let hopper_only = major >= 9 && major < 10;
    let blackwell = major >= 10;
    GpuFeatures {
        ampere_ada: ampere_ada_only || hopper_only || blackwell,
        hopper: hopper_only || blackwell,
        blackwell,
    }
}

/// Weight groups the device weight cache holds at once: one in use, one uploading, one
/// being read.
pub const PIPELINE_SLOTS: u32 = 3;

/// The device weight cache budget for groups of at least `minimum` bytes: room for
/// [`PIPELINE_SLOTS`] groups of the larger of `minimum` and the plugin's current group
/// capacity (saturating), with the slot count.
pub fn weight_cache_budget(plugin_capacity: Option<u64>, minimum: u64) -> (r: (u64, u32))
    ensures
        ({
            let c = match plugin_capacity {
                Some(p) => if p > minimum { p } else { minimum },
                None => minimum,
            };
            r.0 == if c * 3 > u64::MAX { u64::MAX as int } else { c * 3 }
        }),
        r.1 == PIPELINE_SLOTS,
{
    let base = match plugin_capacity {
        Some(p) => p,
        None => 0,
    };
    let capacity = if base > minimum { base } else { minimum };
    let budget = match capacity.checked_mul(3) {
        Some(b) => b,
        None => u64::MAX,
    };
    (budget, PIPELINE_SLOTS)
}

/// Message for an unknown mode setting.
#[verifier::external_body]
fn invalid_mode_message(chars: &[char]) -> String {
    format!(
        "invalid FELLM_CUDA_MODE '{}' (expected strict-cuda|hybrid|cpu-fallback-debug)",
        chars.iter().collect::<String>()
    )
}

fn lower_chars(cs: &[char]) -> (r: Vec<char>)
    ensures
        r@ == cs@.map_values(|c: char| ascii_lower(c)),
{
    let mut out: Vec<char> = Vec::new();
    let mut i: usize = 0;
    while i < cs.len()
        invariant
            i <= cs@.len(),
            out@ =~= cs@.take(i as int).map_values(|c: char| ascii_lower(c)),
        decreases cs@.len() - i,
    {
        let c = cs[i];
        let l = crate::tools::lower_char(c);
        out.push(l);
        i = i + 1;
    }
    proof {
        assert(cs@.take(cs@.len() as int) =~= cs@);
    }
    out
}

fn chars_equal_str(cs: &[char], s: &str) -> (b: bool)
    ensures
        b == (cs@ == s@),
{
    let t = crate::text::str_chars(s);
    if t.len() != cs.len() {
        return false;
    }
    let mut i: usize = 0;
    while i < cs.len()
        invariant
            i <= cs@.len(),
            cs@.len() == t@.len(),
            t@ == s@,
            forall|k: int| 0 <= k < i ==> cs@[k] == t@[k],
        decreases cs@.len() - i,
    {
        if cs[i] != t[i] {
            return false;
        }
        i = i + 1;
    }
    assert(cs@ =~= t@);
    true
}

impl CudaExecutionMode {
    /// The mode a `FELLM_CUDA_MODE` setting selects (`None` when the variable is unset).
    pub fn from_setting(value: Option<&str>) -> (r: Result<CudaExecutionMode>)
        ensures
            match mode_named(match value { Some(v) => Some(v@), None => None }) {
                Some(m) => r == Ok::<CudaExecutionMode, FellmError>(m),
                None => r matches Err(e) && e is Other,
            },
    {
        let v = match value {
            Some(v) => v,
            None => return Ok(CudaExecutionMode::StrictCuda),
        };
        let cs = crate::text::str_chars(v);
        let n = lower_chars(trim_chars(cs.as_slice()));
        let ns = n.as_slice();
        if chars_equal_str(ns, "strict") || chars_equal_str(ns, "strict-cuda") {
            Ok(CudaExecutionMode::StrictCuda)
        } else if chars_equal_str(ns, "hybrid") {
            Ok(CudaExecutionMode::Hybrid)
        } else if chars_equal_str(ns, "debug") || chars_equal_str(ns, "cpu-fallback-debug") {
            Ok(CudaExecutionMode::CpuFallbackDebug)
        } else {
            Err(FellmError::Other(invalid_mode_message(ns)))
        }
    }
}

/// Transfer and fallback counters used by correctness assertions and benchmarks.
#[derive(Debug, Clone, Copy)]
pub struct CudaExecutionMetrics {
    /// Bytes uploaded after backend initialization.
    pub h2d_bytes: u64,
    /// Bytes downloaded after backend initialization.
    pub d2h_bytes: u64,
    /// Operations executed by the CPU debug fallback.
    pub cpu_fallback_count: u64,
    /// Current bytes in the bounded device weight working set.
    pub weight_resident_bytes: u64,
    /// Weight bytes uploaded by the streaming provider.
    pub weight_h2d_bytes: u64,
    /// Weight prefetches that were used.
    pub weight_prefetch_hits: u64,
    /// Weight fetches that no prefetch covered.
    pub weight_prefetch_misses: u64,
    /// Weights evicted from the device working set.
    pub weight_evictions: u64,
    /// Bytes read from storage.
    pub storage_read_bytes: u64,
    /// Bytes read from storage that were used.
    pub storage_useful_bytes: u64,
    /// Physical storage reads.
    pub storage_physical_reads: u64,
    /// Failed storage reads.
    pub storage_failed_reads: u64,
    /// Median storage latency.
    pub storage_latency_p50_nanos: u64,
    /// 95th-percentile storage latency.
    pub storage_latency_p95_nanos: u64,
    /// Time spent waiting on storage.
    pub storage_wait_nanos: u64,
    /// Storage prefetches that were used.
    pub storage_prefetch_hits: u64,
    /// Storage reads that no prefetch covered.
    pub storage_prefetch_misses: u64,
    /// Storage requests served from resident data.
    pub storage_resident_hits: u64,
    /// Storage requests that blocked execution.
    pub storage_required_requests: u64,
    /// Model partitions placed on the host.
    pub cpu_partition_count: u64,
}

impl Default for CudaExecutionMetrics {
    fn default() -> (m: Self)
        ensures
            m.h2d_bytes == 0,
            m.d2h_bytes == 0,
            m.cpu_fallback_count == 0,
            m.weight_resident_bytes == 0,
            m.weight_h2d_bytes == 0,
            m.weight_prefetch_hits == 0,
            m.weight_prefetch_misses == 0,
            m.weight_evictions == 0,
            m.storage_read_bytes == 0,
            m.storage_useful_bytes == 0,
            m.storage_physical_reads == 0,
            m.storage_failed_reads == 0,
            m.storage_latency_p50_nanos == 0,
            m.storage_latency_p95_nanos == 0,
            m.storage_wait_nanos == 0,
            m.storage_prefetch_hits == 0,
            m.storage_prefetch_misses == 0,
            m.storage_resident_hits == 0,
            m.storage_required_requests == 0,
            m.cpu_partition_count == 0,
    {
        CudaExecutionMetrics {
            h2d_bytes: 0,
            d2h_bytes: 0,
            cpu_fallback_count: 0,
            weight_resident_bytes: 0,
            weight_h2d_bytes: 0,
            weight_prefetch_hits: 0,
            weight_prefetch_misses: 0,
            weight_evictions: 0,
            storage_read_bytes: 0,
            storage_useful_bytes: 0,
            storage_physical_reads: 0,
            storage_failed_reads: 0,
            storage_latency_p50_nanos: 0,
            storage_latency_p95_nanos: 0,
            storage_wait_nanos: 0,
            storage_prefetch_hits: 0,
            storage_prefetch_misses: 0,
            storage_resident_hits: 0,
            storage_required_requests: 0,
            cpu_partition_count: 0,
        }
    }
}

/// Hardware properties that affect CUDA kernel selection and autotuning.
#[derive(Debug, Clone, Copy, PartialEq, Eq, Structural)]
pub struct CudaDeviceCaps {
    /// Compute capability major version.
    pub compute_major: u32,
    /// Compute capability minor version.
    pub compute_minor: u32,
    /// Streaming multiprocessor count.
    pub sm_count: u32,
    /// Hardware warp width.
    pub warp_size: u32,
    /// Maximum shared memory per block in bytes.
    pub smem_per_block: u32,
    /// Maximum shared memory per SM in bytes.
    pub smem_per_sm: u32,
    /// Register file size per SM.
    pub registers_per_sm: u32,
    /// Maximum resident threads per SM.
    pub max_threads_per_sm: u32,
    /// L2 cache size in bytes.
    pub l2_bytes: u64,
    /// Device-memory bus width in bits.
    pub memory_bus_width_bits: u32,
    /// Device-memory clock in kHz.
    pub memory_clock_khz: u32,
}

impl Default for CudaDeviceCaps {
    fn default() -> (c: Self)
        ensures
            c.compute_major == 0,
            c.compute_minor == 0,
            c.sm_count == 0,
            c.warp_size == 0,
            c.smem_per_block == 0,
            c.smem_per_sm == 0,
            c.registers_per_sm == 0,
            c.max_threads_per_sm == 0,
            c.l2_bytes == 0,
            c.memory_bus_width_bits == 0,
            c.memory_clock_khz == 0,
    {
        CudaDeviceCaps {
            compute_major: 0,
            compute_minor: 0,
            sm_count: 0,
            warp_size: 0,
            smem_per_block: 0,
            smem_per_sm: 0,
            registers_per_sm: 0,
            max_threads_per_sm: 0,
            l2_bytes: 0,
            memory_bus_width_bits: 0,
            memory_clock_khz: 0,
        }
    }
}

} // verus!
