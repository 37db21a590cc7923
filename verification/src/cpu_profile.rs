//! CPU topology facts for cache-aware kernels, and the attention tile size they imply.
use vstd::prelude::*;
use vstd::slice::slice_subrange;

use crate::tools::{eq_ignore_case, is_digit, matches_word, trim, trim_chars};

verus! {

/// Detected CPU hardware characteristics used to size attention tiles.
#[derive(Debug, Clone, Copy)]
pub struct CpuHardwareProfile {
    /// L2 cache size per core (bytes).
    pub l2_bytes_per_core: usize,
    /// Shared L3 cache size (bytes).
    pub l3_bytes: usize,
    /// Physical cores (no hyperthreads).
    pub physical_cores: usize,
    /// Logical threads (incl. HT).
    pub logical_threads: usize,
    /// AVX-512F available.
    pub has_avx512: bool,
    /// AVX2 available.
    pub has_avx2: bool,
    /// ARM NEON available.
    pub has_neon: bool,
    /// Intel AMX tile extensions (detected; unused by attention).
    pub has_amx: bool,
    /// Default KV-sequence tile size (tokens) for a typical `head_dim=128`.
    pub kv_tile: usize,
    /// Preferred f32 SIMD lane count.
    pub simd_f32_lanes: u32,
}

/// Bytes one head's working set takes with a KV tile of `t` tokens: the query row, the
/// K and V tiles and three scratch values per token, all `f32`.
pub open spec fn tile_bytes(t: int, hd: int) -> int {
    4 * ((2 * t + 1) * hd + 3 * t)
}

/// The working-set budget: three quarters of the L2 size (the product saturating at
/// `usize::MAX`), but at least 16 KiB.
pub open spec fn tile_budget(l2: usize) -> int {
    let b = (if l2 * 3 > usize::MAX { usize::MAX as int } else { l2 * 3 }) / 4;
    if b < 16384 { 16384 } else { b }
}

/// The largest power-of-two tile from 16 to 512 tokens whose working set fits the budget;
/// 16 when none does.
pub open spec fn best_tile(hd: int, budget: int) -> int {
    if tile_bytes(512, hd) <= budget {
        512
    } else if tile_bytes(256, hd) <= budget {
        256
    } else if tile_bytes(128, hd) <= budget {
        128
    } else if tile_bytes(64, hd) <= budget {
        64
    } else if tile_bytes(32, hd) <= budget {
        32
    } else {
        16
    }
}

/// Doubling the tile from `t` while it fits the budget (up to 512 tokens): the last
/// fitting tile, or `best` when `t` does not fit.
spec fn tile_scan(t: int, best: int, hd: int, budget: int) -> int
    decreases 1024 - t,
{
    if 16 <= t <= 512 && tile_bytes(t, hd) <= budget {
        tile_scan(2 * t, t, hd, budget)
    } else {
        best
    }
}

/// The KV tile for `head_dim` and sequence length `seq` with an L2 of `l2` bytes: the
/// largest power-of-two tile from 16 to 512 whose working set fits the budget (16 when
/// none does), capped by the sequence length, and at least 1.
pub open spec fn kv_tile(l2: usize, head_dim: usize, seq: usize) -> int {
    let hd = if head_dim < 1 { 1 } else { head_dim as int };
    let best = best_tile(hd, tile_budget(l2));
    let s = if seq < 1 { 1 } else { seq as int };
    let capped = if best < s { best } else { s };
    if capped < 1 { 1 } else { capped }
}

proof fn lemma_tile_bytes_monotone(t1: int, t2: int, hd1: int, hd2: int)
    requires
        0 <= t1 <= t2,
        0 <= hd1 <= hd2,
    ensures
        tile_bytes(t1, hd1) <= tile_bytes(t2, hd2),
{
    assert((2 * t1 + 1) * hd1 <= (2 * t2 + 1) * hd2) by (nonlinear_arith)
        requires
            0 <= t1 <= t2,
            0 <= hd1 <= hd2,
    ;
}

proof fn lemma_tile_scan_bounds(t: int, best: int, hd: int, budget: int)
    requires
        16 <= t,
        1 <= best <= t,
        hd >= 1,
    ensures
        best <= tile_scan(t, best, hd, budget),
        tile_scan(t, best, hd, budget) <= 512 || tile_scan(t, best, hd, budget) == best,
        tile_scan(t, best, hd, budget) == best || tile_bytes(tile_scan(t, best, hd, budget), hd) <= budget,
    decreases 1024 - t,
{
    if 16 <= t <= 512 && tile_bytes(t, hd) <= budget {
        lemma_tile_scan_bounds(2 * t, t, hd, budget);
    }
}

proof fn lemma_tile_scan_monotone(t: int, best: int, hd1: int, hd2: int, budget: int)
    requires
        16 <= t,
        1 <= best <= t,
        1 <= hd1 <= hd2,
    ensures
        tile_scan(t, best, hd2, budget) <= tile_scan(t, best, hd1, budget),
    decreases 1024 - t,
{
    if 16 <= t <= 512 && tile_bytes(t, hd2) <= budget {
        lemma_tile_bytes_monotone(t, t, hd1, hd2);
        lemma_tile_scan_monotone(2 * t, t, hd1, hd2, budget);
    } else {
        lemma_tile_scan_bounds(t, best, hd1, budget);
    }
}

proof fn lemma_tile_scan_is_best(hd: int, budget: int)
    requires
        hd >= 1,
    ensures
        tile_scan(16, 16, hd, budget) == best_tile(hd, budget),
{
    lemma_tile_bytes_monotone(16, 32, hd, hd);
    lemma_tile_bytes_monotone(32, 64, hd, hd);
    lemma_tile_bytes_monotone(64, 128, hd, hd);
    lemma_tile_bytes_monotone(128, 256, hd, hd);
    lemma_tile_bytes_monotone(256, 512, hd, hd);
    reveal_with_fuel(tile_scan, 7);
}

/// A wider head never gets a larger KV tile (same L2 and sequence length).
pub proof fn lemma_kv_tile_shrinks_with_head_dim(l2: usize, hd1: usize, hd2: usize, seq: usize)
    requires
        hd1 <= hd2,
    ensures
        kv_tile(l2, hd2, seq) <= kv_tile(l2, hd1, seq),
{
    let h1 = if hd1 < 1 { 1 } else { hd1 as int };
    let h2 = if hd2 < 1 { 1 } else { hd2 as int };
    lemma_tile_scan_monotone(16, 16, h1, h2, tile_budget(l2));
    lemma_tile_scan_is_best(h1, tile_budget(l2));
    lemma_tile_scan_is_best(h2, tile_budget(l2));
}

/// The KV tile is between 1 and the sequence length (at least 1) and at most 512; and
/// when a 16-token tile fits three quarters of L2, the chosen tile's working set does too.
pub proof fn lemma_kv_tile_fits(l2: usize, head_dim: usize, seq: usize)
    ensures
        1 <= kv_tile(l2, head_dim, seq) <= 512,
        kv_tile(l2, head_dim, seq) <= if seq < 1 { 1 } else { seq as int },
        tile_bytes(16, if head_dim < 1 { 1 } else { head_dim as int }) <= tile_budget(l2) ==>
            tile_bytes(kv_tile(l2, head_dim, seq), if head_dim < 1 { 1 } else { head_dim as int }) <= tile_budget(l2),
{
    let hd = if head_dim < 1 { 1 } else { head_dim as int };
    lemma_tile_scan_bounds(16, 16, hd, tile_budget(l2));
    lemma_tile_scan_is_best(hd, tile_budget(l2));
    let best = tile_scan(16, 16, hd, tile_budget(l2));
    let k = kv_tile(l2, head_dim, seq);
    if tile_bytes(16, hd) <= tile_budget(l2) {
        lemma_tile_bytes_monotone(k, best, hd, hd);
    }
}

impl CpuHardwareProfile {
    /// KV tile for a concrete `head_dim`, capped by sequence length.
    ///
    /// Working set target: at most 75% of L2 for one head's Q + K/V tile + softmax scratch.
    pub fn kv_tile_for(&self, head_dim: usize, seq: usize) -> (r: usize)
        requires
            tile_bytes(16, if head_dim < 1 { 1 } else { head_dim as int }) <= usize::MAX,
        ensures
            r == kv_tile(self.l2_bytes_per_core, head_dim, seq),
    {
        let tripled = match self.l2_bytes_per_core.checked_mul(3) {
            Some(v) => v,
            None => usize::MAX,
        };
        let l2x3 = tripled / 4;
        let budget = if l2x3 < 16 * 1024 { 16 * 1024 } else { l2x3 };
        let hd = if head_dim < 1 { 1 } else { head_dim };
        let ghost b = tile_budget(self.l2_bytes_per_core);
        assert(budget == b);
        let mut best: usize = 16;
        let mut t: usize = 16;
        loop
            invariant_except_break
                16 <= t <= 1024,
                t <= 512 ==> 2 * t <= 1024,
                hd >= 1,
                budget == b,
                b <= usize::MAX / 4 || b == 16384,
                tile_bytes(t as int, hd as int) <= usize::MAX,
                tile_scan(16, 16, hd as int, b) == tile_scan(t as int, best as int, hd as int, b),
                1 <= best <= t,
            ensures
                best == tile_scan(16, 16, hd as int, b),
            decreases 1024 - t,
        {
            if t > 512 {
                break;
            }
            let bytes = 4 * ((2 * t + 1) * hd + 3 * t);
            if bytes <= budget {
                proof {
                    assert(tile_bytes(2 * t, hd as int) <= 2 * tile_bytes(t as int, hd as int)) by (nonlinear_arith)
                        requires
                            t >= 0,
                            hd >= 1,
                    ;
                }
                best = t;
                t = t * 2;
            } else {
                break;
            }
        }
        proof {
            lemma_tile_scan_is_best(hd as int, b);
        }
        let s = if seq < 1 { 1 } else { seq };
        let capped = if best < s { best } else { s };
        if capped < 1 { 1 } else { capped }
    }
}

/// The profile used where no CPU-specific probing exists: 1 MiB L2, 8 MiB L3, no SIMD
/// extensions, one core per logical thread, and the tile for `head_dim = 128`.
pub fn fallback_profile(logical: usize) -> (p: CpuHardwareProfile)
    ensures
        p.l2_bytes_per_core == 1024 * 1024,
        p.l3_bytes == 8 * 1024 * 1024,
        p.physical_cores == if logical < 1 { 1 } else { logical },
        p.logical_threads == logical,
        !p.has_avx512 && !p.has_avx2 && !p.has_neon && !p.has_amx,
        p.kv_tile == kv_tile(1048576usize, 128usize, usize::MAX),
        p.simd_f32_lanes == 8,
{
    let physical = if logical < 1 { 1 } else { logical };
    let l2: usize = 1024 * 1024;
    let mut p = CpuHardwareProfile {
        l2_bytes_per_core: l2,
        l3_bytes: 8 * 1024 * 1024,
        physical_cores: physical,
        logical_threads: logical,
        has_avx512: false,
        has_avx2: false,
        has_neon: false,
        has_amx: false,
        kv_tile: 64,
        simd_f32_lanes: 8,
    };
    p.kv_tile = p.kv_tile_for(128, usize::MAX);
    p
}

/// The kind of a cache reported by CPUID leaf 4.
#[derive(Debug, Clone, Copy, PartialEq, Eq)]
pub enum CacheKind {
    /// No more caches.
    Null,
    /// Data cache.
    Data,
    /// Instruction cache.
    Instruction,
    /// Data and instruction cache.
    Unified,
    /// A reserved type code.
    Reserved,
}

/// One deterministic cache-parameters entry (CPUID leaf 4).
#[derive(Debug, Clone, Copy)]
pub struct CacheLeaf {
    /// Cache kind.
    pub kind: CacheKind,
    /// Cache level (1, 2, 3, ...).
    pub level: u8,
    /// Ways of associativity.
    pub associativity: usize,
    /// Physical line partitions.
    pub physical_line_partitions: usize,
    /// Line size in bytes.
    pub coherency_line_size: usize,
    /// Number of sets.
    pub sets: usize,
}

/// One level of the extended topology enumeration.
#[derive(Debug, Clone, Copy)]
pub struct TopologyLevel {
    /// The level type is not `Invalid`.
    pub valid: bool,
    /// Logical processors at this level.
    pub processors: u16,
}

/// What CPUID reports on an x86 processor, as plain values.
#[derive(Debug, Clone)]
pub struct X86Facts {
    /// Cache parameters (leaf 4), when the leaf exists.
    pub caches: Option<Vec<CacheLeaf>>,
    /// AMD extended leaf: L2 size in KiB and L3 size in 512 KiB units.
    pub amd_l2_l3: Option<(u16, u16)>,
    /// AVX2, AVX-512F and the AMX extensions (leaf 7), when the leaf exists.
    pub extended: Option<(bool, bool, bool)>,
    /// Hyper-threading and AVX flags (leaf 1), when the leaf exists.
    pub basic: Option<(bool, bool)>,
    /// Extended topology, version 2 (leaf 0x1F), when present.
    pub topology_v2: Option<Vec<TopologyLevel>>,
    /// Extended topology (leaf 0xB), when present.
    pub topology_v1: Option<Vec<TopologyLevel>>,
}

/// Bytes of one cache: ways × partitions × line size × sets.
pub open spec fn leaf_size(c: CacheLeaf) -> int {
    c.associativity * c.physical_line_partitions * c.coherency_line_size * c.sets
}

/// A data or unified cache (null, instruction and reserved entries are skipped).
pub open spec fn leaf_counts(c: CacheLeaf) -> bool {
    c.kind == CacheKind::Data || c.kind == CacheKind::Unified
}

/// The largest size of a counted cache at `level` (0 when there is none).
pub open spec fn level_max(cs: Seq<CacheLeaf>, level: u8) -> int
    decreases cs.len(),
{
    if cs.len() == 0 {
        0
    } else {
        let m = level_max(cs.drop_last(), level);
        let c = cs.last();
        if leaf_counts(c) && c.level == level && leaf_size(c) > m { leaf_size(c) } else { m }
    }
}

/// Every counted cache's size fits a `usize`.
pub open spec fn leaf_sizes_fit(f: X86Facts) -> bool {
    match f.caches {
        Some(v) => forall|i: int| 0 <= i < v@.len() && #[trigger] leaf_counts(v@[i]) ==> leaf_size(v@[i]) <= usize::MAX,
        None => true,
    }
}

/// The L2 and L3 sizes: the largest counted caches at levels 2 and 3; with no L2 there,
/// the AMD extended leaf (L2 in KiB; L3 in 512 KiB units when non-zero); then 1 MiB and
/// 8 MiB for whatever is still unknown.
pub open spec fn x86_cache_sizes(f: X86Facts) -> (int, int) {
    let l2a = match f.caches { Some(v) => level_max(v@, 2), None => 0 };
    let l3a = match f.caches { Some(v) => level_max(v@, 3), None => 0 };
    let (l2b, l3b) = if l2a == 0 {
        match f.amd_l2_l3 {
            Some((k2, u3)) => (k2 * 1024, if u3 > 0 && u3 * 524288 > l3a { u3 * 524288 } else { l3a }),
            None => (l2a, l3a),
        }
    } else {
        (l2a, l3a)
    };
    (if l2b == 0 { 1048576 } else { l2b }, if l3b == 0 { 8388608 } else { l3b })
}

/// The first valid topology level's processor count.
pub open spec fn first_valid(ls: Seq<TopologyLevel>) -> Option<u16>
    decreases ls.len(),
{
    if ls.len() == 0 {
        None
    } else if ls[0].valid {
        Some(ls[0].processors)
    } else {
        first_valid(ls.drop_first())
    }
}

/// Logical processors per core from the topology leaves (version 2 when present).
pub open spec fn smt_per_core(f: X86Facts) -> Option<int> {
    let levels = match f.topology_v2 { Some(v) => Some(v), None => f.topology_v1 };
    match levels {
        Some(v) => match first_valid(v@) {
            Some(p) => Some(if p < 1 { 1 } else { p as int }),
            None => None,
        },
        None => None,
    }
}

/// Physical cores: logical threads per core from the topology, else 2 with
/// hyper-threading on a multi-threaded CPU, else 1; at least one core.
pub open spec fn x86_physical(f: X86Facts, logical: usize) -> int {
    let per_core = match smt_per_core(f) {
        Some(p) => p,
        None => if f.basic matches Some((true, _)) && logical > 1 { 2 } else { 1 },
    };
    let q = (logical as int) / per_core;
    if q < 1 { 1 } else { q }
}

/// The profile CPUID facts describe (on `logical` threads).
pub open spec fn x86_profile_holds(p: CpuHardwareProfile, f: X86Facts, logical: usize) -> bool {
    let (avx2, avx512, amx) = match f.extended { Some(e) => e, None => (false, false, false) };
    let avx = f.basic matches Some((_, true));
    &&& (p.l2_bytes_per_core as int, p.l3_bytes as int) == x86_cache_sizes(f)
    &&& p.physical_cores == x86_physical(f, logical)
    &&& p.logical_threads == if logical < 1 { 1 } else { logical }
    &&& p.has_avx512 == avx512
    &&& p.has_avx2 == avx2
    &&& !p.has_neon
    &&& p.has_amx == amx
    &&& p.simd_f32_lanes == if avx512 { 16u32 } else if avx2 || avx { 8u32 } else { 4u32 }
    &&& p.kv_tile == kv_tile(p.l2_bytes_per_core, 128usize, usize::MAX)
}

fn caches_max(v: &Vec<CacheLeaf>) -> (r: (usize, usize))
    requires
        forall|i: int| 0 <= i < v@.len() && #[trigger] leaf_counts(v@[i]) ==> leaf_size(v@[i]) <= usize::MAX,
    ensures
        r.0 == level_max(v@, 2),
        r.1 == level_max(v@, 3),
{
    let mut l2: usize = 0;
    let mut l3: usize = 0;
    let mut i: usize = 0;
    while i < v.len()
        invariant
            i <= v@.len(),
            forall|k: int| 0 <= k < v@.len() && #[trigger] leaf_counts(v@[k]) ==> leaf_size(v@[k]) <= usize::MAX,
            l2 == level_max(v@.take(i as int), 2),
            l3 == level_max(v@.take(i as int), 3),
        decreases v@.len() - i,
    {
        let c = v[i];
        proof {
            assert(v@.take(i + 1).drop_last() =~= v@.take(i as int));
            assert(v@.take(i + 1).last() == c);
        }
        let counted = match c.kind {
            CacheKind::Data | CacheKind::Unified => true,
            _ => false,
        };
        if counted {
            proof {
                assert(leaf_counts(v@[i as int]));
            }
            let size = checked_product(c.associativity, c.physical_line_partitions, c.coherency_line_size, c.sets);
            if c.level == 2 {
                if size > l2 {
                    l2 = size;
                }
            } else if c.level == 3 {
                if size > l3 {
                    l3 = size;
                }
            }
        }
        i = i + 1;
    }
    proof {
        assert(v@.take(v@.len() as int) =~= v@);
    }
    (l2, l3)
}

/// The product of four sizes that is known to fit.
fn checked_product(a: usize, b: usize, c: usize, d: usize) -> (r: usize)
    requires
        a * b * c * d <= usize::MAX,
    ensures
        r == a * b * c * d,
{
    if a == 0 || b == 0 || c == 0 || d == 0 {
        proof {
            assert(a * b * c * d == 0) by (nonlinear_arith)
                requires
                    a == 0 || b == 0 || c == 0 || d == 0,
            ;
        }
        return 0;
    }
    proof {
        assert(a * b <= a * b * c * d && a * b * c <= a * b * c * d) by (nonlinear_arith)
            requires
                a >= 1,
                b >= 1,
                c >= 1,
                d >= 1,
        ;
    }
    a * b * c * d
}

fn first_valid_exec(v: &Vec<TopologyLevel>) -> (r: Option<u16>)
    ensures
        r == first_valid(v@),
{
    let mut i: usize = 0;
    assert(v@.skip(0) =~= v@);
    while i < v.len()
        invariant
            i <= v@.len(),
            first_valid(v@) == first_valid(v@.skip(i as int)),
        decreases v@.len() - i,
    {
        proof {
            assert(v@.skip(i as int).drop_first() =~= v@.skip(i + 1));
        }
        if v[i].valid {
            return Some(v[i].processors);
        }
        i = i + 1;
    }
    None
}

/// The profile an x86 CPU's CPUID facts describe, for `logical` hardware threads.
pub fn profile_from_x86(f: &X86Facts, logical: usize) -> (p: CpuHardwareProfile)
    requires
        leaf_sizes_fit(*f),
        f.amd_l2_l3 matches Some((_, u3)) ==> u3 * 524288 <= usize::MAX,
    ensures
        x86_profile_holds(p, *f, logical),
{
    let (l2a, l3a) = match &f.caches {
        Some(v) => caches_max(v),
        None => (0, 0),
    };
    let mut l2 = l2a;
    let mut l3 = l3a;
    if l2 == 0 {
        if let Some((k2, u3)) = f.amd_l2_l3 {
            l2 = (k2 as usize) * 1024;
            let l3_raw = u3 as usize;
            if l3_raw > 0 {
                let big = l3_raw * 512 * 1024;
                if big > l3 {
                    l3 = big;
                }
            }
        }
    }
    if l2 == 0 {
        l2 = 1024 * 1024;
    }
    if l3 == 0 {
        l3 = 8 * 1024 * 1024;
    }
    let (has_avx2, has_avx512, has_amx) = match f.extended {
        Some(e) => e,
        None => (false, false, false),
    };
    let (ht, has_avx) = match f.basic {
        Some(b) => b,
        None => (false, false),
    };
    let levels = match &f.topology_v2 {
        Some(v) => Some(v),
        None => match &f.topology_v1 {
            Some(v) => Some(v),
            None => None,
        },
    };
    let smt = match levels {
        Some(v) => match first_valid_exec(v) {
            Some(p) => Some(if p < 1 { 1usize } else { p as usize }),
            None => None,
        },
        None => None,
    };
    let per_core: usize = match smt {
        Some(per) => per,
        None => if ht && logical > 1 { 2 } else { 1 },
    };
    let q = logical / per_core;
    let physical = if q < 1 { 1 } else { q };
    let simd_f32_lanes: u32 = if has_avx512 {
        16
    } else if has_avx2 || has_avx {
        8
    } else {
        4
    };
    let mut p = CpuHardwareProfile {
        l2_bytes_per_core: l2,
        l3_bytes: l3,
        physical_cores: physical,
        logical_threads: if logical < 1 { 1 } else { logical },
        has_avx512,
        has_avx2,
        has_neon: false,
        has_amx,
        kv_tile: 64,
        simd_f32_lanes,
    };
    p.kv_tile = p.kv_tile_for(128, usize::MAX);
    p
}

/// The value of a run of decimal digits.
pub open spec fn decimal_value(d: Seq<char>) -> nat
    decreases d.len(),
{
    if d.len() == 0 {
        0
    } else {
        decimal_value(d.drop_last()) * 10 + ((d.last() as u32) - 0x30) as nat
    }
}

/// Every character is a decimal digit.
pub open spec fn all_digits(d: Seq<char>) -> bool {
    forall|i: int| 0 <= i < d.len() ==> #[trigger] is_digit(d[i])
}

/// What `usize::from_str` accepts: an optional `+`, then one or more decimal digits;
/// the value (unbounded here).
pub open spec fn unsigned_literal(s: Seq<char>) -> Option<nat> {
    let d = if s.len() > 0 && s[0] == '+' { s.drop_first() } else { s };
    if d.len() == 0 || !all_digits(d) {
        None
    } else {
        Some(decimal_value(d))
    }
}

/// A sysfs cache size (`512K`, `8M`, or plain bytes), after trimming; the suffixes
/// `K`/`k` and `M`/`m` scale by 1024 and 1024². `None` when the number does not parse
/// as a `usize`.
pub open spec fn sysfs_size(s: Seq<char>) -> Option<nat> {
    let t = trim(s);
    let last = if t.len() > 0 { t.last() } else { ' ' };
    let (body, scale) = if last == 'K' || last == 'k' {
        (t.drop_last(), 1024nat)
    } else if last == 'M' || last == 'm' {
        (t.drop_last(), 1048576nat)
    } else {
        (t, 1nat)
    };
    match unsigned_literal(body) {
        Some(v) => if v <= usize::MAX { Some(v * scale) } else { None },
        None => None,
    }
}

/// The scaled size of a sysfs text fits a `usize` (or the text does not parse).
pub open spec fn sysfs_size_in_range(s: Seq<char>) -> bool {
    sysfs_size(s) matches Some(v) ==> v <= usize::MAX
}

/// `usize::from_str` on characters.
#[verifier::loop_isolation(false)]
fn parse_usize_chars(s: &[char]) -> (r: Option<usize>)
    ensures
        match unsigned_literal(s@) {
            Some(v) => if v <= usize::MAX { r == Some(v as usize) } else { r is None },
            None => r is None,
        },
{
    let d = if s.len() > 0 && s[0] == '+' { slice_subrange(s, 1, s.len()) } else { s };
    assert(d@ == if s@.len() > 0 && s@[0] == '+' { s@.drop_first() } else { s@ });
    if d.len() == 0 {
        return None;
    }
    let mut v: usize = 0;
    let mut overflow = false;
    let mut i: usize = 0;
    assert(d@.take(0) =~= Seq::<char>::empty());
    while i < d.len()
        invariant
            i <= d@.len(),
            forall|k: int| 0 <= k < i ==> #[trigger] is_digit(d@[k]),
            !overflow ==> v == decimal_value(d@.take(i as int)),
            overflow ==> decimal_value(d@.take(i as int)) > usize::MAX,
        decreases d@.len() - i,
    {
        let c = d[i];
        if !('0' <= c && c <= '9') {
            proof {
                let dd = if s@.len() > 0 && s@[0] == '+' { s@.drop_first() } else { s@ };
                assert(dd == d@);
                assert(!is_digit(dd[i as int]));
                assert(!all_digits(dd));
            }
            return None;
        }
        proof {
            assert(d@.take(i + 1).drop_last() =~= d@.take(i as int));
            assert(d@.take(i + 1).last() == c);
        }
        let digit = (c as u32 - 0x30) as usize;
        if !overflow {
            match v.checked_mul(10) {
                Some(t) => match t.checked_add(digit) {
                    Some(u) => v = u,
                    None => overflow = true,
                },
                None => overflow = true,
            }
        } else {
            proof {
                assert(decimal_value(d@.take(i as int)) * 10 + digit >= decimal_value(d@.take(i as int))) by (nonlinear_arith);
            }
        }
        i = i + 1;
    }
    proof {
        assert(d@.take(d@.len() as int) =~= d@);
    }
    if overflow {
        None
    } else {
        Some(v)
    }
}

/// The thread count asked for by a thread setting: `physical`/`p` or `logical`/`all` in
/// any case, or a positive count; surrounding whitespace is ignored. `None` for anything
/// else.
pub open spec fn requested_threads(physical: nat, logical: nat, setting: Seq<char>) -> Option<nat> {
    let t = trim(setting);
    if eq_ignore_case(t, "physical"@) || eq_ignore_case(t, "p"@) {
        Some(physical)
    } else if eq_ignore_case(t, "logical"@) || eq_ignore_case(t, "all"@) {
        Some(logical)
    } else {
        match unsigned_literal(t) {
            Some(n) => if 0 < n <= usize::MAX { Some(n) } else { None },
            None => None,
        }
    }
}

/// The thread count of the CPU execution pool. With `p` physical cores (at least 1) and
/// `l` logical threads (at least `p`): the count a usable thread setting asks for, else
/// all physical cores, or under WSL, whose virtual cores contend for memory bandwidth,
/// two thirds of them rounded up; clamped to `1..=l`.
pub open spec fn cpu_thread_choice(physical_cores: nat, logical_threads: nat, setting: Option<Seq<char>>, wsl: bool) -> nat {
    let p = if physical_cores == 0 { 1 } else { physical_cores };
    let l = if logical_threads < p { p } else { logical_threads };
    let doubled = if 2 * p > usize::MAX { usize::MAX as nat } else { 2 * p };
    let automatic = if wsl { (doubled + 2) / 3 } else { p };
    let chosen = match setting {
        Some(s) => match requested_threads(p, l, s) {
            Some(n) => n,
            None => automatic,
        },
        None => automatic,
    };
    if chosen < 1 {
        1
    } else if chosen > l {
        l
    } else {
        chosen
    }
}

/// The thread count of the CPU execution pool for a machine with `physical_cores` cores
/// and `logical_threads` hardware threads, given the thread setting if there is one and
/// whether the system is WSL.
pub fn select_cpu_threads(physical_cores: usize, logical_threads: usize, setting: Option<&str>, wsl: bool) -> (n: usize)
    ensures
        n == cpu_thread_choice(
            physical_cores as nat,
            logical_threads as nat,
            match setting { Some(s) => Some(s@), None => None },
            wsl,
        ),
        1 <= n,
{
    let p = if physical_cores == 0 { 1 } else { physical_cores };
    let l = if logical_threads < p { p } else { logical_threads };
    let doubled = if p > usize::MAX / 2 { usize::MAX } else { p * 2 };
    let automatic = if wsl { doubled / 3 + if doubled % 3 == 0 { 0 } else { 1 } } else { p };
    proof {
        assert(doubled / 3 + (if doubled % 3 == 0 { 0int } else { 1int }) == (doubled + 2) / 3);
    }
    let chosen = match setting {
        Some(s) => match requested_thread_count(p, l, s) {
            Some(n) => n,
            None => automatic,
        },
        None => automatic,
    };
    if chosen < 1 {
        1
    } else if chosen > l {
        l
    } else {
        chosen
    }
}

fn requested_thread_count(physical: usize, logical: usize, setting: &str) -> (r: Option<usize>)
    ensures
        r == match requested_threads(physical as nat, logical as nat, setting@) {
            Some(n) => Some(n as usize),
            None => None::<usize>,
        },
{
    let cs = crate::text::str_chars(setting);
    let t = trim_chars(cs.as_slice());
    let physical_word: [char; 8] = ['p', 'h', 'y', 's', 'i', 'c', 'a', 'l'];
    let p_word: [char; 1] = ['p'];
    let logical_word: [char; 7] = ['l', 'o', 'g', 'i', 'c', 'a', 'l'];
    let all_word: [char; 3] = ['a', 'l', 'l'];
    proof {
        reveal_strlit("physical");
        reveal_strlit("p");
        reveal_strlit("logical");
        reveal_strlit("all");
        assert(physical_word@ =~= "physical"@);
        assert(p_word@ =~= "p"@);
        assert(logical_word@ =~= "logical"@);
        assert(all_word@ =~= "all"@);
    }
    if matches_word(t, &physical_word) || matches_word(t, &p_word) {
        Some(physical)
    } else if matches_word(t, &logical_word) || matches_word(t, &all_word) {
        Some(logical)
    } else {
        match parse_usize_chars(t) {
            Some(n) => if n > 0 { Some(n) } else { None },
            None => None,
        }
    }
}

/// The body and scale of a trimmed sysfs size text.
fn split_suffix(t: &[char]) -> (r: (&[char], usize))
    ensures
        ({
            let last = if t@.len() > 0 { t@.last() } else { ' ' };
            if last == 'K' || last == 'k' {
                r.0@ == t@.drop_last() && r.1 == 1024
            } else if last == 'M' || last == 'm' {
                r.0@ == t@.drop_last() && r.1 == 1048576
            } else {
                r.0@ == t@ && r.1 == 1
            }
        }),
{
    let n = t.len();
    if n > 0 && (t[n - 1] == 'K' || t[n - 1] == 'k') {
        (slice_subrange(t, 0, n - 1), 1024)
    } else if n > 0 && (t[n - 1] == 'M' || t[n - 1] == 'm') {
        (slice_subrange(t, 0, n - 1), 1048576)
    } else {
        (t, 1)
    }
}

/// Whether the size in a sysfs cache-size text, once scaled, fits a `usize`.
pub fn sysfs_size_fits(s: &str) -> (b: bool)
    ensures
        b == sysfs_size_in_range(s@),
{
    let cs = crate::text::str_chars(s);
    let t = trim_chars(cs.as_slice());
    let (body, scale) = split_suffix(t);
    match parse_usize_chars(body) {
        Some(v) => v.checked_mul(scale).is_some(),
        None => true,
    }
}

/// Parse a sysfs cache size such as `512K`, `8M` or `1048576`.
pub fn parse_sysfs_size(s: &str) -> (r: Option<usize>)
    requires
        sysfs_size_in_range(s@),
    ensures
        match sysfs_size(s@) {
            Some(v) => r == Some(v as usize),
            None => r is None,
        },
{
    let cs = crate::text::str_chars(s);
    let t = trim_chars(cs.as_slice());
    let (body, scale) = split_suffix(t);
    match parse_usize_chars(body) {
        Some(v) => Some(v * scale),
        None => None,
    }
}

/// The profile of an aarch64 CPU: NEON, four f32 lanes, one core per logical thread,
/// and the L2/L3 sizes from the sysfs texts when they parse (else 1 MiB and 8 MiB).
pub fn profile_from_aarch64(l2_text: Option<&str>, l3_text: Option<&str>, logical: usize) -> (p: CpuHardwareProfile)
    requires
        l2_text matches Some(t) ==> sysfs_size_in_range(t@),
        l3_text matches Some(t) ==> sysfs_size_in_range(t@),
    ensures
        p.l2_bytes_per_core == match l2_text {
            Some(t) => match sysfs_size(t@) { Some(v) => v as usize, None => 1048576usize },
            None => 1048576usize,
        },
        p.l3_bytes == match l3_text {
            Some(t) => match sysfs_size(t@) { Some(v) => v as usize, None => 8388608usize },
            None => 8388608usize,
        },
        p.physical_cores == if logical < 1 { 1 } else { logical },
        p.logical_threads == if logical < 1 { 1 } else { logical },
        p.has_neon && !p.has_avx512 && !p.has_avx2 && !p.has_amx,
        p.simd_f32_lanes == 4,
        p.kv_tile == kv_tile(p.l2_bytes_per_core, 128usize, usize::MAX),
{
    let mut l2: usize = 1024 * 1024;
    let mut l3: usize = 8 * 1024 * 1024;
    if let Some(t) = l2_text {
        if let Some(b) = parse_sysfs_size(t) {
            l2 = b;
        }
    }
    if let Some(t) = l3_text {
        if let Some(b) = parse_sysfs_size(t) {
            l3 = b;
        }
    }
    let physical = if logical < 1 { 1 } else { logical };
    let mut p = CpuHardwareProfile {
        l2_bytes_per_core: l2,
        l3_bytes: l3,
        physical_cores: physical,
        logical_threads: physical,
        has_avx512: false,
        has_avx2: false,
        has_neon: true,
        has_amx: false,
        kv_tile: 64,
        simd_f32_lanes: 4,
    };
    p.kv_tile = p.kv_tile_for(128, usize::MAX);
    p
}

} // verus!
