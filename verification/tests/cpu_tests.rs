use fellm::cpu_profile::{
    select_cpu_threads,
    fallback_profile, parse_sysfs_size, profile_from_aarch64, profile_from_x86, sysfs_size_fits,
    CacheKind, CacheLeaf, CpuHardwareProfile, TopologyLevel, X86Facts,
};

fn profile(l2: usize) -> CpuHardwareProfile {
    CpuHardwareProfile {
        l2_bytes_per_core: l2,
        l3_bytes: 8 * 1024 * 1024,
        physical_cores: 4,
        logical_threads: 8,
        has_avx512: false,
        has_avx2: true,
        has_neon: false,
        has_amx: false,
        kv_tile: 64,
        simd_f32_lanes: 8,
    }
}

#[test]
fn tile_shrinks_for_large_head_dim() {
    let p = profile(256 * 1024);
    let t64 = p.kv_tile_for(64, 4096);
    let t256 = p.kv_tile_for(256, 4096);
    assert!(t256 <= t64);
    assert_eq!(p.kv_tile_for(128, 7), 7);
}

#[test]
fn tile_values() {
    let p = profile(256 * 1024);
    // budget 196608: head_dim 64 fits 256 tokens (4*(513*64+768) = 134400) but not 512.
    assert_eq!(p.kv_tile_for(64, 4096), 256);
    assert_eq!(p.kv_tile_for(256, 4096), 64);
    assert_eq!(p.kv_tile_for(0, 0), 1);
    assert_eq!(profile(0).kv_tile_for(128, 100), 16);
    assert_eq!(profile(usize::MAX).kv_tile_for(1, usize::MAX), 512);
}

#[test]
fn fallback_profile_defaults() {
    let p = fallback_profile(0);
    assert_eq!(p.physical_cores, 1);
    assert_eq!(p.logical_threads, 0);
    assert_eq!(p.l2_bytes_per_core, 1024 * 1024);
    assert_eq!(p.kv_tile, p.kv_tile_for(128, usize::MAX));
    assert_eq!(p.kv_tile, 512);
}

fn leaf(kind: CacheKind, level: u8, ways: usize, sets: usize) -> CacheLeaf {
    CacheLeaf { kind, level, associativity: ways, physical_line_partitions: 1, coherency_line_size: 64, sets }
}

#[test]
fn x86_profile_from_cache_leaves() {
    let facts = X86Facts {
        caches: Some(vec![
            leaf(CacheKind::Data, 1, 8, 64),
            leaf(CacheKind::Instruction, 2, 64, 4096),
            leaf(CacheKind::Unified, 2, 16, 2048),
            leaf(CacheKind::Unified, 3, 16, 32768),
        ]),
        amd_l2_l3: Some((512, 64)),
        extended: Some((true, true, false)),
        basic: Some((true, true)),
        topology_v2: None,
        topology_v1: Some(vec![TopologyLevel { valid: false, processors: 9 }, TopologyLevel { valid: true, processors: 2 }]),
    };
    let p = profile_from_x86(&facts, 16);
    assert_eq!(p.l2_bytes_per_core, 16 * 64 * 2048);
    assert_eq!(p.l3_bytes, 16 * 64 * 32768);
    assert_eq!(p.physical_cores, 8);
    assert_eq!(p.logical_threads, 16);
    assert!(p.has_avx512 && p.has_avx2 && !p.has_amx && !p.has_neon);
    assert_eq!(p.simd_f32_lanes, 16);
    assert_eq!(p.kv_tile, p.kv_tile_for(128, usize::MAX));
}

#[test]
fn x86_profile_fallbacks() {
    let facts = X86Facts {
        caches: None,
        amd_l2_l3: Some((1024, 64)),
        extended: None,
        basic: Some((true, false)),
        topology_v2: None,
        topology_v1: None,
    };
    let p = profile_from_x86(&facts, 8);
    assert_eq!(p.l2_bytes_per_core, 1024 * 1024);
    assert_eq!(p.l3_bytes, 64 * 512 * 1024);
    assert_eq!(p.physical_cores, 4);
    assert_eq!(p.simd_f32_lanes, 4);
    let bare = X86Facts { caches: None, amd_l2_l3: None, extended: None, basic: None, topology_v2: None, topology_v1: None };
    let p = profile_from_x86(&bare, 0);
    assert_eq!(p.l2_bytes_per_core, 1024 * 1024);
    assert_eq!(p.l3_bytes, 8 * 1024 * 1024);
    assert_eq!(p.physical_cores, 1);
    assert_eq!(p.logical_threads, 1);
}

#[test]
fn sysfs_sizes() {
    assert_eq!(parse_sysfs_size("512K\n"), Some(512 * 1024));
    assert_eq!(parse_sysfs_size(" 8m"), Some(8 * 1024 * 1024));
    assert_eq!(parse_sysfs_size("+4096"), Some(4096));
    assert_eq!(parse_sysfs_size("12x"), None);
    assert_eq!(parse_sysfs_size("K"), None);
    assert_eq!(parse_sysfs_size("99999999999999999999"), None);
    assert!(sysfs_size_fits("512K"));
    assert!(!sysfs_size_fits("18446744073709551615K"));
    let p = profile_from_aarch64(Some("2048K"), None, 6);
    assert_eq!(p.l2_bytes_per_core, 2048 * 1024);
    assert_eq!(p.l3_bytes, 8 * 1024 * 1024);
    assert!(p.has_neon);
    assert_eq!(p.physical_cores, 6);
}

#[test]
fn cpu_threads_default_to_physical_cores() {
    assert_eq!(select_cpu_threads(8, 16, None, false), 8);
    assert_eq!(select_cpu_threads(0, 0, None, false), 1);
    assert_eq!(select_cpu_threads(8, 4, None, false), 8);
}

#[test]
fn cpu_threads_under_wsl_use_two_thirds() {
    assert_eq!(select_cpu_threads(24, 24, None, true), 16);
    assert_eq!(select_cpu_threads(4, 8, None, true), 3);
    assert_eq!(select_cpu_threads(1, 1, None, true), 1);
}

#[test]
fn cpu_threads_setting() {
    assert_eq!(select_cpu_threads(8, 16, Some(" Physical "), true), 8);
    assert_eq!(select_cpu_threads(8, 16, Some("p"), false), 8);
    assert_eq!(select_cpu_threads(8, 16, Some("ALL"), false), 16);
    assert_eq!(select_cpu_threads(8, 16, Some("logical"), false), 16);
    assert_eq!(select_cpu_threads(8, 16, Some("12"), false), 12);
    assert_eq!(select_cpu_threads(8, 16, Some("+3"), false), 3);
    assert_eq!(select_cpu_threads(8, 16, Some("64"), false), 16);
    assert_eq!(select_cpu_threads(8, 16, Some("0"), false), 8);
    assert_eq!(select_cpu_threads(8, 16, Some("lots"), false), 8);
    assert_eq!(select_cpu_threads(24, 24, Some("-2"), true), 16);
}
