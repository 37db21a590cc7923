//! Integer decisions of the CPU kernels: the deterministic sampler's mixing function,
//! the traced MLA layers, and which weight types the matrix-vector kernels take.
use vstd::prelude::*;

use crate::dtype::DType;

verus! {

/// The SplitMix64 output function of `x`: add the golden-ratio increment, then two
/// xor-shift-multiply rounds and a final xor-shift, all modulo 2^64.
pub open spec fn spec_splitmix64(x: u64) -> u64 {
    let m: nat = 0x1_0000_0000_0000_0000;
    let x1 = ((x as nat + 0x9E37_79B9_7F4A_7C15nat) % m) as u64;
    let z1 = (((x1 ^ (x1 >> 30u64)) as nat * 0xBF58_476D_1CE4_E5B9nat) % m) as u64;
    let z2 = (((z1 ^ (z1 >> 27u64)) as nat * 0x94D0_49BB_1331_11EBnat) % m) as u64;
    z2 ^ (z2 >> 31u64)
}

/// SplitMix64: a bijective 64-bit mixing function.
pub fn splitmix64(x: u64) -> (r: u64)
    ensures
        r == spec_splitmix64(x),
{
    let x0 = x;
    let x = x.wrapping_add(0x9E37_79B9_7F4A_7C15);
    proof {
        let m: nat = 0x1_0000_0000_0000_0000;
        let s = x0 as nat + 0x9E37_79B9_7F4A_7C15nat;
        if s >= m {
            vstd::arithmetic::div_mod::lemma_fundamental_div_mod_converse(s as int, m as int, 1, s - m);
        } else {
            vstd::arithmetic::div_mod::lemma_small_mod(s, m);
        }
    }
    let mut z = x;
    z = (z ^ (z >> 30)).wrapping_mul(0xBF58_476D_1CE4_E5B9);
    z = (z ^ (z >> 27)).wrapping_mul(0x94D0_49BB_1331_11EB);
    z ^ (z >> 31)
}

/// Whether MLA diagnostics are traced for the layer at this ordinal (0, 1, 8 and 9).
pub fn mla_trace_layer(layer_ord: u32) -> (b: bool)
    ensures
        b == (layer_ord == 0 || layer_ord == 1 || layer_ord == 8 || layer_ord == 9),
{
    match layer_ord {
        0 | 1 | 8 | 9 => true,
        _ => false,
    }
}

/// Weight types the CPU matrix-vector kernels accept.
pub open spec fn matvec_weight_dtype(d: DType) -> bool {
    match d {
        DType::F32 | DType::BF16 | DType::Q4_0 | DType::Q5_0 | DType::Q8_0 | DType::F16 | DType::Q2K
        | DType::Q4K | DType::Q5K | DType::Q6K | DType::IQ2XXS | DType::IQ2XS | DType::IQ3XXS
        | DType::IQ3S | DType::MXFP4 => true,
        _ => false,
    }
}

/// Whether the CPU matrix-vector kernels accept weights of this type.
pub fn is_supported_matvec_weight_dtype(dtype: DType) -> (b: bool)
    ensures
        b == matvec_weight_dtype(dtype),
{
    match dtype {
        DType::F32 | DType::BF16 | DType::Q4_0 | DType::Q5_0 | DType::Q8_0 | DType::F16 | DType::Q2K
        | DType::Q4K | DType::Q5K | DType::Q6K | DType::IQ2XXS | DType::IQ2XS | DType::IQ3XXS
        | DType::IQ3S | DType::MXFP4 => true,
        _ => false,
    }
}

} // verus!
