//! Element types. Mirrors GGML's `ggml_type` plus standard non-quantized types.
use vstd::prelude::*;

use crate::error::FellmError;

verus! {

/// The element type of a tensor.
///
/// The numeric code of each variant ([`DType::ggml_code`]) is stable and matches
/// GGUF's `ggml_type` where applicable.
#[allow(non_camel_case_types)]
#[derive(Debug, Clone, Copy, PartialEq, Eq, Hash, Structural)]
pub enum DType {
    /// IEEE 754 single-precision.
    F32,
    /// IEEE 754 half-precision.
    F16,
    /// GGUF `Q4_0`.
    Q4_0,
    /// GGUF `Q4_1`.
    Q4_1,
    /// GGUF `Q5_0`.
    Q5_0,
    /// GGUF `Q5_1`.
    Q5_1,
    /// GGUF `Q8_0`.
    Q8_0,
    /// GGUF `Q8_1`.
    Q8_1,
    /// GGUF `Q2_K`.
    Q2K,
    /// GGUF `Q3_K`.
    Q3K,
    /// GGUF `Q4_K`.
    Q4K,
    /// GGUF `Q5_K`.
    Q5K,
    /// GGUF `Q6_K`.
    Q6K,
    /// GGUF `Q8_K`.
    Q8K,
    /// GGUF `IQ2_XXS`.
    IQ2XXS,
    /// GGUF `IQ2_XS`.
    IQ2XS,
    /// GGUF `IQ3_XXS`.
    IQ3XXS,
    /// GGUF `IQ1_S`.
    IQ1S,
    /// GGUF `IQ4_NL`.
    IQ4NL,
    /// GGUF `IQ3_S`.
    IQ3S,
    /// GGUF `IQ2_S`.
    IQ2S,
    /// GGUF `IQ4_XS`.
    IQ4XS,
    /// Signed 8-bit.
    I8,
    /// Signed 16-bit.
    I16,
    /// Signed 32-bit.
    I32,
    /// Signed 64-bit.
    I64,
    /// IEEE 754 double-precision.
    F64,
    /// GGUF `IQ1_M`.
    IQ1M,
    /// bfloat16.
    BF16,
    /// GGUF `MXFP4`.
    MXFP4,
    /// Unsigned 8-bit (runtime-only; not a GGUF payload type).
    U8,
    /// Unsigned 16-bit (runtime-only).
    U16,
    /// Unsigned 32-bit token / index buffers (runtime-only).
    U32,
    /// Unsigned 64-bit (runtime-only).
    U64,
    /// Bool as 1 byte (runtime-only).
    Bool,
}

/// True when `code` is the `ggml_type` code of some [`DType`].
pub open spec fn is_known_ggml_code(code: u32) -> bool {
    ||| code <= 30 && code != 4 && code != 5
    ||| code == 39
    ||| 200 <= code <= 204
}

impl DType {
    /// The stable numeric code of this dtype (`ggml_type` for GGUF payload types).
    pub open spec fn code(self) -> u32 {
        match self {
            DType::F32 => 0,
            DType::F16 => 1,
            DType::Q4_0 => 2,
            DType::Q4_1 => 3,
            DType::Q5_0 => 6,
            DType::Q5_1 => 7,
            DType::Q8_0 => 8,
            DType::Q8_1 => 9,
            DType::Q2K => 10,
            DType::Q3K => 11,
            DType::Q4K => 12,
            DType::Q5K => 13,
            DType::Q6K => 14,
            DType::Q8K => 15,
            DType::IQ2XXS => 16,
            DType::IQ2XS => 17,
            DType::IQ3XXS => 18,
            DType::IQ1S => 19,
            DType::IQ4NL => 20,
            DType::IQ3S => 21,
            DType::IQ2S => 22,
            DType::IQ4XS => 23,
            DType::I8 => 24,
            DType::I16 => 25,
            DType::I32 => 26,
            DType::I64 => 27,
            DType::F64 => 28,
            DType::IQ1M => 29,
            DType::BF16 => 30,
            DType::MXFP4 => 39,
            DType::U8 => 200,
            DType::U16 => 201,
            DType::U32 => 202,
            DType::U64 => 203,
            DType::Bool => 204,
        }
    }

    /// Elements packed in one block.
    pub open spec fn spec_elements_per_block(self) -> nat {
        match self {
            DType::F32 => 1,
            DType::F16 => 1,
            DType::Q4_0 => 32,
            DType::Q4_1 => 32,
            DType::Q5_0 => 32,
            DType::Q5_1 => 32,
            DType::Q8_0 => 32,
            DType::Q8_1 => 32,
            DType::Q2K => 256,
            DType::Q3K => 256,
            DType::Q4K => 256,
            DType::Q5K => 256,
            DType::Q6K => 256,
            DType::Q8K => 256,
            DType::IQ2XXS => 256,
            DType::IQ2XS => 256,
            DType::IQ3XXS => 256,
            DType::IQ1S => 256,
            DType::IQ4NL => 32,
            DType::IQ3S => 256,
            DType::IQ2S => 256,
            DType::IQ4XS => 256,
            DType::I8 => 1,
            DType::I16 => 1,
            DType::I32 => 1,
            DType::I64 => 1,
            DType::F64 => 1,
            DType::IQ1M => 256,
            DType::BF16 => 1,
            DType::MXFP4 => 32,
            DType::U8 => 1,
            DType::U16 => 1,
            DType::U32 => 1,
            DType::U64 => 1,
            DType::Bool => 1,
        }
    }

    /// Bytes in one block.
    pub open spec fn spec_bytes_per_block(self) -> nat {
        match self {
            DType::F32 => 4,
            DType::F16 => 2,
            DType::Q4_0 => 18,
            DType::Q4_1 => 20,
            DType::Q5_0 => 22,
            DType::Q5_1 => 24,
            DType::Q8_0 => 34,
            DType::Q8_1 => 36,
            DType::Q2K => 84,
            DType::Q3K => 110,
            DType::Q4K => 144,
            DType::Q5K => 176,
            DType::Q6K => 210,
            DType::Q8K => 292,
            DType::IQ2XXS => 66,
            DType::IQ2XS => 74,
            DType::IQ3XXS => 98,
            DType::IQ1S => 50,
            DType::IQ4NL => 18,
            DType::IQ3S => 110,
            DType::IQ2S => 82,
            DType::IQ4XS => 136,
            DType::I8 => 1,
            DType::I16 => 2,
            DType::I32 => 4,
            DType::I64 => 8,
            DType::F64 => 8,
            DType::IQ1M => 56,
            DType::BF16 => 2,
            DType::MXFP4 => 17,
            DType::U8 => 1,
            DType::U16 => 2,
            DType::U32 => 4,
            DType::U64 => 8,
            DType::Bool => 1,
        }
    }

    /// True for the GGUF k-quant / legacy quant formats.
    pub open spec fn spec_is_quantized(self) -> bool {
        match self {
            DType::F32 => false,
            DType::F16 => false,
            DType::Q4_0 => true,
            DType::Q4_1 => true,
            DType::Q5_0 => true,
            DType::Q5_1 => true,
            DType::Q8_0 => true,
            DType::Q8_1 => true,
            DType::Q2K => true,
            DType::Q3K => true,
            DType::Q4K => true,
            DType::Q5K => true,
            DType::Q6K => true,
            DType::Q8K => true,
            DType::IQ2XXS => true,
            DType::IQ2XS => true,
            DType::IQ3XXS => true,
            DType::IQ1S => true,
            DType::IQ4NL => true,
            DType::IQ3S => true,
            DType::IQ2S => true,
            DType::IQ4XS => true,
            DType::I8 => false,
            DType::I16 => false,
            DType::I32 => false,
            DType::I64 => false,
            DType::F64 => false,
            DType::IQ1M => true,
            DType::BF16 => false,
            DType::MXFP4 => true,
            DType::U8 => false,
            DType::U16 => false,
            DType::U32 => false,
            DType::U64 => false,
            DType::Bool => false,
        }
    }

    /// Bytes needed for `n` elements: whole blocks, rounded up.
    pub open spec fn spec_byte_size(self, n: nat) -> nat {
        (((n + self.spec_elements_per_block() - 1) as nat) / self.spec_elements_per_block())
            * self.spec_bytes_per_block()
    }

    /// The numeric code of this dtype.
    pub fn ggml_code(self) -> (c: u32)
        ensures
            c == self.code(),
    {
        match self {
            DType::F32 => 0,
            DType::F16 => 1,
            DType::Q4_0 => 2,
            DType::Q4_1 => 3,
            DType::Q5_0 => 6,
            DType::Q5_1 => 7,
            DType::Q8_0 => 8,
            DType::Q8_1 => 9,
            DType::Q2K => 10,
            DType::Q3K => 11,
            DType::Q4K => 12,
            DType::Q5K => 13,
            DType::Q6K => 14,
            DType::Q8K => 15,
            DType::IQ2XXS => 16,
            DType::IQ2XS => 17,
            DType::IQ3XXS => 18,
            DType::IQ1S => 19,
            DType::IQ4NL => 20,
            DType::IQ3S => 21,
            DType::IQ2S => 22,
            DType::IQ4XS => 23,
            DType::I8 => 24,
            DType::I16 => 25,
            DType::I32 => 26,
            DType::I64 => 27,
            DType::F64 => 28,
            DType::IQ1M => 29,
            DType::BF16 => 30,
            DType::MXFP4 => 39,
            DType::U8 => 200,
            DType::U16 => 201,
            DType::U32 => 202,
            DType::U64 => 203,
            DType::Bool => 204,
        }
    }

    /// Convert from the raw `ggml_type` code as it appears in GGUF files.
    pub fn from_ggml_code(code: u32) -> (r: Result<DType, FellmError>)
        ensures
            r is Ok <==> is_known_ggml_code(code),
            r matches Ok(d) ==> d.code() == code,
            r matches Err(e) ==> e == FellmError::UnknownDType(code),
    {
        match code {
            0 => Ok(DType::F32),
            1 => Ok(DType::F16),
            2 => Ok(DType::Q4_0),
            3 => Ok(DType::Q4_1),
            6 => Ok(DType::Q5_0),
            7 => Ok(DType::Q5_1),
            8 => Ok(DType::Q8_0),
            9 => Ok(DType::Q8_1),
            10 => Ok(DType::Q2K),
            11 => Ok(DType::Q3K),
            12 => Ok(DType::Q4K),
            13 => Ok(DType::Q5K),
            14 => Ok(DType::Q6K),
            15 => Ok(DType::Q8K),
            16 => Ok(DType::IQ2XXS),
            17 => Ok(DType::IQ2XS),
            18 => Ok(DType::IQ3XXS),
            19 => Ok(DType::IQ1S),
            20 => Ok(DType::IQ4NL),
            21 => Ok(DType::IQ3S),
            22 => Ok(DType::IQ2S),
            23 => Ok(DType::IQ4XS),
            24 => Ok(DType::I8),
            25 => Ok(DType::I16),
            26 => Ok(DType::I32),
            27 => Ok(DType::I64),
            28 => Ok(DType::F64),
            29 => Ok(DType::IQ1M),
            30 => Ok(DType::BF16),
            39 => Ok(DType::MXFP4),
            200 => Ok(DType::U8),
            201 => Ok(DType::U16),
            202 => Ok(DType::U32),
            203 => Ok(DType::U64),
            204 => Ok(DType::Bool),
            other => Err(FellmError::UnknownDType(other)),
        }
    }

    /// Number of elements packed in one block; 1 for non-quantized types.
    pub fn elements_per_block(self) -> (n: usize)
        ensures
            n == self.spec_elements_per_block(),
    {
        match self {
            DType::Q4_0 | DType::Q4_1 | DType::Q5_0 | DType::Q5_1 | DType::Q8_0 | DType::Q8_1 => 32,
            DType::Q2K | DType::Q3K | DType::Q4K | DType::Q5K | DType::Q6K | DType::Q8K
            | DType::IQ2XXS | DType::IQ2XS | DType::IQ3XXS | DType::IQ1S | DType::IQ3S
            | DType::IQ2S | DType::IQ4XS | DType::IQ1M => 256,
            DType::IQ4NL => 32,
            DType::MXFP4 => 32,
            _ => 1,
        }
    }

    /// Number of bytes in one block.
    pub fn bytes_per_block(self) -> (n: usize)
        ensures
            n == self.spec_bytes_per_block(),
    {
        match self {
            DType::F32 | DType::I32 | DType::U32 => 4,
            DType::F64 | DType::I64 | DType::U64 => 8,
            DType::F16 | DType::BF16 | DType::I16 | DType::U16 => 2,
            DType::I8 | DType::U8 | DType::Bool => 1,
            // 2 bytes scale (fp16) + 16 bytes weights
            DType::Q4_0 => 18,
            // 2 bytes scale + 2 bytes min + 16 bytes weights
            DType::Q4_1 => 20,
            // 2 bytes scale + 4 bytes qh + 16 bytes weights
            DType::Q5_0 => 22,
            DType::Q5_1 => 24,
            // 2 bytes scale + 32 bytes weights
            DType::Q8_0 => 34,
            DType::Q8_1 => 36,
            // super-blocks of 256 weights
            DType::Q2K => 84,
            DType::Q3K => 110,
            DType::Q4K => 144,
            DType::Q5K => 176,
            DType::Q6K => 210,
            DType::Q8K => 292,
            DType::IQ2XXS => 66,
            DType::IQ2XS => 74,
            DType::IQ3XXS => 98,
            DType::IQ1S => 50,
            DType::IQ4NL => 18,
            DType::IQ3S => 110,
            DType::IQ2S => 82,
            DType::IQ4XS => 136,
            DType::IQ1M => 56,
            DType::MXFP4 => 17,
        }
    }

    /// True if this type is a GGUF k-quant / legacy quant format.
    pub fn is_quantized(self) -> (b: bool)
        ensures
            b == self.spec_is_quantized(),
    {
        match self {
            DType::Q4_0 | DType::Q4_1 | DType::Q5_0 | DType::Q5_1 | DType::Q8_0 | DType::Q8_1
            | DType::Q2K | DType::Q3K | DType::Q4K | DType::Q5K | DType::Q6K | DType::Q8K
            | DType::IQ2XXS | DType::IQ2XS | DType::IQ3XXS | DType::IQ1S | DType::IQ4NL
            | DType::IQ3S | DType::IQ2S | DType::IQ4XS | DType::IQ1M | DType::MXFP4 => true,
            _ => false,
        }
    }

    /// True if this is a dense floating point type.
    pub fn is_float(self) -> (b: bool)
        ensures
            b == (self == DType::F32 || self == DType::F16 || self == DType::BF16),
    {
        match self {
            DType::F32 | DType::F16 | DType::BF16 => true,
            _ => false,
        }
    }

    /// Compute the number of bytes needed to store `n_elements` of this dtype
    /// (rounded up to whole blocks).
    pub fn byte_size(self, n_elements: usize) -> (n: usize)
        requires
            self.spec_byte_size(n_elements as nat) <= usize::MAX,
        ensures
            n == self.spec_byte_size(n_elements as nat),
    {
        let epb = self.elements_per_block();
        let bpb = self.bytes_per_block();
        let blocks = n_elements / epb + if n_elements % epb == 0 { 0 } else { 1 };
        proof {
            lemma_div_ceil(n_elements as nat, epb as nat);
        }
        blocks * bpb
    }

    /// Lower-case display name of the dtype (as in `q4_k`).
    pub fn name(self) -> (s: &'static str)
        ensures
            s@ == self.spec_name(),
    {
        match self {
            DType::F32 => { proof { reveal_strlit("f32"); } "f32" }
            DType::F16 => { proof { reveal_strlit("f16"); } "f16" }
            DType::Q4_0 => { proof { reveal_strlit("q4_0"); } "q4_0" }
            DType::Q4_1 => { proof { reveal_strlit("q4_1"); } "q4_1" }
            DType::Q5_0 => { proof { reveal_strlit("q5_0"); } "q5_0" }
            DType::Q5_1 => { proof { reveal_strlit("q5_1"); } "q5_1" }
            DType::Q8_0 => { proof { reveal_strlit("q8_0"); } "q8_0" }
            DType::Q8_1 => { proof { reveal_strlit("q8_1"); } "q8_1" }
            DType::Q2K => { proof { reveal_strlit("q2_k"); } "q2_k" }
            DType::Q3K => { proof { reveal_strlit("q3_k"); } "q3_k" }
            DType::Q4K => { proof { reveal_strlit("q4_k"); } "q4_k" }
            DType::Q5K => { proof { reveal_strlit("q5_k"); } "q5_k" }
            DType::Q6K => { proof { reveal_strlit("q6_k"); } "q6_k" }
            DType::Q8K => { proof { reveal_strlit("q8_k"); } "q8_k" }
            DType::IQ2XXS => { proof { reveal_strlit("iq2_xxs"); } "iq2_xxs" }
            DType::IQ2XS => { proof { reveal_strlit("iq2_xs"); } "iq2_xs" }
            DType::IQ3XXS => { proof { reveal_strlit("iq3_xxs"); } "iq3_xxs" }
            DType::IQ1S => { proof { reveal_strlit("iq1_s"); } "iq1_s" }
            DType::IQ4NL => { proof { reveal_strlit("iq4_nl"); } "iq4_nl" }
            DType::IQ3S => { proof { reveal_strlit("iq3_s"); } "iq3_s" }
            DType::IQ2S => { proof { reveal_strlit("iq2_s"); } "iq2_s" }
            DType::IQ4XS => { proof { reveal_strlit("iq4_xs"); } "iq4_xs" }
            DType::I8 => { proof { reveal_strlit("i8"); } "i8" }
            DType::I16 => { proof { reveal_strlit("i16"); } "i16" }
            DType::I32 => { proof { reveal_strlit("i32"); } "i32" }
            DType::I64 => { proof { reveal_strlit("i64"); } "i64" }
            DType::F64 => { proof { reveal_strlit("f64"); } "f64" }
            DType::IQ1M => { proof { reveal_strlit("iq1_m"); } "iq1_m" }
            DType::BF16 => { proof { reveal_strlit("bf16"); } "bf16" }
            DType::MXFP4 => { proof { reveal_strlit("mxfp4"); } "mxfp4" }
            DType::U8 => { proof { reveal_strlit("u8"); } "u8" }
            DType::U16 => { proof { reveal_strlit("u16"); } "u16" }
            DType::U32 => { proof { reveal_strlit("u32"); } "u32" }
            DType::U64 => { proof { reveal_strlit("u64"); } "u64" }
            DType::Bool => { proof { reveal_strlit("bool"); } "bool" }
        }
    }

    /// Lower-case display name of the dtype.
    pub open spec fn spec_name(self) -> Seq<char> {
        match self {
            DType::F32 => "f32"@,
            DType::F16 => "f16"@,
            DType::Q4_0 => "q4_0"@,
            DType::Q4_1 => "q4_1"@,
            DType::Q5_0 => "q5_0"@,
            DType::Q5_1 => "q5_1"@,
            DType::Q8_0 => "q8_0"@,
            DType::Q8_1 => "q8_1"@,
            DType::Q2K => "q2_k"@,
            DType::Q3K => "q3_k"@,
            DType::Q4K => "q4_k"@,
            DType::Q5K => "q5_k"@,
            DType::Q6K => "q6_k"@,
            DType::Q8K => "q8_k"@,
            DType::IQ2XXS => "iq2_xxs"@,
            DType::IQ2XS => "iq2_xs"@,
            DType::IQ3XXS => "iq3_xxs"@,
            DType::IQ1S => "iq1_s"@,
            DType::IQ4NL => "iq4_nl"@,
            DType::IQ3S => "iq3_s"@,
            DType::IQ2S => "iq2_s"@,
            DType::IQ4XS => "iq4_xs"@,
            DType::I8 => "i8"@,
            DType::I16 => "i16"@,
            DType::I32 => "i32"@,
            DType::I64 => "i64"@,
            DType::F64 => "f64"@,
            DType::IQ1M => "iq1_m"@,
            DType::BF16 => "bf16"@,
            DType::MXFP4 => "mxfp4"@,
            DType::U8 => "u8"@,
            DType::U16 => "u16"@,
            DType::U32 => "u32"@,
            DType::U64 => "u64"@,
            DType::Bool => "bool"@,
        }
    }
}

/// Ceiling division expressed with `/` and `%`.
pub proof fn lemma_div_ceil(n: nat, d: nat)
    requires
        d > 0,
    ensures
        ((n + d - 1) as nat) / d == n / d + if n % d == 0 { 0int } else { 1int },
{
    vstd::arithmetic::div_mod::lemma_fundamental_div_mod(n as int, d as int);
    let q = n / d;
    let r = n % d;
    assert(n == q * d + r) by (nonlinear_arith)
        requires
            n == d * q + r,
    ;
    if r == 0 {
        assert((n + d - 1) as nat == q * d + (d - 1));
        vstd::arithmetic::div_mod::lemma_fundamental_div_mod_converse(
            (n + d - 1) as int,
            d as int,
            q as int,
            (d - 1) as int,
        );
    } else {
        assert((n + d - 1) as nat == (q + 1) * d + (r - 1)) by (nonlinear_arith)
            requires
                n == q * d + r,
                r >= 1,
        ;
        vstd::arithmetic::div_mod::lemma_fundamental_div_mod_converse(
            (n + d - 1) as int,
            d as int,
            (q + 1) as int,
            (r - 1) as int,
        );
    }
}

/// Elements in a k-quant super-block (`QK_K`).
pub open spec fn qk_k() -> nat {
    256
}

/// Elements in a legacy quant block (`QK4_0`, `QK8_0`, ...).
pub open spec fn qk() -> nat {
    32
}

/// Each dtype's block matches its ggml layout: the elements it holds, and its bytes as the
/// sum of its fields (an `f16` scale is 2 bytes, a 4-bit weight half a byte, ...).
pub proof fn lemma_block_layouts(d: DType)
    ensures
        match d {
            DType::F32 | DType::I32 | DType::U32 => d.spec_elements_per_block() == 1 && d.spec_bytes_per_block() == 4,
            DType::F64 | DType::I64 | DType::U64 => d.spec_elements_per_block() == 1 && d.spec_bytes_per_block() == 8,
            DType::F16 | DType::BF16 | DType::I16 | DType::U16 => d.spec_elements_per_block() == 1
                && d.spec_bytes_per_block() == 2,
            DType::I8 | DType::U8 | DType::Bool => d.spec_elements_per_block() == 1 && d.spec_bytes_per_block() == 1,
            // d (f16), 4-bit quants
            DType::Q4_0 => d.spec_elements_per_block() == qk() && d.spec_bytes_per_block() == 2 + qk() / 2,
            // d, m (f16), 4-bit quants
            DType::Q4_1 => d.spec_elements_per_block() == qk() && d.spec_bytes_per_block() == 2 + 2 + qk() / 2,
            // d (f16), high bits, 4-bit quants
            DType::Q5_0 => d.spec_elements_per_block() == qk() && d.spec_bytes_per_block() == 2 + qk() / 8 + qk() / 2,
            // d, m (f16), high bits, 4-bit quants
            DType::Q5_1 => d.spec_elements_per_block() == qk() && d.spec_bytes_per_block() == 2 + 2 + qk() / 8 + qk()
                / 2,
            // d (f16), 8-bit quants
            DType::Q8_0 => d.spec_elements_per_block() == qk() && d.spec_bytes_per_block() == 2 + qk(),
            // d, s (f16), 8-bit quants
            DType::Q8_1 => d.spec_elements_per_block() == qk() && d.spec_bytes_per_block() == 2 + 2 + qk(),
            // scales and mins (4 bits each), 2-bit quants, d, dmin (f16)
            DType::Q2K => d.spec_elements_per_block() == qk_k() && d.spec_bytes_per_block() == qk_k() / 16 + qk_k() / 4
                + 2 + 2,
            // high-bit mask, 2-bit quants, 12 scale bytes, d (f16)
            DType::Q3K => d.spec_elements_per_block() == qk_k() && d.spec_bytes_per_block() == qk_k() / 8 + qk_k() / 4
                + 12 + 2,
            // d, dmin (f16), 12 scale bytes, 4-bit quants
            DType::Q4K => d.spec_elements_per_block() == qk_k() && d.spec_bytes_per_block() == 2 + 2 + 12 + qk_k() / 2,
            // d, dmin (f16), 12 scale bytes, high bits, 4-bit quants
            DType::Q5K => d.spec_elements_per_block() == qk_k() && d.spec_bytes_per_block() == 2 + 2 + 12 + qk_k() / 8
                + qk_k() / 2,
            // low 4 bits, high 2 bits, 8-bit scales, d (f16)
            DType::Q6K => d.spec_elements_per_block() == qk_k() && d.spec_bytes_per_block() == qk_k() / 2 + qk_k() / 4
                + qk_k() / 16 + 2,
            // d (f32), 8-bit quants, 16-bit block sums
            DType::Q8K => d.spec_elements_per_block() == qk_k() && d.spec_bytes_per_block() == 4 + qk_k() + 2 * (qk_k()
                / 16),
            // d (f16), 16-bit grid indices
            DType::IQ2XXS => d.spec_elements_per_block() == qk_k() && d.spec_bytes_per_block() == 2 + 2 * (qk_k() / 8),
            // d (f16), 16-bit grid indices, 4-bit scales
            DType::IQ2XS => d.spec_elements_per_block() == qk_k() && d.spec_bytes_per_block() == 2 + 2 * (qk_k() / 8)
                + qk_k() / 32,
            // d (f16), 3 bytes per 8 weights
            DType::IQ3XXS => d.spec_elements_per_block() == qk_k() && d.spec_bytes_per_block() == 2 + 3 * (qk_k() / 8),
            // d (f16), grid indices, 16-bit high parts
            DType::IQ1S => d.spec_elements_per_block() == qk_k() && d.spec_bytes_per_block() == 2 + qk_k() / 8 + 2 * (
            qk_k() / 32),
            // d (f16), 4-bit quants
            DType::IQ4NL => d.spec_elements_per_block() == qk() && d.spec_bytes_per_block() == 2 + qk() / 2,
            // d (f16), low bytes, high bits, signs, scales
            DType::IQ3S => d.spec_elements_per_block() == qk_k() && d.spec_bytes_per_block() == 2 + qk_k() / 4 + qk_k()
                / 32 + qk_k() / 8 + qk_k() / 64,
            // d (f16), grid and sign bytes, high bits and scales
            DType::IQ2S => d.spec_elements_per_block() == qk_k() && d.spec_bytes_per_block() == 2 + qk_k() / 4 + qk_k()
                / 16,
            // d (f16), high scale bits (u16), low scale bits, 4-bit quants
            DType::IQ4XS => d.spec_elements_per_block() == qk_k() && d.spec_bytes_per_block() == 2 + 2 + qk_k() / 64
                + qk_k() / 2,
            // grid indices, high bits, scales
            DType::IQ1M => d.spec_elements_per_block() == qk_k() && d.spec_bytes_per_block() == qk_k() / 8 + qk_k() / 16
                + qk_k() / 32,
            // shared exponent (e8m0), 4-bit values
            DType::MXFP4 => d.spec_elements_per_block() == qk() && d.spec_bytes_per_block() == 1 + qk() / 2,
        },
{
}

/// A type is quantized exactly when its elements come in blocks of more than one, and then
/// a block takes fewer bytes than its elements would as `f16`.
pub proof fn lemma_quantized_means_blocks(d: DType)
    ensures
        d.spec_is_quantized() <==> d.spec_elements_per_block() > 1,
        d.spec_is_quantized() ==> d.spec_bytes_per_block() < 2 * d.spec_elements_per_block(),
{
}

/// Whole blocks take exactly their bytes: `k` blocks' worth of elements need `k` times the
/// block's bytes, and one more element starts another block.
pub proof fn lemma_byte_size_of_blocks(d: DType, k: nat)
    ensures
        d.spec_byte_size(k * d.spec_elements_per_block()) == k * d.spec_bytes_per_block(),
        d.spec_byte_size(k * d.spec_elements_per_block() + 1) == (k + 1) * d.spec_bytes_per_block(),
{
    let e = d.spec_elements_per_block();
    assert(e >= 1);
    lemma_div_ceil(k * e, e);
    lemma_div_ceil(k * e + 1, e);
    vstd::arithmetic::div_mod::lemma_mod_multiples_basic(k as int, e as int);
    vstd::arithmetic::div_mod::lemma_div_multiples_vanish(k as int, e as int);
    if e == 1 {
        assert((k * e + 1) / e == k + 1);
        assert((k * e + 1) % e == 0);
    } else {
        vstd::arithmetic::div_mod::lemma_div_multiples_vanish_fancy(k as int, 1, e as int);
        vstd::arithmetic::div_mod::lemma_mod_multiples_vanish(k as int, 1, e as int);
        vstd::arithmetic::div_mod::lemma_small_mod(1, e);
    }
}

/// The dtype code is injective: distinct dtypes have distinct codes.
pub proof fn lemma_code_injective(a: DType, b: DType)
    ensures
        a.code() == b.code() ==> a == b,
{
}

/// Every dtype's code is known, so decoding the code of a dtype gives it back.
pub proof fn lemma_code_known(d: DType)
    ensures
        is_known_ggml_code(d.code()),
{
}

} // verus!
