//! Bit-level decoding of the K-quant super-block fields (Q4_K and Q5_K): the 12-byte
//! packed 6-bit scales and minima, and the packed 4- and 5-bit weights.
use vstd::prelude::*;

verus! {

/// Number of weights in one K-quant super-block.
pub const QK_K: usize = 256;

const KMASK1: u32 = 0x3f3f_3f3f;
const KMASK2: u32 = 0x0f0f_0f0f;
const KMASK3: u32 = 0x0303_0303;

/// The 6-bit scale and 6-bit minimum of sub-block `j` (0..8) in the 12-byte packed
/// field `q`: sub-blocks 0..4 keep them in the low 6 bits of bytes `j` and `j + 4`;
/// sub-blocks 4..8 keep their low 4 bits in the nibbles of byte `j + 4` and their
/// high 2 bits in the top bits of bytes `j - 4` and `j`.
pub open spec fn scale_min(j: int, q: Seq<u8>) -> (u8, u8) {
    if j < 4 {
        (q[j] & 63, q[j + 4] & 63)
    } else {
        ((q[j + 4] & 0x0F) | ((q[j - 4] >> 6u8) << 4u8), (q[j + 4] >> 4u8) | ((q[j] >> 6u8) << 4u8))
    }
}

/// The 12-byte field that packs eight 6-bit scales `ls` and minima `lm` (ggml layout).
pub open spec fn pack_scales_mins(ls: Seq<u8>, lm: Seq<u8>) -> Seq<u8> {
    Seq::new(12, |k: int|
        if k < 4 {
            (ls[k] & 63) | ((ls[k + 4] >> 4u8) << 6u8)
        } else if k < 8 {
            (lm[k - 4] & 63) | ((lm[k] >> 4u8) << 6u8)
        } else {
            (ls[k - 4] & 0x0F) | ((lm[k - 4] & 0x0F) << 4u8)
        })
}

/// Get the (scale, min) of sub-block `j` from the packed 12-byte scales field.
pub fn get_scale_min_k4(j: usize, q: &[u8]) -> (r: (u8, u8))
    requires
        j < 8,
        q@.len() >= 12,
    ensures
        r == scale_min(j as int, q@),
{
    if j < 4 {
        (q[j] & 63, q[j + 4] & 63)
    } else {
        let d = (q[j + 4] & 0x0F) | ((q[j - 4] >> 6) << 4);
        let m = (q[j + 4] >> 4) | ((q[j] >> 6) << 4);
        (d, m)
    }
}

/// Byte `shift / 8` of a little-endian `u32`.
pub open spec fn byte_of(x: u32, shift: u32) -> u8 {
    ((x >> shift) & 0xFF) as u8
}

/// A little-endian `u32` from four bytes.
pub open spec fn le_word(a: u8, b: u8, c: u8, d: u8) -> u32 {
    (a as u32) | ((b as u32) << 8u32) | ((c as u32) << 16u32) | ((d as u32) << 24u32)
}

/// The four `u32` words ggml derives from the 12-byte scales field: the eight scales in
/// the bytes of the first two, the eight minima in the bytes of the last two.
pub open spec fn utmp_words(q0: u8, q1: u8, q2: u8, q3: u8, q4: u8, q5: u8, q6: u8, q7: u8, q8: u8, q9: u8, q10: u8, q11: u8) -> [u32; 4] {
    let w0 = le_word(q0, q1, q2, q3);
    let w1 = le_word(q4, q5, q6, q7);
    let w2 = le_word(q8, q9, q10, q11);
    [
        w0 & 0x3f3f_3f3fu32,
        (w2 & 0x0f0f_0f0fu32) | (((w0 >> 6u32) & 0x0303_0303u32) << 4u32),
        w1 & 0x3f3f_3f3fu32,
        ((w2 >> 4u32) & 0x0f0f_0f0fu32) | (((w1 >> 6u32) & 0x0303_0303u32) << 4u32),
    ]
}

proof fn lemma_utmp_bytes(q0: u8, q1: u8, q2: u8, q3: u8, q4: u8, q5: u8, q6: u8, q7: u8, q8: u8, q9: u8, q10: u8, q11: u8)
    by (bit_vector)
    ensures
        byte_of(utmp_words(q0, q1, q2, q3, q4, q5, q6, q7, q8, q9, q10, q11)[0], 0u32) == q0 & 63,
        byte_of(utmp_words(q0, q1, q2, q3, q4, q5, q6, q7, q8, q9, q10, q11)[2], 0u32) == q4 & 63,
        byte_of(utmp_words(q0, q1, q2, q3, q4, q5, q6, q7, q8, q9, q10, q11)[0], 8u32) == q1 & 63,
        byte_of(utmp_words(q0, q1, q2, q3, q4, q5, q6, q7, q8, q9, q10, q11)[2], 8u32) == q5 & 63,
        byte_of(utmp_words(q0, q1, q2, q3, q4, q5, q6, q7, q8, q9, q10, q11)[0], 16u32) == q2 & 63,
        byte_of(utmp_words(q0, q1, q2, q3, q4, q5, q6, q7, q8, q9, q10, q11)[2], 16u32) == q6 & 63,
        byte_of(utmp_words(q0, q1, q2, q3, q4, q5, q6, q7, q8, q9, q10, q11)[0], 24u32) == q3 & 63,
        byte_of(utmp_words(q0, q1, q2, q3, q4, q5, q6, q7, q8, q9, q10, q11)[2], 24u32) == q7 & 63,
        byte_of(utmp_words(q0, q1, q2, q3, q4, q5, q6, q7, q8, q9, q10, q11)[1], 0u32) == (q8 & 0x0F) | ((q0 >> 6u8) << 4u8),
        byte_of(utmp_words(q0, q1, q2, q3, q4, q5, q6, q7, q8, q9, q10, q11)[3], 0u32) == (q8 >> 4u8) | ((q4 >> 6u8) << 4u8),
        byte_of(utmp_words(q0, q1, q2, q3, q4, q5, q6, q7, q8, q9, q10, q11)[1], 8u32) == (q9 & 0x0F) | ((q1 >> 6u8) << 4u8),
        byte_of(utmp_words(q0, q1, q2, q3, q4, q5, q6, q7, q8, q9, q10, q11)[3], 8u32) == (q9 >> 4u8) | ((q5 >> 6u8) << 4u8),
        byte_of(utmp_words(q0, q1, q2, q3, q4, q5, q6, q7, q8, q9, q10, q11)[1], 16u32) == (q10 & 0x0F) | ((q2 >> 6u8) << 4u8),
        byte_of(utmp_words(q0, q1, q2, q3, q4, q5, q6, q7, q8, q9, q10, q11)[3], 16u32) == (q10 >> 4u8) | ((q6 >> 6u8) << 4u8),
        byte_of(utmp_words(q0, q1, q2, q3, q4, q5, q6, q7, q8, q9, q10, q11)[1], 24u32) == (q11 & 0x0F) | ((q3 >> 6u8) << 4u8),
        byte_of(utmp_words(q0, q1, q2, q3, q4, q5, q6, q7, q8, q9, q10, q11)[3], 24u32) == (q11 >> 4u8) | ((q7 >> 6u8) << 4u8),
{
}

/// Unpacking what [`pack_scales_mins`] packed gives back every 6-bit scale and minimum.
pub proof fn lemma_scale_min_roundtrip(ls: Seq<u8>, lm: Seq<u8>, j: int)
    requires
        ls.len() == 8,
        lm.len() == 8,
        0 <= j < 8,
        forall|i: int| 0 <= i < 8 ==> #[trigger] ls[i] < 64 && lm[i] < 64,
    ensures
        scale_min(j, pack_scales_mins(ls, lm)) == (ls[j], lm[j]),
{
    let q = pack_scales_mins(ls, lm);
    let (s, m) = (ls[j], lm[j]);
    assert(s < 64 && m < 64);
    if j < 4 {
        let (s4, m4) = (ls[j + 4], lm[j + 4]);
        assert(((s & 63) | ((s4 >> 4u8) << 6u8)) & 63 == s) by (bit_vector)
            requires
                s < 64,
        ;
        assert(((m & 63) | ((m4 >> 4u8) << 6u8)) & 63 == m) by (bit_vector)
            requires
                m < 64,
        ;
    } else {
        let (s0, m0) = (ls[j - 4], lm[j - 4]);
        let b_lo = (s0 & 63) | ((s >> 4u8) << 6u8);
        let b_hi = (m0 & 63) | ((m >> 4u8) << 6u8);
        let b_mid = (s & 0x0F) | ((m & 0x0F) << 4u8);
        assert(q[j - 4] == b_lo);
        assert(q[j] == b_hi);
        assert(q[j + 4] == b_mid);
        assert((b_mid & 0x0F) | ((b_lo >> 6u8) << 4u8) == s) by (bit_vector)
            requires
                s < 64,
                b_lo == (s0 & 63) | ((s >> 4u8) << 6u8),
                b_mid == (s & 0x0F) | ((m & 0x0F) << 4u8),
        ;
        assert((b_mid >> 4u8) | ((b_hi >> 6u8) << 4u8) == m) by (bit_vector)
            requires
                m < 64,
                b_hi == (m0 & 63) | ((m >> 4u8) << 6u8),
                b_mid == (s & 0x0F) | ((m & 0x0F) << 4u8),
        ;
    }
}

/// A little-endian `u32` from the four bytes of `q` starting at `i`.
fn read_le_word(q: &[u8], i: usize) -> (w: u32)
    requires
        i + 4 <= q@.len(),
    ensures
        w == le_word(q@[i as int], q@[i + 1], q@[i + 2], q@[i + 3]),
{
    (q[i] as u32) | ((q[i + 1] as u32) << 8) | ((q[i + 2] as u32) << 16) | ((q[i + 3] as u32) << 24)
}

/// Byte `shift / 8` of `x`.
fn word_byte(x: u32, shift: u32) -> (b: u8)
    requires
        shift < 32,
    ensures
        b == byte_of(x, shift),
{
    ((x >> shift) & 0xFF) as u8
}

/// The four scale/min words of a packed 12-byte scales field (ggml `utmp` layout): the
/// bytes of words 0 and 1 are the eight scales, those of words 2 and 3 the eight minima.
pub fn decode_utmp(scales12: &[u8]) -> (utmp: [u32; 4])
    requires
        scales12@.len() >= 12,
    ensures
        ({
            let q = scales12@;
            utmp == utmp_words(q[0], q[1], q[2], q[3], q[4], q[5], q[6], q[7], q[8], q[9], q[10], q[11])
        }),
        forall|j: int| 0 <= j < 8 ==> {
            &&& #[trigger] byte_of(utmp[j / 4], (8 * (j % 4)) as u32) == scale_min(j, scales12@).0
            &&& byte_of(utmp[2 + j / 4], (8 * (j % 4)) as u32) == scale_min(j, scales12@).1
        },
{
    let w0 = read_le_word(scales12, 0);
    let w1 = read_le_word(scales12, 4);
    let w2 = read_le_word(scales12, 8);
    let u3 = ((w2 >> 4) & KMASK2) | (((w1 >> 6) & KMASK3) << 4);
    let u1 = (w2 & KMASK2) | (((w0 >> 6) & KMASK3) << 4);
    let u2 = w1 & KMASK1;
    let u0 = w0 & KMASK1;
    let utmp = [u0, u1, u2, u3];
    proof {
        let q = scales12@;
        lemma_utmp_bytes(q[0], q[1], q[2], q[3], q[4], q[5], q[6], q[7], q[8], q[9], q[10], q[11]);
        assert(utmp =~= utmp_words(q[0], q[1], q[2], q[3], q[4], q[5], q[6], q[7], q[8], q[9], q[10], q[11]));
        assert forall|j: int| 0 <= j < 8 implies {
            &&& #[trigger] byte_of(utmp[j / 4], (8 * (j % 4)) as u32) == scale_min(j, q).0
            &&& byte_of(utmp[2 + j / 4], (8 * (j % 4)) as u32) == scale_min(j, q).1
        } by {
            assert(j == 0 || j == 1 || j == 2 || j == 3 || j == 4 || j == 5 || j == 6 || j == 7);
        }
    }
    utmp
}

/// Decode the 12-byte packed Q4_K scales and minima into 8 scales and 8 minima; entry `j`
/// of each is what [`get_scale_min_k4`] returns for sub-block `j`.
pub fn decode_scales_mins(scales12: &[u8]) -> (r: ([u8; 8], [u8; 8]))
    requires
        scales12@.len() >= 12,
    ensures
        forall|j: int| 0 <= j < 8 ==> (#[trigger] r.0[j], r.1[j]) == scale_min(j, scales12@),
{
    let utmp = decode_utmp(scales12);
    let s0 = utmp[0];
    let s1 = utmp[1];
    let m0 = utmp[2];
    let m1 = utmp[3];
    let scales = [
        word_byte(s0, 0), word_byte(s0, 8), word_byte(s0, 16), word_byte(s0, 24),
        word_byte(s1, 0), word_byte(s1, 8), word_byte(s1, 16), word_byte(s1, 24),
    ];
    let mins = [
        word_byte(m0, 0), word_byte(m0, 8), word_byte(m0, 16), word_byte(m0, 24),
        word_byte(m1, 0), word_byte(m1, 8), word_byte(m1, 16), word_byte(m1, 24),
    ];
    proof {
        assert forall|j: int| 0 <= j < 8 implies (#[trigger] scales[j], mins[j]) == scale_min(j, scales12@) by {
            assert(byte_of(utmp[j / 4], (8 * (j % 4)) as u32) == scale_min(j, scales12@).0);
            assert(j == 0 || j == 1 || j == 2 || j == 3 || j == 4 || j == 5 || j == 6 || j == 7);
        }
    }
    (scales, mins)
}

/// Weight `i` (0..256) of a Q4_K block as an unsigned nibble: each 32-byte chunk of `qs`
/// gives 64 weights, its low nibbles first, then its high nibbles.
pub open spec fn q4k_nibble(qs: Seq<u8>, i: int) -> u8 {
    let chunk = i / 64;
    let r = i % 64;
    if r < 32 {
        qs[32 * chunk + r] & 0x0F
    } else {
        qs[32 * chunk + r - 32] >> 4u8
    }
}

/// Weight `i` of a Q5_K block: the Q4_K nibble plus 16 when bit `i / 32` of
/// `qh[i % 32]` is set.
pub open spec fn q5k_weight(qs: Seq<u8>, qh: Seq<u8>, i: int) -> u8 {
    (q4k_nibble(qs, i) + if qh[i % 32] & (1u8 << ((i / 32) as u8)) != 0 { 16u8 } else { 0u8 }) as u8
}

/// Unpack Q4_K `qs` (128 bytes) into 256 unsigned nibble weights (ggml `aux8` layout).
pub fn unpack_q4_k_aux8(qs: &[u8], aux8: &mut [u8; 256])
    requires
        qs@.len() >= 128,
    ensures
        forall|i: int| 0 <= i < 256 ==> #[trigger] final(aux8)@[i] == q4k_nibble(qs@, i),
{
    let mut j: usize = 0;
    while j < 4
        invariant
            j <= 4,
            qs@.len() >= 128,
            forall|i: int| 0 <= i < 64 * j ==> #[trigger] aux8@[i] == q4k_nibble(qs@, i),
        decreases 4 - j,
    {
        let mut l: usize = 0;
        while l < 32
            invariant
                j < 4,
                l <= 32,
                qs@.len() >= 128,
                forall|i: int| 0 <= i < 64 * j ==> #[trigger] aux8@[i] == q4k_nibble(qs@, i),
                forall|i: int| 64 * j <= i < 64 * j + l ==> #[trigger] aux8@[i] == q4k_nibble(qs@, i),
                forall|i: int| 64 * j + 32 <= i < 64 * j + 32 + l ==> #[trigger] aux8@[i] == q4k_nibble(qs@, i),
            decreases 32 - l,
        {
            let q = qs[j * 32 + l];
            aux8[j * 64 + l] = q & 0x0F;
            aux8[j * 64 + 32 + l] = q >> 4;
            proof {
                assert((j * 64 + l) as int / 64 == j && (j * 64 + l) as int % 64 == l) by (nonlinear_arith)
                    requires
                        l < 32,
                ;
                assert((j * 64 + 32 + l) as int / 64 == j && (j * 64 + 32 + l) as int % 64 == 32 + l) by (nonlinear_arith)
                    requires
                        l < 32,
                ;
            }
            l = l + 1;
        }
        j = j + 1;
    }
}

/// Unpack Q5_K `qs` (128 bytes) and `qh` (32 bytes of high bits) into 256 five-bit
/// weights (ggml `aux8` layout).
pub fn unpack_q5_k_aux8(qs: &[u8], qh: &[u8], aux8: &mut [u8; 256])
    requires
        qs@.len() >= 128,
        qh@.len() >= 32,
    ensures
        forall|i: int| 0 <= i < 256 ==> #[trigger] final(aux8)@[i] == q5k_weight(qs@, qh@, i),
{
    let mut m: u8 = 1;
    let mut a: usize = 0;
    let mut q_off: usize = 0;
    let mut g: usize = 0;
    assert(1u8 == 1u8 << 0u8) by (bit_vector);
    while g < QK_K / 64
        invariant
            g <= 4,
            a == 64 * g,
            q_off == 32 * g,
            m == 1u8 << ((2 * g) as u8),
            qs@.len() >= 128,
            qh@.len() >= 32,
            forall|i: int| 0 <= i < 64 * g ==> #[trigger] aux8@[i] == q5k_weight(qs@, qh@, i),
        decreases 4 - g,
    {
        assert(m != 0 && m < 128) by (bit_vector)
            requires
                m == 1u8 << ((2 * g) as u8),
                g < 4,
        ;
        let mut l: usize = 0;
        while l < 32
            invariant
                g < 4,
                a == 64 * g,
                q_off == 32 * g,
                m == 1u8 << ((2 * g) as u8),
                l <= 32,
                qs@.len() >= 128,
                qh@.len() >= 32,
                forall|i: int| 0 <= i < 64 * g + l ==> #[trigger] aux8@[i] == q5k_weight(qs@, qh@, i),
            decreases 32 - l,
        {
            let hi: u8 = if qh[l] & m != 0 { 16 } else { 0 };
            let byte = qs[q_off + l];
            let lo = byte & 0x0F;
            assert(lo <= 15) by (bit_vector)
                requires
                    lo == byte & 0x0F,
            ;
            aux8[a + l] = lo + hi;
            proof {
                let i = (a + l) as int;
                assert(i / 64 == g && i % 64 == l && i / 32 == 2 * g && i % 32 == l) by (nonlinear_arith)
                    requires
                        i == 64 * g + l,
                        l < 32,
                ;
            }
            l = l + 1;
        }
        a = a + 32;
        assert((m << 1u8) == 1u8 << ((2 * g + 1) as u8)) by (bit_vector)
            requires
                m == 1u8 << ((2 * g) as u8),
                g < 4,
        ;
        m = m << 1;
        let mut l: usize = 0;
        while l < 32
            invariant
                g < 4,
                a == 64 * g + 32,
                q_off == 32 * g,
                m == 1u8 << ((2 * g + 1) as u8),
                l <= 32,
                qs@.len() >= 128,
                qh@.len() >= 32,
                forall|i: int| 0 <= i < 64 * g + 32 + l ==> #[trigger] aux8@[i] == q5k_weight(qs@, qh@, i),
            decreases 32 - l,
        {
            let hi: u8 = if qh[l] & m != 0 { 16 } else { 0 };
            let byte = qs[q_off + l];
            let top = byte >> 4;
            assert(top <= 15) by (bit_vector)
                requires
                    top == byte >> 4u8,
            ;
            aux8[a + l] = top + hi;
            proof {
                let i = (a + l) as int;
                assert(i / 64 == g && i % 64 == 32 + l && i / 32 == 2 * g + 1 && i % 32 == l) by (nonlinear_arith)
                    requires
                        i == 64 * g + 32 + l,
                        l < 32,
                ;
            }
            l = l + 1;
        }
        a = a + 32;
        assert((m << 1u8) == 1u8 << ((2 * (g + 1)) as u8)) by (bit_vector)
            requires
                m == 1u8 << ((2 * g + 1) as u8),
                g < 4,
        ;
        m = m << 1;
        q_off = q_off + 32;
        g = g + 1;
    }
}

} // verus!
