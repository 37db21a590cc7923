use fellm::quant::{decode_scales_mins, decode_utmp, get_scale_min_k4, unpack_q4_k_aux8, unpack_q5_k_aux8};

#[test]
fn get_scale_min_k4_matches_ggml() {
    // Mimic ggml packing for j in 0..8 with distinct scale/min values.
    let mut scales_packed = [0u8; 12];
    let ls = [1u8, 2, 3, 4, 5, 6, 7, 8];
    let lm = [10u8, 11, 12, 13, 14, 15, 16, 17];
    for j in 0..8 {
        if j < 4 {
            scales_packed[j] = ls[j];
            scales_packed[j + 4] = lm[j];
        } else {
            scales_packed[j + 4] = (ls[j] & 0x0F) | ((lm[j] & 0x0F) << 4);
            scales_packed[j - 4] |= (ls[j] >> 4) << 6;
            scales_packed[j] |= (lm[j] >> 4) << 6;
        }
    }
    for j in 0..8 {
        let (sc, m) = get_scale_min_k4(j, &scales_packed);
        assert_eq!(sc, ls[j], "scale[{j}]");
        assert_eq!(m, lm[j], "min[{j}]");
    }
}

/// A Q4_K block (the half-precision `d` = 1.0 and `dmin` = 0.1 written as raw bits).
fn make_q4_k_block() -> Vec<u8> {
    let mut out = vec![0u8; 144];
    let d = 0x3C00u16.to_le_bytes();
    let dmin = 0x2E66u16.to_le_bytes();
    out[0] = d[0];
    out[1] = d[1];
    out[2] = dmin[0];
    out[3] = dmin[1];
    for j in 0..4 {
        out[4 + j] = (j as u8 + 1) & 63;
        out[4 + j + 4] = (j as u8 + 2) & 63;
    }
    for j in 0..4 {
        let ls = (j as u8 + 5) & 63;
        let lm = (j as u8 + 3) & 63;
        out[4 + j + 8] = (ls & 0x0F) | ((lm & 0x0F) << 4);
        out[4 + j] |= (ls >> 4) << 6;
        out[4 + j + 4] |= (lm >> 4) << 6;
    }
    for i in 0..128 {
        out[16 + i] = ((i * 17) & 0xFF) as u8;
    }
    out
}

#[test]
fn decode_scales_mins_matches_get_scale_min_k4() {
    let block = make_q4_k_block();
    let scales12 = &block[4..16];
    let (scales, mins) = decode_scales_mins(scales12);
    for j in 0..8 {
        let (sc, m) = get_scale_min_k4(j, scales12);
        assert_eq!(scales[j], sc, "scale[{j}]");
        assert_eq!(mins[j], m, "min[{j}]");
    }
}

#[test]
fn six_bit_values_roundtrip_through_the_packing() {
    let ls = [63u8, 0, 17, 42, 33, 48, 1, 62];
    let lm = [5u8, 63, 32, 16, 63, 0, 31, 47];
    let mut q = [0u8; 12];
    for k in 0..12 {
        q[k] = if k < 4 {
            (ls[k] & 63) | ((ls[k + 4] >> 4) << 6)
        } else if k < 8 {
            (lm[k - 4] & 63) | ((lm[k] >> 4) << 6)
        } else {
            (ls[k - 4] & 0x0F) | ((lm[k - 4] & 0x0F) << 4)
        };
    }
    let (scales, mins) = decode_scales_mins(&q);
    assert_eq!(scales, ls);
    assert_eq!(mins, lm);
}

#[test]
fn utmp_words_hold_scales_then_mins() {
    let block = make_q4_k_block();
    let utmp = decode_utmp(&block[4..16]);
    let (scales, mins) = decode_scales_mins(&block[4..16]);
    let bytes: Vec<u8> = utmp.iter().flat_map(|w| w.to_le_bytes()).collect();
    assert_eq!(&bytes[0..8], &scales);
    assert_eq!(&bytes[8..16], &mins);
    assert_eq!(scales, [1, 2, 3, 4, 5, 6, 7, 8]);
    assert_eq!(mins, [2, 3, 4, 5, 3, 4, 5, 6]);
}

#[test]
fn q4k_nibbles_low_then_high_per_chunk() {
    let qs: Vec<u8> = (0..128).map(|i| ((i * 17) & 0xFF) as u8).collect();
    let mut aux = [0u8; 256];
    unpack_q4_k_aux8(&qs, &mut aux);
    for i in 0..256 {
        let chunk = i / 64;
        let r = i % 64;
        let expect = if r < 32 { qs[32 * chunk + r] & 0x0F } else { qs[32 * chunk + r - 32] >> 4 };
        assert_eq!(aux[i], expect, "weight {i}");
    }
    assert_eq!(aux[1], 1);
    assert_eq!(aux[33], 1);
}

#[test]
fn q5k_high_bits_add_sixteen() {
    let qs = [0xA5u8; 128];
    let mut qh = [0u8; 32];
    qh[0] = 0b0000_0101;
    qh[31] = 0b1000_0000;
    let mut aux = [0u8; 256];
    unpack_q5_k_aux8(&qs, &qh, &mut aux);
    assert_eq!(aux[0], 0x5 + 16);
    assert_eq!(aux[32], 0xA);
    assert_eq!(aux[64], 0x5 + 16);
    assert_eq!(aux[1], 0x5);
    assert_eq!(aux[255], 0xA + 16);
    assert_eq!(aux[223], 0x5);
}
