use fellm::lfm2::{get_boolish, parse_gating_func, LayerLayout};
use fellm::meta::MetaValue;

fn layout() -> LayerLayout {
    LayerLayout { layer_kv_heads: vec![0, 0, 8, 0, 8, 8], leading_dense_block_count: 2 }
}

#[test]
fn layer_counts_add_up() {
    let l = layout();
    assert_eq!(l.n_attn_layers(), 3);
    assert_eq!(l.n_conv_layers(), 3);
    assert_eq!(l.n_attn_layers() + l.n_conv_layers(), l.layer_kv_heads.len());
}

#[test]
fn ordinals_enumerate_each_kind() {
    let l = layout();
    let attn: Vec<Option<usize>> = (0..6).map(|i| l.attn_ordinal(i)).collect();
    let conv: Vec<Option<usize>> = (0..6).map(|i| l.conv_ordinal(i)).collect();
    assert_eq!(attn, vec![None, None, Some(0), None, Some(1), Some(2)]);
    assert_eq!(conv, vec![Some(0), Some(1), None, Some(2), None, None]);
}

#[test]
fn recurrent_and_moe_flags() {
    let l = layout();
    assert!(l.is_recurrent(0));
    assert!(!l.is_recurrent(2));
    assert!(!l.is_moe(1));
    assert!(l.is_moe(2));
}

#[test]
fn boolish_reads_bools_and_integers() {
    assert_eq!(get_boolish(Some(&MetaValue::Bool(true))), Some(true));
    assert_eq!(get_boolish(Some(&MetaValue::U32(0))), Some(false));
    assert_eq!(get_boolish(Some(&MetaValue::U8(3))), Some(true));
    assert_eq!(get_boolish(Some(&MetaValue::I32(-1))), Some(true));
    assert_eq!(get_boolish(Some(&MetaValue::U64(1))), None);
    assert_eq!(get_boolish(None), None);
}

#[test]
fn gating_func_prefers_numeric_then_name() {
    assert_eq!(parse_gating_func(None, Some(7)), 7);
    assert_eq!(parse_gating_func(Some(&MetaValue::String("SigMoid".to_string())), None), 2);
    assert_eq!(parse_gating_func(Some(&MetaValue::String("softmax".to_string())), None), 1);
    assert_eq!(parse_gating_func(Some(&MetaValue::U32(2)), None), 1);
    assert_eq!(parse_gating_func(None, None), 1);
}
