use fellm::arch::llama_dims;
use fellm::error::FellmError;
use fellm::file::GgufFile;
use fellm::lfm2::lfm2_moe_dims;

enum V {
    U32(u32),
    Str(&'static str),
    I32s(Vec<i32>),
    Strs(Vec<&'static str>),
}

fn push_str(out: &mut Vec<u8>, s: &str) {
    out.extend_from_slice(&(s.len() as u64).to_le_bytes());
    out.extend_from_slice(s.as_bytes());
}

fn gguf(metas: &[(&str, V)], tensors: &[&str]) -> GgufFile {
    let mut out = Vec::new();
    out.extend_from_slice(&0x4655_4747u32.to_le_bytes());
    out.extend_from_slice(&3u32.to_le_bytes());
    out.extend_from_slice(&(tensors.len() as u64).to_le_bytes());
    out.extend_from_slice(&(metas.len() as u64).to_le_bytes());
    for (k, v) in metas {
        push_str(&mut out, k);
        match v {
            V::U32(x) => {
                out.extend_from_slice(&4u32.to_le_bytes());
                out.extend_from_slice(&x.to_le_bytes());
            }
            V::Str(s) => {
                out.extend_from_slice(&8u32.to_le_bytes());
                push_str(&mut out, s);
            }
            V::I32s(xs) => {
                out.extend_from_slice(&9u32.to_le_bytes());
                out.extend_from_slice(&5u32.to_le_bytes());
                out.extend_from_slice(&(xs.len() as u64).to_le_bytes());
                for x in xs {
                    out.extend_from_slice(&x.to_le_bytes());
                }
            }
            V::Strs(xs) => {
                out.extend_from_slice(&9u32.to_le_bytes());
                out.extend_from_slice(&8u32.to_le_bytes());
                out.extend_from_slice(&(xs.len() as u64).to_le_bytes());
                for x in xs {
                    push_str(&mut out, x);
                }
            }
        }
    }
    for (i, t) in tensors.iter().enumerate() {
        push_str(&mut out, t);
        out.extend_from_slice(&1u32.to_le_bytes());
        out.extend_from_slice(&8u64.to_le_bytes());
        out.extend_from_slice(&0u32.to_le_bytes());
        out.extend_from_slice(&(64 * i as u64).to_le_bytes());
    }
    GgufFile::from_bytes(&out).unwrap()
}

#[test]
fn llama_dims_read_required_keys_and_defaults() {
    let g = gguf(
        &[
            ("llama.block_count", V::U32(2)),
            ("llama.embedding_length", V::U32(64)),
            ("llama.attention.head_count", V::U32(8)),
            ("llama.feed_forward_length", V::U32(128)),
            ("tokenizer.ggml.tokens", V::Strs(vec!["a", "b", "c"])),
        ],
        &["token_embd.weight"],
    );
    let d = llama_dims(&g).unwrap();
    assert_eq!((d.n_layers, d.d_model, d.n_heads, d.n_kv_heads, d.d_ff), (2, 64, 8, 8, 128));
    assert_eq!((d.rope_dim, d.context_length, d.vocab_size), (8, 4096, 3));
    assert!(d.tied_embeddings);
    let g = gguf(
        &[
            ("llama.block_count", V::U32(2)),
            ("llama.embedding_length", V::U32(64)),
            ("llama.attention.head_count", V::U32(8)),
            ("llama.attention.head_count_kv", V::U32(2)),
            ("llama.feed_forward_length", V::U32(128)),
            ("llama.rope.dimension_count", V::U32(4)),
            ("llama.context_length", V::U32(512)),
        ],
        &["output.weight"],
    );
    let d = llama_dims(&g).unwrap();
    assert_eq!((d.n_kv_heads, d.rope_dim, d.context_length, d.vocab_size), (2, 4, 512, 0));
    assert!(!d.tied_embeddings);
}

#[test]
fn llama_dims_report_the_first_missing_key() {
    let g = gguf(&[("llama.block_count", V::U32(2)), ("llama.attention.head_count", V::Str("x"))], &[]);
    match llama_dims(&g) {
        Err(FellmError::MetadataKeyNotFound(k)) => assert_eq!(k, "llama.embedding_length"),
        _ => panic!("expected a missing key"),
    }
    let g = gguf(&[("llama.block_count", V::Str("two"))], &[]);
    match llama_dims(&g) {
        Err(FellmError::MetadataTypeMismatch { key, expected, got }) => {
            assert_eq!((key.as_str(), expected, got), ("llama.block_count", "u32", "string"));
        }
        _ => panic!("expected a mismatch"),
    }
}

fn lfm2_keys() -> Vec<(&'static str, V)> {
    vec![
        ("lfm2moe.block_count", V::U32(4)),
        ("lfm2moe.embedding_length", V::U32(96)),
        ("lfm2moe.context_length", V::U32(2048)),
        ("lfm2moe.attention.head_count", V::U32(12)),
        ("lfm2moe.attention.head_count_kv", V::I32s(vec![0, 4, -1, 4])),
        ("lfm2moe.expert_count", V::U32(8)),
        ("lfm2moe.expert_used_count", V::U32(2)),
        ("lfm2moe.expert_feed_forward_length", V::U32(32)),
        ("lfm2moe.feed_forward_length", V::U32(256)),
        ("lfm2moe.shortconv.l_cache", V::U32(3)),
        ("lfm2moe.expert_gating_func", V::Str("SIGMOID")),
        ("tokenizer.ggml.tokens", V::Strs(vec!["x", "y"])),
    ]
}

#[test]
fn lfm2_dims_read_keys_layout_and_flags() {
    let g = gguf(&lfm2_keys(), &["blk.3.exp_probs_b.bias", "output.weight"]);
    let d = lfm2_moe_dims(&g).unwrap();
    assert_eq!((d.n_layers, d.d_model, d.context_length, d.vocab_size, d.n_heads), (4, 96, 2048, 2, 12));
    assert_eq!(d.layout.layer_kv_heads, vec![0, 4, 0, 4]);
    assert_eq!(d.layout.leading_dense_block_count, 0);
    assert_eq!((d.n_experts, d.n_expert_used, d.expert_ffn_dim, d.dense_ffn_dim), (8, 2, 32, 256));
    assert_eq!((d.expert_gating_func, d.shortconv_l_cache, d.head_dim), (2, 3, 8));
    assert!(!d.tied_embeddings);
    assert!(d.norm_topk_prob);
    assert!(d.use_expert_bias);
    let mut keys = lfm2_keys();
    keys.push(("lfm2moe.vocab_size", V::U32(50)));
    keys.push(("lfm2moe.leading_dense_block_count", V::U32(2)));
    keys.push(("lfm2moe.norm_topk_prob", V::U32(0)));
    let d = lfm2_moe_dims(&gguf(&keys, &["blk.9.exp_probs_b.bias"])).unwrap();
    assert_eq!((d.vocab_size, d.layout.leading_dense_block_count), (50, 2));
    assert!(!d.norm_topk_prob);
    assert!(!d.use_expert_bias);
    assert!(d.tied_embeddings);
}

#[test]
fn lfm2_dims_report_the_first_missing_key() {
    let keys: Vec<(&str, V)> = lfm2_keys().into_iter().filter(|(k, _)| *k != "lfm2moe.attention.head_count_kv").collect();
    match lfm2_moe_dims(&gguf(&keys, &[])) {
        Err(FellmError::MetadataKeyNotFound(k)) => assert_eq!(k, "lfm2moe.attention.head_count_kv"),
        _ => panic!("expected a missing key"),
    }
}
