//! The model architectures the engine implements.
use vstd::prelude::*;

use crate::error::{FellmError, Result};
use crate::file::{last_named, GgufFile};
use crate::meta::{string_count, u32_refusal, u32_value, MetaMap};

verus! {

/// The Llama architecture implementation.
#[derive(Debug)]
pub struct LlamaArch;

impl LlamaArch {
    /// New instance.
    pub fn new() -> (a: Self)
        ensures
            a == LlamaArch,
    {
        LlamaArch
    }
}

impl Default for LlamaArch {
    fn default() -> (a: Self)
        ensures
            a == LlamaArch,
    {
        LlamaArch::new()
    }
}

/// The LFM2 MoE architecture implementation.
#[derive(Debug)]
pub struct Lfm2MoeArch;

impl Lfm2MoeArch {
    /// New instance.
    pub fn new() -> (a: Self)
        ensures
            a == Lfm2MoeArch,
    {
        Lfm2MoeArch
    }
}

impl Default for Lfm2MoeArch {
    fn default() -> (a: Self)
        ensures
            a == Lfm2MoeArch,
    {
        Lfm2MoeArch::new()
    }
}

/// The integer hyperparameters of a Llama model.
#[derive(Debug, Clone)]
pub struct LlamaDims {
    /// Transformer blocks.
    pub n_layers: usize,
    /// Embedding width.
    pub d_model: usize,
    /// Attention heads.
    pub n_heads: usize,
    /// KV heads (grouped-query attention).
    pub n_kv_heads: usize,
    /// Feed-forward width.
    pub d_ff: usize,
    /// Rotary dimensions.
    pub rope_dim: usize,
    /// Trained context length.
    pub context_length: usize,
    /// Vocabulary size (tokenizer tokens).
    pub vocab_size: usize,
    /// The output projection is the token embedding (no `output.weight` tensor).
    pub tied_embeddings: bool,
}

/// The number stored under `key`, as `get_u32` reads it.
pub open spec fn meta_u32(m: MetaMap, key: Seq<char>) -> Option<u32> {
    u32_value(m.spec_get(key))
}

/// The Llama keys that must hold a number are all there.
pub open spec fn llama_keys_present(m: MetaMap) -> bool {
    &&& meta_u32(m, "llama.block_count"@) is Some
    &&& meta_u32(m, "llama.embedding_length"@) is Some
    &&& meta_u32(m, "llama.attention.head_count"@) is Some
    &&& meta_u32(m, "llama.feed_forward_length"@) is Some
}

/// The number stored under `key`, or `fallback` when `get_u32` gives none.
pub open spec fn u32_or(m: MetaMap, key: Seq<char>, fallback: nat) -> nat {
    match meta_u32(m, key) {
        Some(x) => x as nat,
        None => fallback,
    }
}

pub(crate) fn u32_or_else(m: &MetaMap, key: &str, fallback: usize) -> (r: usize)
    ensures
        r == u32_or(*m, key@, fallback as nat),
{
    match m.get_u32(key) {
        Ok(x) => x as usize,
        Err(_) => fallback,
    }
}

pub(crate) fn required_u32(m: &MetaMap, key: &str) -> (r: Result<usize>)
    ensures
        match meta_u32(*m, key@) {
            Some(x) => r == Ok::<usize, FellmError>(x as usize),
            None => u32_refusal(m.spec_get(key@), key@, r),
        },
{
    match m.get_u32(key) {
        Ok(x) => Ok(x as usize),
        Err(e) => Err(e),
    }
}

/// The integer hyperparameters of a Llama model from its GGUF file: block count,
/// embedding width, head count and feed-forward width must be there (the first missing
/// or mistyped one is reported); the KV heads default to the heads, the rotary dimensions
/// to the head dimension, the context length to 4096 and the vocabulary to none; the
/// embeddings are tied when there is no `output.weight` tensor.
pub fn llama_dims(file: &GgufFile) -> (r: Result<LlamaDims>)
    requires
        llama_keys_present(file.spec_metadata()) ==> meta_u32(file.spec_metadata(), "llama.attention.head_count"@) != Some(0u32),
    ensures
        ({
            let m = file.spec_metadata();
            let k1 = "llama.block_count"@;
            let k2 = "llama.embedding_length"@;
            let k3 = "llama.attention.head_count"@;
            let k4 = "llama.feed_forward_length"@;
            if meta_u32(m, k1) is None {
                u32_refusal(m.spec_get(k1), k1, r)
            } else if meta_u32(m, k2) is None {
                u32_refusal(m.spec_get(k2), k2, r)
            } else if meta_u32(m, k3) is None {
                u32_refusal(m.spec_get(k3), k3, r)
            } else if meta_u32(m, k4) is None {
                u32_refusal(m.spec_get(k4), k4, r)
            } else {
                let d_model = meta_u32(m, k2).unwrap() as nat;
                let n_heads = meta_u32(m, k3).unwrap() as nat;
                r matches Ok(d) && d.n_layers == meta_u32(m, k1).unwrap() && d.d_model == d_model && d.n_heads
                    == n_heads && d.d_ff == meta_u32(m, k4).unwrap() && d.n_kv_heads == u32_or(
                    m,
                    "llama.attention.head_count_kv"@,
                    n_heads,
                ) && d.rope_dim == u32_or(m, "llama.rope.dimension_count"@, d_model / n_heads) && d.context_length
                    == u32_or(m, "llama.context_length"@, 4096) && d.vocab_size == match string_count(
                    m.spec_get("tokenizer.ggml.tokens"@),
                ) {
                    Some(n) => n,
                    None => 0,
                } && d.tied_embeddings == (last_named(file.spec_tensors(), "output.weight"@) < 0)
            }
        }),
{
    let m = file.meta();
    let n_layers = required_u32(m, "llama.block_count")?;
    let d_model = required_u32(m, "llama.embedding_length")?;
    let n_heads = required_u32(m, "llama.attention.head_count")?;
    let d_ff = required_u32(m, "llama.feed_forward_length")?;
    let n_kv_heads = u32_or_else(m, "llama.attention.head_count_kv", n_heads);
    let head_dim = d_model / n_heads;
    let rope_dim = u32_or_else(m, "llama.rope.dimension_count", head_dim);
    let context_length = u32_or_else(m, "llama.context_length", 4096);
    let vocab_size = match m.get_string_array("tokenizer.ggml.tokens") {
        Ok(a) => a.len(),
        Err(_) => 0,
    };
    let tied_embeddings = !file.has_tensor("output.weight");
    Ok(LlamaDims { n_layers, d_model, n_heads, n_kv_heads, d_ff, rope_dim, context_length, vocab_size, tied_embeddings })
}

} // verus!
