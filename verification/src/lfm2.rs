//! The layer layout of an LFM2 MoE model (which blocks are attention, which are recurrent
//! ShortConv, which use MoE feed-forward), and the metadata conventions its config reads.
use vstd::prelude::*;

use crate::arch::{meta_u32, required_u32, u32_or, u32_or_else};
use crate::error::{decimal_string, decimal_text, FellmError, Result};
use crate::file::{last_named, GgufFile};
use crate::meta::{i32_array_refusal, i32_items, string_count, u32_refusal, MetaItem, MetaMap, MetaModel, MetaValue};
use crate::text::string_push_str;
use crate::tools::ascii_lower;

verus! {

/// Attention blocks among `heads` (a block with 0 KV heads is recurrent).
pub open spec fn count_attn(heads: Seq<usize>) -> nat
    decreases heads.len(),
{
    if heads.len() == 0 {
        0
    } else {
        count_attn(heads.drop_last()) + if heads.last() > 0 { 1nat } else { 0nat }
    }
}

/// Recurrent blocks among `heads`.
pub open spec fn count_conv(heads: Seq<usize>) -> nat
    decreases heads.len(),
{
    if heads.len() == 0 {
        0
    } else {
        count_conv(heads.drop_last()) + if heads.last() == 0 { 1nat } else { 0nat }
    }
}

/// Which blocks of an LFM2 MoE model are attention or recurrent, and which use MoE.
#[derive(Debug, Clone)]
pub struct LayerLayout {
    /// Per-layer KV heads. `0` marks recurrent ShortConv layers.
    pub layer_kv_heads: Vec<usize>,
    /// Number of leading dense FFN blocks.
    pub leading_dense_block_count: usize,
}

fn count_where(heads: &[usize], end: usize, attention: bool) -> (n: usize)
    requires
        end <= heads@.len(),
    ensures
        n == if attention { count_attn(heads@.take(end as int)) } else { count_conv(heads@.take(end as int)) },
        n <= end,
{
    let mut n: usize = 0;
    let mut i: usize = 0;
    assert(heads@.take(0) =~= Seq::<usize>::empty());
    while i < end
        invariant
            i <= end,
            end <= heads@.len(),
            n <= i,
            n == if attention { count_attn(heads@.take(i as int)) } else { count_conv(heads@.take(i as int)) },
        decreases end - i,
    {
        proof {
            assert(heads@.take(i + 1).drop_last() =~= heads@.take(i as int));
            assert(heads@.take(i + 1).last() == heads@[i as int]);
        }
        if (heads[i] > 0) == attention {
            n = n + 1;
        }
        i = i + 1;
    }
    n
}

impl LayerLayout {
    /// Whether a block is recurrent ShortConv.
    pub fn is_recurrent(&self, layer: usize) -> (b: bool)
        requires
            layer < self.layer_kv_heads@.len(),
        ensures
            b == (self.layer_kv_heads@[layer as int] == 0),
    {
        self.layer_kv_heads[layer] == 0
    }

    /// Whether a block uses MoE FFN.
    pub fn is_moe(&self, layer: usize) -> (b: bool)
        ensures
            b == (layer >= self.leading_dense_block_count),
    {
        layer >= self.leading_dense_block_count
    }

    /// Number of attention layers.
    pub fn n_attn_layers(&self) -> (n: usize)
        ensures
            n == count_attn(self.layer_kv_heads@),
    {
        proof {
            assert(self.layer_kv_heads@.take(self.layer_kv_heads@.len() as int) =~= self.layer_kv_heads@);
        }
        count_where(self.layer_kv_heads.as_slice(), self.layer_kv_heads.len(), true)
    }

    /// Number of recurrent ShortConv layers.
    pub fn n_conv_layers(&self) -> (n: usize)
        ensures
            n == count_conv(self.layer_kv_heads@),
    {
        proof {
            assert(self.layer_kv_heads@.take(self.layer_kv_heads@.len() as int) =~= self.layer_kv_heads@);
        }
        count_where(self.layer_kv_heads.as_slice(), self.layer_kv_heads.len(), false)
    }

    /// Attention ordinal for a block, if it is attention: the attention blocks before it.
    pub fn attn_ordinal(&self, layer: usize) -> (r: Option<usize>)
        requires
            layer < self.layer_kv_heads@.len(),
        ensures
            r == if self.layer_kv_heads@[layer as int] > 0 {
                Some(count_attn(self.layer_kv_heads@.take(layer as int)) as usize)
            } else {
                None::<usize>
            },
    {
        if self.is_recurrent(layer) {
            None
        } else {
            Some(count_where(self.layer_kv_heads.as_slice(), layer, true))
        }
    }

    /// ShortConv ordinal for a block, if it is recurrent: the recurrent blocks before it.
    pub fn conv_ordinal(&self, layer: usize) -> (r: Option<usize>)
        requires
            layer < self.layer_kv_heads@.len(),
        ensures
            r == if self.layer_kv_heads@[layer as int] == 0 {
                Some(count_conv(self.layer_kv_heads@.take(layer as int)) as usize)
            } else {
                None::<usize>
            },
    {
        if self.is_recurrent(layer) {
            Some(count_where(self.layer_kv_heads.as_slice(), layer, false))
        } else {
            None
        }
    }
}

/// Every block is either attention or recurrent: the two counts add up to the layers.
pub proof fn lemma_attn_plus_conv(heads: Seq<usize>)
    ensures
        count_attn(heads) + count_conv(heads) == heads.len(),
    decreases heads.len(),
{
    if heads.len() > 0 {
        lemma_attn_plus_conv(heads.drop_last());
    }
}

proof fn lemma_count_attn_prefix(heads: Seq<usize>, i: int, j: int)
    requires
        0 <= i <= j <= heads.len(),
    ensures
        count_attn(heads.take(i)) <= count_attn(heads.take(j)),
        i < j && heads[i] > 0 ==> count_attn(heads.take(i)) < count_attn(heads.take(j)),
    decreases j - i,
{
    if i < j {
        lemma_count_attn_prefix(heads, i, j - 1);
        assert(heads.take(j).drop_last() =~= heads.take(j - 1));
        if i == j - 1 {
            assert(heads.take(j).last() == heads[i]);
        }
    }
}

proof fn lemma_count_conv_prefix(heads: Seq<usize>, i: int, j: int)
    requires
        0 <= i <= j <= heads.len(),
    ensures
        count_conv(heads.take(i)) <= count_conv(heads.take(j)),
        i < j && heads[i] == 0 ==> count_conv(heads.take(i)) < count_conv(heads.take(j)),
    decreases j - i,
{
    if i < j {
        lemma_count_conv_prefix(heads, i, j - 1);
        assert(heads.take(j).drop_last() =~= heads.take(j - 1));
        if i == j - 1 {
            assert(heads.take(j).last() == heads[i]);
        }
    }
}

/// Attention ordinals number the attention blocks 0, 1, 2, ... in order: a later attention
/// block has a larger ordinal, and every ordinal is below the attention-layer count. The
/// same holds of recurrent blocks and their ordinals.
pub proof fn lemma_ordinals_enumerate(heads: Seq<usize>, a: int, b: int)
    requires
        0 <= a < b < heads.len(),
    ensures
        heads[a] > 0 && heads[b] > 0 ==> count_attn(heads.take(a)) < count_attn(heads.take(b)),
        heads[a] > 0 ==> count_attn(heads.take(a)) < count_attn(heads),
        heads[a] == 0 && heads[b] == 0 ==> count_conv(heads.take(a)) < count_conv(heads.take(b)),
        heads[a] == 0 ==> count_conv(heads.take(a)) < count_conv(heads),
{
    lemma_count_attn_prefix(heads, a, b);
    lemma_count_conv_prefix(heads, a, b);
    lemma_count_attn_prefix(heads, a, heads.len() as int);
    lemma_count_conv_prefix(heads, a, heads.len() as int);
    assert(heads.take(heads.len() as int) =~= heads);
}

/// A metadata flag stored as a bool or as a non-zero `u32`, `u8` or `i32`.
pub open spec fn boolish(v: Option<MetaModel>) -> Option<bool> {
    match v {
        Some(MetaModel::Item(MetaItem::Bool(x))) => Some(x),
        Some(MetaModel::Item(MetaItem::U32(x))) => Some(x != 0),
        Some(MetaModel::Item(MetaItem::U8(x))) => Some(x != 0),
        Some(MetaModel::Item(MetaItem::I32(x))) => Some(x != 0),
        _ => None,
    }
}

/// Read a metadata flag stored as a bool or an integer.
pub fn get_boolish(v: Option<&MetaValue>) -> (r: Option<bool>)
    ensures
        r == boolish(match v { Some(x) => Some(x.model()), None => None }),
{
    match v {
        Some(MetaValue::Bool(x)) => Some(*x),
        Some(MetaValue::U32(x)) => Some(*x != 0),
        Some(MetaValue::U8(x)) => Some(*x != 0),
        Some(MetaValue::I32(x)) => Some(*x != 0),
        _ => None,
    }
}

/// `s` equals `w` ignoring ASCII case.
pub open spec fn same_ignoring_case(s: Seq<char>, w: Seq<char>) -> bool {
    s.len() == w.len() && forall|i: int| 0 <= i < s.len() ==> #[trigger] ascii_lower(s[i]) == ascii_lower(w[i])
}

/// The MoE gating function code: the numeric setting when there is one; otherwise 2 for
/// the string `sigmoid` and 1 for `softmax` or anything else.
pub open spec fn gating_code(v: Option<MetaModel>, numeric: Option<u32>) -> u32 {
    match numeric {
        Some(n) => n,
        None => match v {
            Some(MetaModel::Item(MetaItem::String(s))) => if same_ignoring_case(s, "sigmoid"@) { 2 } else { 1 },
            _ => 1,
        },
    }
}

fn eq_ignore_ascii_case(s: &str, w: &str) -> (b: bool)
    ensures
        b == same_ignoring_case(s@, w@),
{
    let a = crate::text::str_chars(s);
    let c = crate::text::str_chars(w);
    if a.len() != c.len() {
        return false;
    }
    let mut i: usize = 0;
    while i < a.len()
        invariant
            i <= a@.len(),
            a@.len() == c@.len(),
            a@ == s@,
            c@ == w@,
            forall|k: int| 0 <= k < i ==> #[trigger] ascii_lower(a@[k]) == ascii_lower(c@[k]),
        decreases a@.len() - i,
    {
        let x = a[i];
        let y = c[i];
        if crate::tools::lower_char(x) != crate::tools::lower_char(y) {
            return false;
        }
        i = i + 1;
    }
    true
}

/// The MoE gating function code from the metadata value and its numeric reading.
pub fn parse_gating_func(v: Option<&MetaValue>, numeric: Option<u32>) -> (r: u32)
    ensures
        r == gating_code(match v { Some(x) => Some(x.model()), None => None }, numeric),
{
    if let Some(n) = numeric {
        return n;
    }
    match v {
        Some(MetaValue::String(s)) => {
            if eq_ignore_ascii_case(s.as_str(), "sigmoid") {
                2
            } else {
                1
            }
        },
        _ => 1,
    }
}

/// The integer and flag hyperparameters of an LFM2 MoE model.
#[derive(Debug, Clone)]
pub struct Lfm2MoeDims {
    /// Blocks.
    pub n_layers: usize,
    /// Embedding width.
    pub d_model: usize,
    /// Trained context length.
    pub context_length: usize,
    /// Vocabulary size.
    pub vocab_size: usize,
    /// Attention heads.
    pub n_heads: usize,
    /// Which blocks are attention or recurrent, and which are dense.
    pub layout: LayerLayout,
    /// Experts per MoE block.
    pub n_experts: usize,
    /// Experts used per token.
    pub n_expert_used: usize,
    /// Expert feed-forward width.
    pub expert_ffn_dim: usize,
    /// MoE gating function code.
    pub expert_gating_func: u32,
    /// Dense feed-forward width.
    pub dense_ffn_dim: usize,
    /// ShortConv cache length.
    pub shortconv_l_cache: usize,
    /// Head dimension.
    pub head_dim: usize,
    /// The output projection is the token embedding.
    pub tied_embeddings: bool,
    /// Normalise the top-k routing weights.
    pub norm_topk_prob: bool,
    /// Some block has an expert-bias tensor.
    pub use_expert_bias: bool,
}

/// The name of block `i`'s expert-bias tensor.
pub open spec fn expert_bias_name(i: nat) -> Seq<char> {
    "blk."@ + decimal_text(i) + ".exp_probs_b.bias"@
}

/// KV heads per block from the stored `i32` elements, negatives read as 0.
pub open spec fn kv_heads_of(xs: Seq<MetaItem>) -> Seq<usize> {
    xs.map_values(|it: MetaItem| match it {
        MetaItem::I32(x) => if x < 0 { 0usize } else { x as usize },
        _ => 0usize,
    })
}

/// The number keys an LFM2 MoE model needs are all there, and its KV-head array.
pub open spec fn lfm2_keys_present(m: MetaMap) -> bool {
    &&& meta_u32(m, "lfm2moe.block_count"@) is Some
    &&& meta_u32(m, "lfm2moe.embedding_length"@) is Some
    &&& meta_u32(m, "lfm2moe.context_length"@) is Some
    &&& meta_u32(m, "lfm2moe.attention.head_count"@) is Some
    &&& i32_items(m.spec_get("lfm2moe.attention.head_count_kv"@)) is Some
    &&& meta_u32(m, "lfm2moe.expert_count"@) is Some
    &&& meta_u32(m, "lfm2moe.expert_used_count"@) is Some
    &&& meta_u32(m, "lfm2moe.expert_feed_forward_length"@) is Some
    &&& meta_u32(m, "lfm2moe.feed_forward_length"@) is Some
    &&& meta_u32(m, "lfm2moe.shortconv.l_cache"@) is Some
}

/// `r` reports the first missing or mistyped key an LFM2 MoE model needs, in the order
/// they are read.
pub open spec fn lfm2_refusal<T>(m: MetaMap, r: Result<T>) -> bool {
    let u = |k: Seq<char>| meta_u32(m, k) is None;
    if u("lfm2moe.block_count"@) {
        u32_refusal(m.spec_get("lfm2moe.block_count"@), "lfm2moe.block_count"@, r)
    } else if u("lfm2moe.embedding_length"@) {
        u32_refusal(m.spec_get("lfm2moe.embedding_length"@), "lfm2moe.embedding_length"@, r)
    } else if u("lfm2moe.context_length"@) {
        u32_refusal(m.spec_get("lfm2moe.context_length"@), "lfm2moe.context_length"@, r)
    } else if u("lfm2moe.attention.head_count"@) {
        u32_refusal(m.spec_get("lfm2moe.attention.head_count"@), "lfm2moe.attention.head_count"@, r)
    } else if i32_items(m.spec_get("lfm2moe.attention.head_count_kv"@)) is None {
        i32_array_refusal(m.spec_get("lfm2moe.attention.head_count_kv"@), "lfm2moe.attention.head_count_kv"@, r)
    } else if u("lfm2moe.expert_count"@) {
        u32_refusal(m.spec_get("lfm2moe.expert_count"@), "lfm2moe.expert_count"@, r)
    } else if u("lfm2moe.expert_used_count"@) {
        u32_refusal(m.spec_get("lfm2moe.expert_used_count"@), "lfm2moe.expert_used_count"@, r)
    } else if u("lfm2moe.expert_feed_forward_length"@) {
        u32_refusal(m.spec_get("lfm2moe.expert_feed_forward_length"@), "lfm2moe.expert_feed_forward_length"@, r)
    } else if u("lfm2moe.feed_forward_length"@) {
        u32_refusal(m.spec_get("lfm2moe.feed_forward_length"@), "lfm2moe.feed_forward_length"@, r)
    } else {
        u32_refusal(m.spec_get("lfm2moe.shortconv.l_cache"@), "lfm2moe.shortconv.l_cache"@, r)
    }
}

/// The hyperparameters `file` gives an LFM2 MoE model, all keys being there.
pub open spec fn lfm2_dims_of(file: GgufFile, d: Lfm2MoeDims) -> bool {
    let m = file.spec_metadata();
    let t = file.spec_tensors();
    let n_layers = meta_u32(m, "lfm2moe.block_count"@).unwrap();
    let d_model = meta_u32(m, "lfm2moe.embedding_length"@).unwrap();
    let n_heads = meta_u32(m, "lfm2moe.attention.head_count"@).unwrap();
    let vocab: u32 = match meta_u32(m, "lfm2moe.vocab_size"@) {
        Some(v) => v,
        None => match string_count(m.spec_get("tokenizer.ggml.tokens"@)) {
            Some(n) => n as u32,
            None => 0,
        },
    };
    &&& d.n_layers == n_layers
    &&& d.d_model == d_model
    &&& d.context_length == meta_u32(m, "lfm2moe.context_length"@).unwrap()
    &&& d.vocab_size == vocab
    &&& d.n_heads == n_heads
    &&& d.layout.layer_kv_heads@ == kv_heads_of(i32_items(m.spec_get("lfm2moe.attention.head_count_kv"@)).unwrap())
    &&& d.layout.leading_dense_block_count == u32_or(m, "lfm2moe.leading_dense_block_count"@, 0)
    &&& d.n_experts == meta_u32(m, "lfm2moe.expert_count"@).unwrap()
    &&& d.n_expert_used == meta_u32(m, "lfm2moe.expert_used_count"@).unwrap()
    &&& d.expert_ffn_dim == meta_u32(m, "lfm2moe.expert_feed_forward_length"@).unwrap()
    &&& d.expert_gating_func == gating_code(
        m.spec_get("lfm2moe.expert_gating_func"@),
        meta_u32(m, "lfm2moe.expert_gating_func"@),
    )
    &&& d.dense_ffn_dim == meta_u32(m, "lfm2moe.feed_forward_length"@).unwrap()
    &&& d.shortconv_l_cache == meta_u32(m, "lfm2moe.shortconv.l_cache"@).unwrap()
    &&& d.head_dim == d_model / n_heads
    &&& d.tied_embeddings == (last_named(t, "output.weight"@) < 0)
    &&& d.norm_topk_prob == match boolish(m.spec_get("lfm2moe.norm_topk_prob"@)) {
        Some(b) => b,
        None => true,
    }
    &&& d.use_expert_bias == (last_named(t, "blk.2.exp_probs_b.bias"@) >= 0 || exists|i: int|
        0 <= i < n_layers && last_named(t, #[trigger] expert_bias_name(i as nat)) >= 0)
}

fn expert_bias_tensor_name(i: u32) -> (s: String)
    ensures
        s@ == expert_bias_name(i as nat),
{
    let mut s = String::new();
    string_push_str(&mut s, "blk.");
    let d = decimal_string(i as u64);
    string_push_str(&mut s, d.as_str());
    string_push_str(&mut s, ".exp_probs_b.bias");
    assert(s@ =~= expert_bias_name(i as nat));
    s
}

fn kv_heads(xs: &[i32]) -> (v: Vec<usize>)
    ensures
        v@ == kv_heads_of(xs@.map_values(|x: i32| MetaItem::I32(x))),
{
    let ghost items = xs@.map_values(|x: i32| MetaItem::I32(x));
    let mut v: Vec<usize> = Vec::new();
    let mut i: usize = 0;
    while i < xs.len()
        invariant
            i <= xs@.len(),
            items == xs@.map_values(|x: i32| MetaItem::I32(x)),
            v@ == kv_heads_of(items).take(i as int),
        decreases xs@.len() - i,
    {
        let x = xs[i];
        let h: usize = if x < 0 { 0 } else { x as usize };
        v.push(h);
        proof {
            assert(items[i as int] == MetaItem::I32(x));
            assert(v@ =~= kv_heads_of(items).take(i + 1));
        }
        i = i + 1;
    }
    assert(v@ =~= kv_heads_of(items));
    v
}

/// The integer and flag hyperparameters of an LFM2 MoE model from its GGUF file. Block
/// count, embedding width, context length, head count, the per-block KV-head array,
/// expert count, experts used, expert and dense feed-forward widths and the ShortConv
/// cache length must be there, read in that order (the first missing or mistyped one is
/// reported). The vocabulary defaults to the tokenizer's token count (as `u32`) or none,
/// the leading dense blocks to none, the gating function to its string form, and the
/// top-k normalisation to on; the expert bias is used when block 2, or any block, has an
/// expert-bias tensor.
pub fn lfm2_moe_dims(file: &GgufFile) -> (r: Result<Lfm2MoeDims>)
    requires
        lfm2_keys_present(file.spec_metadata()) ==> meta_u32(file.spec_metadata(), "lfm2moe.attention.head_count"@)
            != Some(0u32),
    ensures
        lfm2_keys_present(file.spec_metadata()) ==> (r matches Ok(d) && lfm2_dims_of(*file, d)),
        !lfm2_keys_present(file.spec_metadata()) ==> lfm2_refusal(file.spec_metadata(), r),
{
    let m = file.meta();
    let n_layers = required_u32(m, "lfm2moe.block_count")?;
    let d_model = required_u32(m, "lfm2moe.embedding_length")?;
    let context_length = required_u32(m, "lfm2moe.context_length")?;
    let vocab: u32 = match m.get_u32("lfm2moe.vocab_size") {
        Ok(v) => v,
        Err(_) => match m.get_string_array("tokenizer.ggml.tokens") {
            Ok(a) => #[verifier::truncate] (a.len() as u32),
            Err(_) => 0,
        },
    };
    let n_heads = required_u32(m, "lfm2moe.attention.head_count")?;
    let layer_kv_heads = match m.get_i32_array("lfm2moe.attention.head_count_kv") {
        Ok(a) => kv_heads(a),
        Err(e) => {
            return Err(e);
        },
    };
    let n_experts = required_u32(m, "lfm2moe.expert_count")?;
    let n_expert_used = required_u32(m, "lfm2moe.expert_used_count")?;
    let expert_ffn_dim = required_u32(m, "lfm2moe.expert_feed_forward_length")?;
    let expert_gating_func = parse_gating_func(
        m.get("lfm2moe.expert_gating_func"),
        match m.get_u32("lfm2moe.expert_gating_func") {
            Ok(v) => Some(v),
            Err(_) => None,
        },
    );
    let dense_ffn_dim = required_u32(m, "lfm2moe.feed_forward_length")?;
    let leading_dense_block_count = u32_or_else(m, "lfm2moe.leading_dense_block_count", 0);
    let shortconv_l_cache = required_u32(m, "lfm2moe.shortconv.l_cache")?;
    let head_dim = d_model / n_heads;
    let tied_embeddings = !file.has_tensor("output.weight");
    let norm_topk_prob = match get_boolish(m.get("lfm2moe.norm_topk_prob")) {
        Some(b) => b,
        None => true,
    };
    let mut use_expert_bias = file.has_tensor("blk.2.exp_probs_b.bias");
    let mut found = false;
    let mut i: usize = 0;
    while i < n_layers && !found
        invariant
            i <= n_layers,
            n_layers <= u32::MAX,
            !found ==> forall|j: int| 0 <= j < i ==> last_named(file.spec_tensors(), #[trigger] expert_bias_name(j as nat)) < 0,
            found ==> exists|j: int| 0 <= j < n_layers && last_named(file.spec_tensors(), #[trigger] expert_bias_name(j as nat)) >= 0,
        decreases n_layers - i,
    {
        let name = expert_bias_tensor_name(i as u32);
        if file.has_tensor(name.as_str()) {
            proof {
                let w = i as int;
                assert(((i as u32) as nat) == (w as nat));
                assert(0 <= w < n_layers && last_named(file.spec_tensors(), expert_bias_name(w as nat)) >= 0);
            }
            found = true;
        }
        i = i + 1;
    }
    use_expert_bias = use_expert_bias || found;
    Ok(Lfm2MoeDims {
        n_layers,
        d_model,
        context_length,
        vocab_size: vocab as usize,
        n_heads,
        layout: LayerLayout { layer_kv_heads, leading_dense_block_count },
        n_experts,
        n_expert_used,
        expert_ffn_dim,
        expert_gating_func,
        dense_ffn_dim,
        shortconv_l_cache,
        head_dim,
        tied_embeddings,
        norm_topk_prob,
        use_expert_bias,
    })
}

} // verus!
