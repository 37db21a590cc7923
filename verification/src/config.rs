//! Settings read from the `fellm.toml` configuration file (memory limits and plugin
//! location), and how they fill in command-line options that were not given.
use vstd::prelude::*;
use vstd::slice::slice_subrange;

use crate::cpu_profile::unsigned_literal;
use crate::error::FellmError;
use crate::tools::{find_char, first_index};

verus! {

/// `[memory]`: device/host memory limits and storage characteristics.
#[derive(Debug, Clone)]
pub struct MemoryConfig {
    /// Device memory limit in bytes.
    pub device_memory_limit: Option<u64>,
    /// Host memory limit in bytes.
    pub host_memory_limit: Option<u64>,
    /// Host-to-device bandwidth in bytes per second.
    pub h2d_bytes_per_second: Option<u64>,
    /// Storage bandwidth in bytes per second.
    pub storage_bytes_per_second: Option<u64>,
    /// Storage latency in microseconds.
    pub storage_latency_micros: Option<u64>,
    /// Storage provider name.
    pub storage_provider: Option<String>,
    /// Host weight cache size in bytes.
    pub host_weight_cache: Option<u64>,
    /// Overlap storage reads with compute.
    pub storage_overlap: Option<bool>,
    /// Capacity of the router trace.
    pub router_trace_capacity: Option<usize>,
    /// Disable CPU model partitions.
    pub disable_cpu_partitions: Option<bool>,
}

impl Default for MemoryConfig {
    fn default() -> (c: Self)
        ensures
            c.device_memory_limit is None,
            c.host_memory_limit is None,
            c.h2d_bytes_per_second is None,
            c.storage_bytes_per_second is None,
            c.storage_latency_micros is None,
            c.storage_provider is None,
            c.host_weight_cache is None,
            c.storage_overlap is None,
            c.router_trace_capacity is None,
            c.disable_cpu_partitions is None,
    {
        MemoryConfig {
            device_memory_limit: None,
            host_memory_limit: None,
            h2d_bytes_per_second: None,
            storage_bytes_per_second: None,
            storage_latency_micros: None,
            storage_provider: None,
            host_weight_cache: None,
            storage_overlap: None,
            router_trace_capacity: None,
            disable_cpu_partitions: None,
        }
    }
}

/// `[plugins]`: where plugin libraries live.
#[derive(Debug, Clone)]
pub struct PluginsConfig {
    /// Plugin directory.
    pub plugin_dir: Option<String>,
}

impl Default for PluginsConfig {
    fn default() -> (c: Self)
        ensures
            c.plugin_dir is None,
    {
        PluginsConfig { plugin_dir: None }
    }
}

/// What the `plugins` subcommand does.
#[derive(Debug, Clone)]
pub enum PluginsAction {
    /// List registered providers.
    List {
        /// Optional plugin directory.
        plugin_dir: Option<String>,
        /// Filter by capability (`attention`, `sequence_state_policy`, ...).
        capability: Option<String>,
    },
    /// Inspect one provider by name.
    Inspect {
        /// Provider name (e.g. `attention.host_tiled`, `kv.triattention`).
        name: String,
        /// Optional plugin directory.
        plugin_dir: Option<String>,
    },
}

/// The `plugins` subcommand.
#[derive(Debug, Clone)]
pub struct PluginsCmd {
    /// The action.
    pub action: PluginsAction,
}

/// The plugin directory an action names.
pub open spec fn action_plugin_dir(a: PluginsAction) -> Option<String> {
    match a {
        PluginsAction::List { plugin_dir, .. } => plugin_dir,
        PluginsAction::Inspect { plugin_dir, .. } => plugin_dir,
    }
}

/// `a` and `b` are the same action with the same arguments, except perhaps the plugin
/// directory.
pub open spec fn same_but_dir(a: PluginsAction, b: PluginsAction) -> bool {
    match (a, b) {
        (PluginsAction::List { capability: c1, .. }, PluginsAction::List { capability: c2, .. }) => c1 == c2,
        (PluginsAction::Inspect { name: n1, .. }, PluginsAction::Inspect { name: n2, .. }) => n1 == n2,
        _ => false,
    }
}

impl PluginsCmd {
    /// Fill an unset plugin directory from the configuration file; a directory given on
    /// the command line wins.
    pub fn apply_config(&mut self, config: PluginsConfig)
        ensures
            same_but_dir(old(self).action, final(self).action),
            action_plugin_dir(final(self).action) == match action_plugin_dir(old(self).action) {
                Some(d) => Some(d),
                None => config.plugin_dir,
            },
    {
        let configured = config.plugin_dir;
        match &mut self.action {
            PluginsAction::List { plugin_dir, .. } => {
                if plugin_dir.is_none() {
                    *plugin_dir = configured;
                }
            },
            PluginsAction::Inspect { plugin_dir, .. } => {
                if plugin_dir.is_none() {
                    *plugin_dir = configured;
                }
            },
        }
    }
}

/// The integer, text and flag settings of `[run]`. Its sampling temperatures, `top_p`,
/// repetition penalty and KV memory fraction are floating-point settings, which the
/// program reads beside it.
#[derive(Debug, Clone)]
pub struct RunConfig {
    /// Model path.
    pub model: Option<String>,
    /// Prompt text.
    pub prompt: Option<String>,
    /// System prompt.
    pub system: Option<String>,
    /// Raw completion instead of the chat template.
    pub completion: Option<bool>,
    /// Tokens to generate.
    pub max_tokens: Option<u32>,
    /// Top-k sampling.
    pub top_k: Option<u32>,
    /// Sampling seed.
    pub seed: Option<u64>,
    /// Context size.
    pub ctx_size: Option<usize>,
    /// Logical batch size.
    pub batch_size: Option<usize>,
    /// Physical micro-batch size.
    pub ubatch_size: Option<usize>,
    /// Backend name.
    pub backend: Option<String>,
    /// Fall back to the CPU when the backend cannot run an op.
    pub cpu_fallback: Option<bool>,
    /// Attention provider.
    pub attention: Option<String>,
    /// KV sequence-state policy.
    pub kv_policy: Option<String>,
    /// Plugin `key=value` settings.
    pub plugin_config: Option<Vec<String>>,
    /// Plugin directory.
    pub plugin_dir: Option<String>,
    /// Device KV budget in bytes.
    pub kv_device_budget: Option<u64>,
    /// Host KV budget in bytes.
    pub kv_host_budget: Option<u64>,
    /// Memory kept free for the KV cache's safety, in bytes.
    pub kv_safety_reserve_bytes: Option<u64>,
    /// KV placement mode.
    pub kv_mode: Option<String>,
    /// KV addressing scheme.
    pub kv_addressing: Option<String>,
    /// Share KV pages between sequences with a common prefix.
    pub kv_prefix_sharing: Option<bool>,
    /// Prefetch KV pages.
    pub kv_prefetch: Option<bool>,
}

impl Default for RunConfig {
    fn default() -> (c: Self)
        ensures
            c.model is None && c.prompt is None && c.system is None && c.completion is None,
            c.max_tokens is None && c.top_k is None && c.seed is None && c.ctx_size is None,
            c.batch_size is None && c.ubatch_size is None && c.backend is None,
            c.cpu_fallback is None && c.attention is None && c.kv_policy is None,
            c.plugin_config is None && c.plugin_dir is None && c.kv_device_budget is None,
            c.kv_host_budget is None && c.kv_safety_reserve_bytes is None && c.kv_mode is None,
            c.kv_addressing is None && c.kv_prefix_sharing is None && c.kv_prefetch is None,
    {
        RunConfig {
            model: None,
            prompt: None,
            system: None,
            completion: None,
            max_tokens: None,
            top_k: None,
            seed: None,
            ctx_size: None,
            batch_size: None,
            ubatch_size: None,
            backend: None,
            cpu_fallback: None,
            attention: None,
            kv_policy: None,
            plugin_config: None,
            plugin_dir: None,
            kv_device_budget: None,
            kv_host_budget: None,
            kv_safety_reserve_bytes: None,
            kv_mode: None,
            kv_addressing: None,
            kv_prefix_sharing: None,
            kv_prefetch: None,
        }
    }
}

/// The integer, text and flag options of the `run` command line (the floating-point
/// sampling options are read beside them).
#[derive(Debug, Clone)]
pub struct RunArgs {
    /// Model path.
    pub model: Option<String>,
    /// Draft model for speculative decoding.
    pub speculative_draft: Option<String>,
    /// Speculator provider.
    pub speculator: Option<String>,
    /// Speculator model.
    pub speculator_model: Option<String>,
    /// Tokens drafted per speculative step.
    pub speculative_max_tokens: Option<usize>,
    /// Backend of the draft model.
    pub speculative_draft_backend: Option<String>,
    /// Speculative decoding mode.
    pub speculative: Option<String>,
    /// Prompt text.
    pub prompt: Option<String>,
    /// System prompt.
    pub system: Option<String>,
    /// Raw completion instead of the chat template.
    pub completion: Option<bool>,
    /// Tokens to generate.
    pub max_tokens: Option<u32>,
    /// Top-k sampling.
    pub top_k: Option<u32>,
    /// `TOKEN_ID=BIAS` logit biases, unparsed.
    pub logit_bias: Vec<String>,
    /// Sampling seed.
    pub seed: Option<u64>,
    /// Context size.
    pub ctx_size: Option<usize>,
    /// Logical batch size.
    pub batch_size: Option<usize>,
    /// Physical micro-batch size.
    pub ubatch_size: Option<usize>,
    /// Device KV budget in bytes.
    pub kv_device_budget: Option<u64>,
    /// Host KV budget in bytes.
    pub kv_host_budget: Option<u64>,
    /// Memory kept free for the KV cache's safety, in bytes.
    pub kv_safety_reserve_bytes: Option<u64>,
    /// KV placement mode.
    pub kv_mode: Option<String>,
    /// KV addressing scheme.
    pub kv_addressing: Option<String>,
    /// Share KV pages between sequences with a common prefix.
    pub kv_prefix_sharing: Option<bool>,
    /// Prefetch KV pages.
    pub kv_prefetch: Option<bool>,
    /// Maximum sequence length; an alias of the context size that wins over it.
    pub max_seq: Option<usize>,
    /// Backend name.
    pub backend: Option<String>,
    /// Attention provider.
    pub attention: Option<String>,
    /// KV sequence-state policy.
    pub kv_policy: Option<String>,
    /// Plugin `key=value` settings.
    pub plugin_config: Vec<String>,
    /// Plugin directory.
    pub plugin_dir: Option<String>,
    /// Fall back to the CPU when the backend cannot run an op.
    pub cpu_fallback: Option<bool>,
    /// Device memory limit in bytes.
    pub device_memory_limit: Option<u64>,
    /// Host memory limit in bytes.
    pub host_memory_limit: Option<u64>,
    /// Host-to-device bandwidth in bytes per second.
    pub h2d_bytes_per_second: Option<u64>,
    /// Storage bandwidth in bytes per second.
    pub storage_bytes_per_second: Option<u64>,
    /// Storage latency in microseconds.
    pub storage_latency_micros: Option<u64>,
    /// Storage provider name.
    pub storage_provider: Option<String>,
    /// Host weight cache size in bytes.
    pub host_weight_cache: Option<u64>,
    /// Overlap storage reads with compute.
    pub storage_overlap: Option<bool>,
    /// Capacity of the router trace.
    pub router_trace_capacity: Option<usize>,
    /// Disable CPU model partitions.
    pub disable_cpu_partitions: Option<bool>,
    /// Force thinking on.
    pub think: bool,
    /// Force thinking off.
    pub no_think: bool,
    /// Print the prompt before the output.
    pub echo_prompt: bool,
}

/// The memory-fabric settings of a run, resolved.
#[derive(Debug, Clone)]
pub struct MemoryFabricSettings {
    /// Device memory limit in bytes.
    pub device_memory_limit: Option<u64>,
    /// Host memory limit in bytes.
    pub host_memory_limit: Option<u64>,
    /// Host-to-device bandwidth in bytes per second.
    pub h2d_bytes_per_second: Option<u64>,
    /// Storage bandwidth in bytes per second.
    pub storage_bytes_per_second: Option<u64>,
    /// Storage latency in microseconds.
    pub storage_latency_micros: Option<u64>,
    /// Storage provider name (`auto` unless set).
    pub storage_provider: String,
    /// Host weight cache size in bytes.
    pub host_weight_cache: u64,
    /// Overlap storage reads with compute.
    pub storage_overlap: bool,
    /// Capacity of the router trace.
    pub router_trace_capacity: usize,
    /// Disable CPU model partitions.
    pub disable_cpu_partitions: bool,
}

/// The integer, text and flag settings of a run, each taken from the command line, else
/// from the configuration file, else from the built-in fallback.
#[derive(Debug, Clone)]
pub struct ResolvedRun {
    /// Model path.
    pub model: String,
    /// Draft model for speculative decoding.
    pub speculative_draft: Option<String>,
    /// Speculator provider.
    pub speculator: Option<String>,
    /// Speculator model.
    pub speculator_model: Option<String>,
    /// Tokens drafted per speculative step.
    pub speculative_max_tokens: usize,
    /// Backend of the draft model.
    pub speculative_draft_backend: Option<String>,
    /// Speculative decoding mode.
    pub speculative: Option<String>,
    /// Prompt text.
    pub prompt: String,
    /// System prompt.
    pub system: Option<String>,
    /// Raw completion instead of the chat template.
    pub completion: bool,
    /// Tokens to generate.
    pub max_tokens: u32,
    /// Top-k sampling.
    pub top_k: u32,
    /// Logit biases: token ids, with the bias texts still to be parsed.
    pub logit_bias: Vec<(u32, String)>,
    /// Sampling seed.
    pub seed: u64,
    /// Context size.
    pub ctx_size: usize,
    /// Logical batch size.
    pub batch_size: usize,
    /// Physical micro-batch size.
    pub ubatch_size: usize,
    /// Device KV budget in bytes.
    pub kv_device_budget: u64,
    /// Host KV budget in bytes.
    pub kv_host_budget: u64,
    /// Memory kept free for the KV cache's safety, in bytes.
    pub kv_safety_reserve_bytes: u64,
    /// KV placement mode.
    pub kv_mode: String,
    /// KV addressing scheme.
    pub kv_addressing: String,
    /// Share KV pages between sequences with a common prefix.
    pub kv_prefix_sharing: bool,
    /// Prefetch KV pages.
    pub kv_prefetch: bool,
    /// Backend name.
    pub backend: String,
    /// Attention provider.
    pub attention: Option<String>,
    /// KV sequence-state policy.
    pub kv_policy: Option<String>,
    /// Plugin `key=value` settings.
    pub plugin_config: Vec<String>,
    /// Plugin directory.
    pub plugin_dir: Option<String>,
    /// Fall back to the CPU when the backend cannot run an op.
    pub cpu_fallback: bool,
    /// Force thinking on.
    pub think: bool,
    /// Force thinking off.
    pub no_think: bool,
    /// Print the prompt before the output.
    pub echo_prompt: bool,
    /// Memory-fabric settings.
    pub memory_fabric: MemoryFabricSettings,
}

/// The first of two optional settings that is set.
pub open spec fn either<T>(first: Option<T>, second: Option<T>) -> Option<T> {
    match first {
        Some(x) => Some(x),
        None => second,
    }
}

/// The first of two optional settings that is set, else the fallback.
pub open spec fn setting<T>(first: Option<T>, second: Option<T>, fallback: T) -> T {
    match either(first, second) {
        Some(x) => x,
        None => fallback,
    }
}

/// The text of the first of two optional text settings that is set, else the fallback.
pub open spec fn text_setting(first: Option<String>, second: Option<String>, fallback: Seq<char>) -> Seq<char> {
    match either(first, second) {
        Some(x) => x@,
        None => fallback,
    }
}

/// A list given on the command line wins; an empty one takes the file's list, if any.
pub open spec fn list_setting(cli: Seq<String>, file: Option<Vec<String>>) -> Seq<String> {
    if cli.len() == 0 {
        match file {
            Some(v) => v@,
            None => Seq::empty(),
        }
    } else {
        cli
    }
}

/// A setting given on the command line overrides the configuration file, and one given in
/// the file overrides the built-in fallback.
pub proof fn lemma_setting_precedence<T>(cli: Option<T>, file: Option<T>, fallback: T)
    ensures
        cli is Some ==> setting(cli, file, fallback) == cli->0,
        cli is None && file is Some ==> setting(cli, file, fallback) == file->0,
        cli is None && file is None ==> setting(cli, file, fallback) == fallback,
{
}

/// A non-empty list given on the command line is used as given, whatever the file holds;
/// only an empty one gives way to the file's list (or to no list at all).
pub proof fn lemma_list_precedence(cli: Seq<String>, file: Option<Vec<String>>)
    ensures
        cli.len() > 0 ==> list_setting(cli, file) == cli,
        cli.len() == 0 && file is Some ==> list_setting(cli, file) == file->0@,
        cli.len() == 0 && file is None ==> list_setting(cli, file).len() == 0,
{
}

/// A text setting given on the command line is used as given; one given only in the file
/// comes from the file; else the fallback.
pub proof fn lemma_text_setting_precedence(cli: Option<String>, file: Option<String>, fallback: Seq<char>)
    ensures
        cli is Some ==> text_setting(cli, file, fallback) == cli->0@,
        cli is None && file is Some ==> text_setting(cli, file, fallback) == file->0@,
        cli is None && file is None ==> text_setting(cli, file, fallback) == fallback,
{
}

fn first_set<T>(first: Option<T>, second: Option<T>) -> (r: Option<T>)
    ensures
        r == either(first, second),
{
    match first {
        Some(x) => Some(x),
        None => second,
    }
}

fn or_fallback<T>(first: Option<T>, second: Option<T>, fallback: T) -> (r: T)
    ensures
        r == setting(first, second, fallback),
{
    match first_set(first, second) {
        Some(x) => x,
        None => fallback,
    }
}

fn text_or(first: Option<String>, second: Option<String>, fallback: &str) -> (r: String)
    ensures
        r@ == text_setting(first, second, fallback@),
{
    match first_set(first, second) {
        Some(x) => x,
        None => fallback.to_owned(),
    }
}

fn list_or(cli: Vec<String>, file: Option<Vec<String>>) -> (r: Vec<String>)
    ensures
        r@ == list_setting(cli@, file),
{
    if cli.len() == 0 {
        match file {
            Some(v) => v,
            None => Vec::new(),
        }
    } else {
        cli
    }
}

/// Resolve the settings of a run. Each comes from the command line if it was given there,
/// else from `[run]` (or `[memory]` for the memory fabric) of the configuration file, else
/// from its built-in fallback. A run needs a model and a prompt, and its logit biases must
/// each name a `u32` token before an `=`.
pub fn resolve_run(cli: RunArgs, file: RunConfig, memory: MemoryConfig) -> (r: Result<ResolvedRun, FellmError>)
    ensures
        either(cli.model, file.model) is None ==> (r matches Err(FellmError::Other(m))
            && m@ == "model must be set in [run].model or on the CLI"@),
        either(cli.model, file.model) is Some && either(cli.prompt, file.prompt) is None
            ==> (r matches Err(FellmError::Other(m))
            && m@ == "prompt must be set in [run].prompt or with --prompt"@),
        either(cli.model, file.model) is Some && either(cli.prompt, file.prompt) is Some && (exists|k: int|
            0 <= k < cli.logit_bias@.len() && logit_bias_entry(#[trigger] cli.logit_bias@[k]@) is None) ==> (r matches Err(
            FellmError::Other(m),
        ) && exists|k: int|
            0 <= k < cli.logit_bias@.len() && logit_bias_entry(#[trigger] cli.logit_bias@[k]@) is None && (forall|j: int|
                0 <= j < k ==> logit_bias_entry(#[trigger] cli.logit_bias@[j]@) is Some) && logit_bias_error(
                cli.logit_bias@[k]@,
                m@,
            )),
        r is Ok <==> either(cli.model, file.model) is Some && either(cli.prompt, file.prompt) is Some && forall|k: int|
            0 <= k < cli.logit_bias@.len() ==> logit_bias_entry(#[trigger] cli.logit_bias@[k]@) is Some,
        r matches Ok(v) ==> {
            &&& either(cli.model, file.model) == Some(v.model)
            &&& either(cli.prompt, file.prompt) == Some(v.prompt)
            &&& v.speculative_draft == cli.speculative_draft
            &&& v.speculator == cli.speculator
            &&& v.speculator_model == cli.speculator_model
            &&& v.speculative_max_tokens == setting(cli.speculative_max_tokens, None, 4usize)
            &&& v.speculative_draft_backend == cli.speculative_draft_backend
            &&& v.speculative == cli.speculative
            &&& v.system == either(cli.system, file.system)
            &&& v.completion == setting(cli.completion, file.completion, false)
            &&& v.max_tokens == setting(cli.max_tokens, file.max_tokens, 128u32)
            &&& v.top_k == setting(cli.top_k, file.top_k, 80u32)
            &&& v.logit_bias@.len() == cli.logit_bias@.len()
            &&& forall|k: int| 0 <= k < cli.logit_bias@.len() ==> logit_bias_entry(#[trigger] cli.logit_bias@[k]@) == Some(
                (v.logit_bias@[k].0, v.logit_bias@[k].1@),
            )
            &&& v.seed == setting(cli.seed, file.seed, 0u64)
            &&& v.ctx_size == setting(either(cli.max_seq, cli.ctx_size), file.ctx_size, 8192usize)
            &&& v.batch_size == setting(cli.batch_size, file.batch_size, 2048usize)
            &&& v.ubatch_size == setting(cli.ubatch_size, file.ubatch_size, 512usize)
            &&& v.kv_device_budget == setting(cli.kv_device_budget, file.kv_device_budget, 0u64)
            &&& v.kv_host_budget == setting(cli.kv_host_budget, file.kv_host_budget, 0u64)
            &&& v.kv_safety_reserve_bytes == setting(
                cli.kv_safety_reserve_bytes,
                file.kv_safety_reserve_bytes,
                2147483648u64,
            )
            &&& v.kv_mode@ == text_setting(cli.kv_mode, file.kv_mode, "auto"@)
            &&& v.kv_addressing@ == text_setting(cli.kv_addressing, file.kv_addressing, "block_table"@)
            &&& v.kv_prefix_sharing == setting(cli.kv_prefix_sharing, file.kv_prefix_sharing, true)
            &&& v.kv_prefetch == setting(cli.kv_prefetch, file.kv_prefetch, true)
            &&& v.backend@ == text_setting(cli.backend, file.backend, "auto"@)
            &&& v.attention == either(cli.attention, file.attention)
            &&& v.kv_policy == either(cli.kv_policy, file.kv_policy)
            &&& v.plugin_config@ == list_setting(cli.plugin_config@, file.plugin_config)
            &&& cli.plugin_config@.len() > 0 ==> v.plugin_config@ == cli.plugin_config@
            &&& v.plugin_dir == either(cli.plugin_dir, file.plugin_dir)
            &&& v.cpu_fallback == setting(cli.cpu_fallback, file.cpu_fallback, true)
            &&& v.think == cli.think
            &&& v.no_think == cli.no_think
            &&& v.echo_prompt == cli.echo_prompt
            &&& v.memory_fabric.device_memory_limit == either(cli.device_memory_limit, memory.device_memory_limit)
            &&& v.memory_fabric.host_memory_limit == either(cli.host_memory_limit, memory.host_memory_limit)
            &&& v.memory_fabric.h2d_bytes_per_second == either(cli.h2d_bytes_per_second, memory.h2d_bytes_per_second)
            &&& v.memory_fabric.storage_bytes_per_second == either(
                cli.storage_bytes_per_second,
                memory.storage_bytes_per_second,
            )
            &&& v.memory_fabric.storage_latency_micros == either(
                cli.storage_latency_micros,
                memory.storage_latency_micros,
            )
            &&& v.memory_fabric.storage_provider@ == text_setting(cli.storage_provider, memory.storage_provider, "auto"@)
            &&& v.memory_fabric.host_weight_cache == setting(cli.host_weight_cache, memory.host_weight_cache, 0u64)
            &&& v.memory_fabric.storage_overlap == setting(cli.storage_overlap, memory.storage_overlap, true)
            &&& v.memory_fabric.router_trace_capacity == setting(
                cli.router_trace_capacity,
                memory.router_trace_capacity,
                65536usize,
            )
            &&& v.memory_fabric.disable_cpu_partitions == setting(
                cli.disable_cpu_partitions,
                memory.disable_cpu_partitions,
                false,
            )
        },
{
    let model = match first_set(cli.model, file.model) {
        Some(m) => m,
        None => {
            return Err(FellmError::other("model must be set in [run].model or on the CLI"));
        },
    };
    let prompt = match first_set(cli.prompt, file.prompt) {
        Some(p) => p,
        None => {
            return Err(FellmError::other("prompt must be set in [run].prompt or with --prompt"));
        },
    };
    let logit_bias = parse_logit_bias(cli.logit_bias.as_slice())?;
    let memory_fabric = MemoryFabricSettings {
        device_memory_limit: first_set(cli.device_memory_limit, memory.device_memory_limit),
        host_memory_limit: first_set(cli.host_memory_limit, memory.host_memory_limit),
        h2d_bytes_per_second: first_set(cli.h2d_bytes_per_second, memory.h2d_bytes_per_second),
        storage_bytes_per_second: first_set(cli.storage_bytes_per_second, memory.storage_bytes_per_second),
        storage_latency_micros: first_set(cli.storage_latency_micros, memory.storage_latency_micros),
        storage_provider: text_or(cli.storage_provider, memory.storage_provider, "auto"),
        host_weight_cache: or_fallback(cli.host_weight_cache, memory.host_weight_cache, 0),
        storage_overlap: or_fallback(cli.storage_overlap, memory.storage_overlap, true),
        router_trace_capacity: or_fallback(cli.router_trace_capacity, memory.router_trace_capacity, 65536),
        disable_cpu_partitions: or_fallback(cli.disable_cpu_partitions, memory.disable_cpu_partitions, false),
    };
    Ok(ResolvedRun {
        model,
        speculative_draft: cli.speculative_draft,
        speculator: cli.speculator,
        speculator_model: cli.speculator_model,
        speculative_max_tokens: or_fallback(cli.speculative_max_tokens, None, 4),
        speculative_draft_backend: cli.speculative_draft_backend,
        speculative: cli.speculative,
        prompt,
        system: first_set(cli.system, file.system),
        completion: or_fallback(cli.completion, file.completion, false),
        max_tokens: or_fallback(cli.max_tokens, file.max_tokens, 128),
        top_k: or_fallback(cli.top_k, file.top_k, 80),
        logit_bias,
        seed: or_fallback(cli.seed, file.seed, 0),
        ctx_size: or_fallback(first_set(cli.max_seq, cli.ctx_size), file.ctx_size, 8192),
        batch_size: or_fallback(cli.batch_size, file.batch_size, 2048),
        ubatch_size: or_fallback(cli.ubatch_size, file.ubatch_size, 512),
        kv_device_budget: or_fallback(cli.kv_device_budget, file.kv_device_budget, 0),
        kv_host_budget: or_fallback(cli.kv_host_budget, file.kv_host_budget, 0),
        kv_safety_reserve_bytes: or_fallback(cli.kv_safety_reserve_bytes, file.kv_safety_reserve_bytes, 2147483648),
        kv_mode: text_or(cli.kv_mode, file.kv_mode, "auto"),
        kv_addressing: text_or(cli.kv_addressing, file.kv_addressing, "block_table"),
        kv_prefix_sharing: or_fallback(cli.kv_prefix_sharing, file.kv_prefix_sharing, true),
        kv_prefetch: or_fallback(cli.kv_prefetch, file.kv_prefetch, true),
        backend: text_or(cli.backend, file.backend, "auto"),
        attention: first_set(cli.attention, file.attention),
        kv_policy: first_set(cli.kv_policy, file.kv_policy),
        plugin_config: list_or(cli.plugin_config, file.plugin_config),
        plugin_dir: first_set(cli.plugin_dir, file.plugin_dir),
        cpu_fallback: or_fallback(cli.cpu_fallback, file.cpu_fallback, true),
        think: cli.think,
        no_think: cli.no_think,
        echo_prompt: cli.echo_prompt,
        memory_fabric,
    })
}

/// `str::parse::<u32>`: the value of the text when it is an optional `+` followed by
/// decimal digits and fits in a `u32`; otherwise the parse error, as its `Display` text.
#[verifier::external_body]
fn str_parse_u32(s: &str) -> (r: core::result::Result<u32, String>)
    ensures
        match unsigned_literal(s@) {
            Some(v) => if v <= u32::MAX {
                r == core::result::Result::<u32, String>::Ok(v as u32)
            } else {
                r is Err
            },
            None => r is Err,
        },
{
    match s.parse::<u32>() {
        Ok(v) => Ok(v),
        Err(e) => Err(e.to_string()),
    }
}

/// The message for a logit bias without `=` (`format!` of the text between quotes).
#[verifier::external_body]
fn logit_bias_shape_message(value: &str) -> (m: String)
    ensures
        m@ == "logit bias must be TOKEN_ID=BIAS, got '"@ + value@ + "'"@,
{
    format!("logit bias must be TOKEN_ID=BIAS, got '{value}'")
}

/// The message for a logit bias whose token is not a `u32` (`format!` of the token and
/// the parse error's text).
#[verifier::external_body]
fn logit_bias_token_message(token: &str, error: &str) -> (m: String)
    ensures
        m@ == "invalid logit-bias token '"@ + token@ + "': "@ + error@,
{
    format!("invalid logit-bias token '{token}': {error}")
}

/// A `TOKEN_ID=BIAS` logit bias read as far as integers go: the token id before the first
/// `=`, which must be a `u32`, and the bias text after it.
pub open spec fn logit_bias_entry(v: Seq<char>) -> Option<(u32, Seq<char>)> {
    let i = first_index(v, '=');
    if i < 0 {
        None
    } else {
        match unsigned_literal(v.take(i)) {
            Some(n) => if n <= u32::MAX {
                Some((n as u32, v.skip(i + 1)))
            } else {
                None
            },
            None => None,
        }
    }
}

/// `m` is the message that refuses the logit bias `v`: the whole text when it has no
/// `=`, else the token before it followed by the parse error's text.
pub open spec fn logit_bias_error(v: Seq<char>, m: Seq<char>) -> bool {
    let i = first_index(v, '=');
    if i < 0 {
        m == "logit bias must be TOKEN_ID=BIAS, got '"@ + v + "'"@
    } else {
        exists|e: Seq<char>| m == "invalid logit-bias token '"@ + v.take(i) + "': "@ + e
    }
}

/// The token id and the still-unparsed bias of a `TOKEN_ID=BIAS` logit bias: the text
/// before the first `=` must be a `u32`; the text after it is the bias.
pub fn split_logit_bias(value: &str) -> (r: core::result::Result<(u32, String), FellmError>)
    ensures
        match logit_bias_entry(value@) {
            Some((t, b)) => r matches Ok((t2, b2)) && t2 == t && b2@ == b,
            None => r matches Err(FellmError::Other(m)) && logit_bias_error(value@, m@),
        },
{
    let cs = crate::text::str_chars(value);
    proof {
        crate::tools::lemma_first_index(cs@, '=');
    }
    match find_char(cs.as_slice(), '=') {
        None => Err(FellmError::Other(logit_bias_shape_message(value))),
        Some(i) => {
            let token = crate::text::string_from_chars(slice_subrange(cs.as_slice(), 0, i));
            let bias = crate::text::string_from_chars(slice_subrange(cs.as_slice(), i + 1, cs.len()));
            proof {
                assert(token@ =~= value@.take(i as int));
                assert(bias@ =~= value@.skip(i + 1));
            }
            match str_parse_u32(token.as_str()) {
                Ok(t) => Ok((t, bias)),
                Err(e) => Err(FellmError::Other(logit_bias_token_message(token.as_str(), e.as_str()))),
            }
        },
    }
}

/// The logit biases read as far as integers go, in order; the first one refused ends the
/// reading with its error. The bias texts are parsed as floating-point numbers by the
/// caller.
pub fn parse_logit_bias(values: &[String]) -> (r: core::result::Result<Vec<(u32, String)>, FellmError>)
    ensures
        (forall|k: int| 0 <= k < values@.len() ==> logit_bias_entry(#[trigger] values@[k]@) is Some) ==> (r matches Ok(
            out,
        ) && out@.len() == values@.len() && forall|k: int|
            0 <= k < values@.len() ==> logit_bias_entry(#[trigger] values@[k]@) == Some((out@[k].0, out@[k].1@))),
        (exists|k: int| 0 <= k < values@.len() && logit_bias_entry(#[trigger] values@[k]@) is None) ==> (r matches Err(
            FellmError::Other(m),
        ) && exists|k: int|
            0 <= k < values@.len() && logit_bias_entry(#[trigger] values@[k]@) is None && (forall|j: int|
                0 <= j < k ==> logit_bias_entry(#[trigger] values@[j]@) is Some) && logit_bias_error(values@[k]@, m@)),
{
    let mut out: Vec<(u32, String)> = Vec::new();
    let mut i: usize = 0;
    while i < values.len()
        invariant
            i <= values@.len(),
            out@.len() == i,
            forall|k: int| 0 <= k < i ==> logit_bias_entry(#[trigger] values@[k]@) == Some((out@[k].0, out@[k].1@)),
        decreases values@.len() - i,
    {
        match split_logit_bias(values[i].as_str()) {
            Ok(e) => {
                out.push(e);
            },
            Err(e) => {
                assert(forall|j: int| 0 <= j < i ==> logit_bias_entry(#[trigger] values@[j]@) is Some);
                return Err(e);
            },
        }
        i = i + 1;
    }
    Ok(out)
}

} // verus!
