use fellm::config::{resolve_run, split_logit_bias, MemoryConfig, RunArgs, RunConfig};
use fellm::error::FellmError;

fn empty_cli() -> RunArgs {
    RunArgs {
        model: None,
        speculative_draft: None,
        speculator: None,
        speculator_model: None,
        speculative_max_tokens: None,
        speculative_draft_backend: None,
        speculative: None,
        prompt: None,
        system: None,
        completion: None,
        max_tokens: None,
        top_k: None,
        logit_bias: Vec::new(),
        seed: None,
        ctx_size: None,
        batch_size: None,
        ubatch_size: None,
        kv_device_budget: None,
        kv_host_budget: None,
        kv_safety_reserve_bytes: None,
        kv_mode: None,
        kv_addressing: None,
        kv_prefix_sharing: None,
        kv_prefetch: None,
        max_seq: None,
        backend: None,
        attention: None,
        kv_policy: None,
        plugin_config: Vec::new(),
        plugin_dir: None,
        cpu_fallback: None,
        device_memory_limit: None,
        host_memory_limit: None,
        h2d_bytes_per_second: None,
        storage_bytes_per_second: None,
        storage_latency_micros: None,
        storage_provider: None,
        host_weight_cache: None,
        storage_overlap: None,
        router_trace_capacity: None,
        disable_cpu_partitions: None,
        think: false,
        no_think: false,
        echo_prompt: false,
    }
}

#[test]
fn cli_overrides_file_and_file_overrides_builtin_fallback() {
    let mut cli = empty_cli();
    cli.model = Some("cli.gguf".into());
    cli.prompt = Some("cli prompt".into());
    cli.backend = Some("cuda".into());
    let file = RunConfig {
        model: Some("file.gguf".into()),
        prompt: Some("file prompt".into()),
        backend: Some("cpu".into()),
        max_tokens: Some(7),
        ..RunConfig::default()
    };
    let resolved = resolve_run(cli, file, MemoryConfig::default()).unwrap();
    assert_eq!(resolved.model, "cli.gguf");
    assert_eq!(resolved.prompt, "cli prompt");
    assert_eq!(resolved.backend, "cuda");
    assert_eq!(resolved.max_tokens, 7);
    assert_eq!(resolved.ctx_size, 8192);
}

#[test]
fn run_fallbacks_when_nothing_is_set() {
    let mut cli = empty_cli();
    cli.model = Some("m.gguf".into());
    cli.prompt = Some("hi".into());
    let r = resolve_run(cli, RunConfig::default(), MemoryConfig::default()).unwrap();
    assert_eq!(r.max_tokens, 128);
    assert_eq!(r.top_k, 80);
    assert_eq!(r.batch_size, 2048);
    assert_eq!(r.ubatch_size, 512);
    assert_eq!(r.kv_safety_reserve_bytes, 2 * 1024 * 1024 * 1024);
    assert_eq!(r.kv_mode, "auto");
    assert_eq!(r.kv_addressing, "block_table");
    assert!(r.kv_prefix_sharing && r.kv_prefetch && r.cpu_fallback);
    assert_eq!(r.speculative_max_tokens, 4);
    assert_eq!(r.memory_fabric.storage_provider, "auto");
    assert_eq!(r.memory_fabric.router_trace_capacity, 65_536);
    assert!(r.memory_fabric.storage_overlap);
    assert!(!r.memory_fabric.disable_cpu_partitions);
}

#[test]
fn max_seq_wins_over_ctx_size_and_lists_fall_back_to_file() {
    let mut cli = empty_cli();
    cli.model = Some("m.gguf".into());
    cli.prompt = Some("hi".into());
    cli.ctx_size = Some(1024);
    cli.max_seq = Some(4096);
    let file = RunConfig {
        ctx_size: Some(2048),
        plugin_config: Some(vec!["a=1".to_string()]),
        ..RunConfig::default()
    };
    let memory = MemoryConfig { storage_provider: Some("mmap".into()), ..MemoryConfig::default() };
    let r = resolve_run(cli, file, memory).unwrap();
    assert_eq!(r.ctx_size, 4096);
    assert_eq!(r.plugin_config, vec!["a=1".to_string()]);
    assert_eq!(r.memory_fabric.storage_provider, "mmap");
}

#[test]
fn run_without_model_or_prompt_is_refused() {
    let mut cli = empty_cli();
    match resolve_run(cli.clone(), RunConfig::default(), MemoryConfig::default()) {
        Err(FellmError::Other(m)) => assert_eq!(m, "model must be set in [run].model or on the CLI"),
        other => panic!("unexpected {:?}", other.is_ok()),
    }
    cli.model = Some("m.gguf".into());
    match resolve_run(cli, RunConfig::default(), MemoryConfig::default()) {
        Err(FellmError::Other(m)) => assert_eq!(m, "prompt must be set in [run].prompt or with --prompt"),
        other => panic!("unexpected {:?}", other.is_ok()),
    }
}

#[test]
fn logit_bias_token_and_bias_text() {
    let ok = |v: &str| split_logit_bias(v).unwrap();
    let err = |v: &str| match split_logit_bias(v) {
        Err(FellmError::Other(m)) => m,
        _ => panic!("expected an error"),
    };
    assert_eq!(ok("42=-1.5"), (42, "-1.5".to_string()));
    assert_eq!(ok("+7=0"), (7, "0".to_string()));
    assert_eq!(ok("1=2=3"), (1, "2=3".to_string()));
    assert_eq!(ok("4294967295="), (4294967295, String::new()));
    assert_eq!(err("5"), "logit bias must be TOKEN_ID=BIAS, got '5'");
    assert_eq!(err("a=1"), "invalid logit-bias token 'a': invalid digit found in string");
    assert_eq!(err("=1"), "invalid logit-bias token '': cannot parse integer from empty string");
    assert_eq!(
        err("4294967296=1"),
        "invalid logit-bias token '4294967296': number too large to fit in target type"
    );
    assert_eq!(err("-0=1"), "invalid logit-bias token '-0': invalid digit found in string");
}

#[test]
fn run_logit_biases_are_read_or_refused() {
    let mut cli = empty_cli();
    cli.model = Some("m.gguf".into());
    cli.prompt = Some("hi".into());
    cli.logit_bias = vec!["7=-2.5".to_string(), "+9=1".to_string()];
    let r = resolve_run(cli.clone(), RunConfig::default(), MemoryConfig::default()).unwrap();
    assert_eq!(r.logit_bias, vec![(7, "-2.5".to_string()), (9, "1".to_string())]);
    cli.logit_bias = vec!["7=1".to_string(), "x=1".to_string(), "3".to_string()];
    match resolve_run(cli.clone(), RunConfig::default(), MemoryConfig::default()) {
        Err(FellmError::Other(m)) => assert_eq!(m, "invalid logit-bias token 'x': invalid digit found in string"),
        other => panic!("unexpected {:?}", other.is_ok()),
    }
    cli.logit_bias = vec!["3".to_string()];
    match resolve_run(cli, RunConfig::default(), MemoryConfig::default()) {
        Err(FellmError::Other(m)) => assert_eq!(m, "logit bias must be TOKEN_ID=BIAS, got '3'"),
        other => panic!("unexpected {:?}", other.is_ok()),
    }
}
