use llama_admin_monitor::server_args::{build_server_args, yarn_scale, ServerConfig};

fn cfg() -> ServerConfig {
    let mut c = ServerConfig::default();
    c.model_path = "/models/test.gguf".into();
    c.port = 8080;
    c.parallel_slots = 1;
    c.no_warmup = true; // historical default; serde default on deserialization
    c
}

/// A fractional setting as the command line carries it.
fn num(v: f64) -> Option<String> {
    Some(v.to_string())
}

fn has(a: &[String], flag: &str) -> bool {
    a.iter().any(|x| x == flag)
}

/// Value following `flag` in the arg list, if present.
fn pair(a: &[String], flag: &str) -> Option<String> {
    let i = a.iter().position(|x| x == flag)?;
    a.get(i + 1).cloned()
}

#[test]
fn build_args_core_always_present_and_optins_absent() {
    let a = build_server_args(&cfg(), false);
    for flag in [
        "-m",
        "--no-warmup",
        "--jinja",
        "--metrics",
        "--webui-mcp-proxy",
        "-ngl",
        "-ctk",
        "-ctv",
        "--host",
        "--port",
        "-c",
        "-b",
        "-ub",
        "--parallel",
    ] {
        assert!(has(&a, flag), "missing {flag} in {a:?}");
    }
    // Optional flags must not appear when unset
    for flag in [
        "--temp",
        "--top-p",
        "--top-k",
        "--min-p",
        "--repeat-penalty",
        "--presence-penalty",
        "--frequency-penalty",
        "--ignore-eos",
        "--rea",
        "--reasoning-effort",
        "--reasoning-preserve",
        "--chat-template-kwargs",
        "--spec-type",
        "--spec-draft-ngl",
        "--fit",
        "--fitt",
        "--kv-offload",
        "--cram",
        "--context-shift",
        "--mmdev",
        "--mmproj-offload",
        "--image-min-tokens",
        "--image-max-tokens",
    ] {
        assert!(!has(&a, flag), "unexpected {flag} in {a:?}");
    }
}

#[test]
fn build_args_sampling_flags() {
    let mut c = cfg();
    c.temperature = num(1.0);
    c.top_p = num(0.95);
    c.top_k = Some(20);
    c.min_p = num(0.0);
    c.repeat_penalty = num(1.0);
    c.presence_penalty = num(1.5);
    c.frequency_penalty = num(0.0);
    c.ignore_eos = true;
    let a = build_server_args(&c, false);
    assert_eq!(pair(&a, "--temp"), Some("1".into()));
    assert_eq!(pair(&a, "--top-p"), Some("0.95".into()));
    assert_eq!(pair(&a, "--top-k"), Some("20".into()));
    assert_eq!(pair(&a, "--min-p"), Some("0".into()));
    assert_eq!(pair(&a, "--repeat-penalty"), Some("1".into()));
    assert_eq!(pair(&a, "--presence-penalty"), Some("1.5".into()));
    assert_eq!(pair(&a, "--frequency-penalty"), Some("0".into()));
    assert!(has(&a, "--ignore-eos"));
}

#[test]
fn build_args_reasoning_flags() {
    let mut c = cfg();
    c.reasoning = "on".into();
    c.reasoning_effort = "medium".into();
    c.reasoning_preserve = true;
    c.chat_template_kwargs = r#"{"reasoning_effort":"medium"}"#.into();
    let a = build_server_args(&c, false);
    assert_eq!(pair(&a, "--rea"), Some("on".into()));
    assert_eq!(pair(&a, "--reasoning-effort"), Some("medium".into()));
    assert!(has(&a, "--reasoning-preserve"));
    assert_eq!(
        pair(&a, "--chat-template-kwargs"),
        Some(r#"{"reasoning_effort":"medium"}"#.into())
    );
}

#[test]
fn build_args_spec_type_override_and_legacy() {
    // Legacy: ngram-spec checkbox alone means ngram-mod with default sizes
    let mut c = cfg();
    c.ngram_spec = true;
    let a = build_server_args(&c, false);
    assert_eq!(pair(&a, "--spec-type"), Some("ngram-mod".into()));
    assert_eq!(pair(&a, "--spec-ngram-size-n"), Some("24".into()));
    assert_eq!(pair(&a, "--draft-min"), Some("8".into()));
    assert_eq!(pair(&a, "--draft-max"), Some("24".into()));

    // Explicit override wins: draft-mtp gets no ngram-size flag
    c.spec_type = "draft-mtp".into();
    c.spec_ngram_size = Some(48);
    let a = build_server_args(&c, false);
    assert_eq!(pair(&a, "--spec-type"), Some("draft-mtp".into()));
    assert_eq!(pair(&a, "--spec-ngram-size-n"), None);

    // "none" disables speculation entirely
    c.spec_type = "none".into();
    let a = build_server_args(&c, false);
    assert_eq!(pair(&a, "--spec-type"), None);
    assert_eq!(pair(&a, "--draft-min"), None);

    // No spec at all, but a draft model still loads
    c.spec_type.clear();
    c.ngram_spec = false;
    c.draft_model = "/models/draft.gguf".into();
    let a = build_server_args(&c, false);
    assert_eq!(pair(&a, "--spec-type"), None);
    assert_eq!(pair(&a, "-md"), Some("/models/draft.gguf".into()));
}

#[test]
fn build_args_draft_tuning() {
    let mut c = cfg();
    c.spec_type = "draft-mtp".into();
    c.draft_ngl = Some(40);
    c.draft_device = "CPU".into();
    c.draft_threads = Some(8);
    c.draft_threads_batch = Some(16);
    c.draft_p_min = num(0.05);
    let a = build_server_args(&c, false);
    assert_eq!(pair(&a, "--spec-draft-ngl"), Some("40".into()));
    assert_eq!(pair(&a, "--spec-draft-device"), Some("CPU".into()));
    assert_eq!(pair(&a, "--spec-draft-threads"), Some("8".into()));
    assert_eq!(pair(&a, "--spec-draft-threads-batch"), Some("16".into()));
    assert_eq!(pair(&a, "--draft-p-min"), Some("0.05".into()));
}

#[test]
fn build_args_memory_and_kv() {
    let mut c = cfg();
    c.fit = "on".into();
    c.fit_target = "8192,16384".into();
    c.kv_offload = true;
    c.cram = Some(2);
    c.context_shift = true;
    c.no_warmup = false;
    let a = build_server_args(&c, false);
    assert_eq!(pair(&a, "--fit"), Some("on".into()));
    assert_eq!(pair(&a, "--fitt"), Some("8192,16384".into()));
    assert!(has(&a, "--kv-offload"));
    assert_eq!(pair(&a, "--cram"), Some("2".into()));
    assert!(has(&a, "--context-shift"));
    assert!(has(&a, "--warmup") && !has(&a, "--no-warmup"));
}

#[test]
fn build_args_projector_placement() {
    let mut c = cfg();
    c.mmproj = "/models/mmproj.gguf".into();
    c.mmproj_device = "Vulkan0".into();
    c.mmproj_offload = true;
    c.image_min_tokens = Some(256);
    c.image_max_tokens = Some(4096);
    let a = build_server_args(&c, false);
    assert_eq!(pair(&a, "--mmproj"), Some("/models/mmproj.gguf".into()));
    assert_eq!(pair(&a, "--mmdev"), Some("Vulkan0".into()));
    assert!(has(&a, "--mmproj-offload"));
    assert_eq!(pair(&a, "--image-min-tokens"), Some("256".into()));
    assert_eq!(pair(&a, "--image-max-tokens"), Some("4096".into()));
}

#[test]
fn build_args_cuda_skips_tensor_split() {
    let mut c = cfg();
    c.tensor_split = "7,8".into();
    assert_eq!(pair(&build_server_args(&c, true), "-ts"), None);
    assert_eq!(pair(&build_server_args(&c, false), "-ts"), Some("7,8".into()));
}

#[test]
fn build_args_core_values() {
    let mut c = cfg();
    c.context_size = 32768;
    c.ctk = "q8_0".into();
    c.ctv = "q8_0".into();
    c.batch_size = 2048;
    c.ubatch_size = 512;
    let a = build_server_args(&c, false);
    assert_eq!(pair(&a, "-m"), Some("/models/test.gguf".into()));
    assert_eq!(pair(&a, "--port"), Some("8080".into()));
    assert_eq!(pair(&a, "-c"), Some("32768".into()));
    assert_eq!(pair(&a, "-b"), Some("2048".into()));
    assert_eq!(pair(&a, "-ub"), Some("512".into()));
    assert_eq!(pair(&a, "-ctk"), Some("q8_0".into()));
    assert_eq!(pair(&a, "--parallel"), Some("1".into()));
}

#[test]
fn build_args_blank_config_has_no_options() {
    let c = ServerConfig::default();
    assert!(c.model_path.is_empty() && c.temperature.is_none() && !c.no_warmup);
}

#[test]
fn yarn_scale_for_long_context() {
    assert_eq!(yarn_scale(524288), "0.500000");
    assert_eq!(yarn_scale(1048576), "0.250000");
    assert_eq!(yarn_scale(393216), "0.666667");
}

#[test]
fn build_args_auto_yarn_above_256k() {
    let mut c = cfg();
    c.context_size = 524288;
    let a = build_server_args(&c, false);
    assert_eq!(pair(&a, "--rope-scaling"), Some("yarn".into()));
    assert_eq!(pair(&a, "--rope-freq-scale"), Some("0.500000".into()));
    assert_eq!(pair(&a, "--yarn-beta-fast"), Some("32".into()));
    c.context_size = 262144;
    let a = build_server_args(&c, false);
    assert_eq!(pair(&a, "--rope-scaling"), None);
}

#[test]
fn yarn_scale_follows_the_f64_quotient() {
    // 262144 / ctx is exactly halfway between two six-decimal values here;
    // the f64 quotient lies just above, so it rounds up.
    assert_eq!(yarn_scale(167772160), "0.001563");
    assert_eq!(yarn_scale(838860800), "0.000313");
    assert_eq!(yarn_scale(4194304000), "0.000063");
    assert_eq!(yarn_scale(300000), "0.873813");
    assert_eq!(yarn_scale(u64::MAX), "0.000000");
}
