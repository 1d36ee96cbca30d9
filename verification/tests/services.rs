use llama_admin_monitor::dsh::{
    base_url, dsh_home, host_without_port, max_tokens, proxy_port, settings_path,
    settings_provider, settings_refusal, settings_refusal_text, trusted_hosts, web_args,
    ModelEntry, Node, SettingsRefusal, API_KEY_ENV,
};
use llama_admin_monitor::hf::{
    download_url, list_gguf_files, percent_encode, repo_info_url, search_url, tree_url,
    DownloadProgress, TreeEntry,
};
use llama_admin_monitor::metrics::{
    slot_deltas, slot_summary, slot_summary_in_range, SlotSample, SlotStatus,
};
use llama_admin_monitor::pi::{
    chosen_workdir, exit_note, models_json_path, models_json_provider, models_json_refusal,
    models_json_refusal_text, npm_install_args, pi_candidates, pty_size, requested_size,
    start_args, start_model_id, term_command, no_session_message, ModelsJsonRefusal, Scrollback,
    TermCommand,
};

#[test]
fn host_port_split() {
    assert_eq!(host_without_port("192.168.0.199:7778"), "192.168.0.199");
    assert_eq!(host_without_port("al"), "al");
    assert_eq!(host_without_port("[::1]:7778"), "::1");
    let hosts = trusted_hosts(Some("192.168.0.199:7778"), &[], "", 7779);
    assert_eq!(hosts[0], "192.168.0.199:7779");
    assert!(hosts.contains(&"localhost:7779".to_string()));
}

#[test]
fn trusted_hosts_are_unique_and_skip_ipv6() {
    let ips = vec!["10.0.0.5".to_string(), "fe80::1".to_string(), "127.0.0.1".to_string()];
    let hosts = trusted_hosts(Some("10.0.0.5"), &ips, " box\n", 9000);
    assert_eq!(
        hosts,
        vec!["10.0.0.5:9000", "127.0.0.1:9000", "box:9000", "localhost:9000"]
    );
}

#[test]
fn token_limits_and_urls() {
    assert_eq!(max_tokens(131072), 32000);
    assert_eq!(max_tokens(8192), 4096);
    assert_eq!(max_tokens(40000), 10000);
    assert_eq!(base_url(7778), "http://127.0.0.1:7778/v1");
    assert_eq!(dsh_home(Some("/srv/dsh"), Some("/home/u")), "/srv/dsh");
    assert_eq!(dsh_home(Some(""), Some("/home/u")), "/home/u/.dsh");
    assert_eq!(dsh_home(None, None), "./.dsh");
    assert_eq!(settings_path("/home/u/.dsh"), "/home/u/.dsh/settings.yaml");
    assert_eq!(models_json_path(Some("/home/u")), "/home/u/.pi/agent/models.json");
    assert_eq!(pi_candidates("/h")[1], "/h/.local/bin/pi");
}

#[test]
fn pty_and_exit_note() {
    assert_eq!(pty_size(10, 2), (20, 4));
    assert_eq!(pty_size(120, 40), (120, 40));
    assert_eq!(exit_note("pi", Some(3)), "\r\n\x1b[2m[pi exited with code 3]\x1b[0m\r\n");
    assert_eq!(exit_note("pi", None), "\r\n\x1b[2m[pi exited with code -1]\x1b[0m\r\n");
}

#[test]
fn scrollback_keeps_the_tail() {
    let mut s = Scrollback::new();
    s.extend(b"hello");
    assert_eq!(s.snapshot(), b"hello".to_vec());
    let big = vec![7u8; 262144];
    s.extend(&big);
    let snap = s.snapshot();
    assert_eq!(snap.len(), 262144);
    assert!(snap.iter().all(|b| *b == 7));
    s.extend(b"xy");
    let snap = s.snapshot();
    assert_eq!(&snap[snap.len() - 2..], b"xy");
}

#[test]
fn percent_encoding() {
    assert_eq!(percent_encode("qwen 3"), "qwen%203");
    assert_eq!(percent_encode("a/b+c~d_e.f-g"), "a%2Fb%2Bc~d_e.f-g");
    assert_eq!(percent_encode("é"), "%C3%A9");
    assert_eq!(percent_encode("€"), "%E2%82%AC");
    assert_eq!(
        search_url("gemma 3"),
        "https://huggingface.co/api/models?search=gemma%203&filter=gguf&limit=20&sort=downloads&direction=-1"
    );
    assert_eq!(
        download_url("org/r", "m.gguf"),
        "https://huggingface.co/org/r/resolve/main/m.gguf?download=true"
    );
}

#[test]
fn repository_files_are_gguf_only_and_sorted() {
    let e = |t: &str, p: &str, size: u64, lfs: Option<u64>| TreeEntry {
        entry_type: t.to_string(),
        path: p.to_string(),
        size,
        lfs_size: lfs,
    };
    let entries = vec![
        e("file", "b-Q4.gguf", 10, Some(2048)),
        e("file", "README.md", 1, None),
        e("directory", "x.gguf", 0, None),
        e("file", "a-mmproj.gguf", 4096, Some(0)),
    ];
    let files = list_gguf_files(&entries);
    assert_eq!(files.len(), 2);
    assert_eq!(files[0].filename, "a-mmproj.gguf");
    assert!(files[0].is_mmproj);
    assert_eq!(files[0].size_bytes, 4096);
    assert_eq!(files[1].filename, "b-Q4.gguf");
    assert_eq!(files[1].size_bytes, 2048);
    assert_eq!(files[1].size_display, "2 KB");
}

fn slot(id: u64, task: Option<u64>, busy: bool, p: u64, d: u64) -> SlotSample {
    SlotSample { id, id_task: task, is_processing: busy, n_prompt_processed: p, n_decoded: d }
}

#[test]
fn live_rates_from_slot_deltas() {
    // Task 7 decodes 0, then 24, then 44 tokens: 24 and then 20 new tokens
    // (the smoothed rate, 22 t/s, is worked out from these by the caller).
    let a = vec![slot(0, Some(7), true, 0, 0)];
    let b = vec![slot(0, Some(7), true, 0, 24)];
    let c = vec![slot(0, Some(7), true, 0, 44)];
    assert_eq!(slot_deltas(&a, &b), (0, 24, true));
    assert_eq!(slot_deltas(&b, &c), (0, 20, true));
}

#[test]
fn new_task_does_not_produce_a_spike() {
    // Task 1 at 500 decoded tokens, then task 2 at 10 and 30.
    let a = vec![slot(0, Some(1), true, 0, 500)];
    let b = vec![slot(0, Some(2), true, 0, 10)];
    let c = vec![slot(0, Some(2), true, 0, 30)];
    assert_eq!(slot_deltas(&a, &b), (0, 0, true));
    assert_eq!(slot_deltas(&b, &c), (0, 20, true));
    let idle = vec![slot(0, Some(2), false, 0, 30)];
    assert_eq!(slot_deltas(&c, &idle), (0, 0, false));
}

#[test]
fn slot_sample_from_json() {
    let s = SlotSample::from_fields(Some(0), Some(42), Some(true), Some(120), Some(42)).unwrap();
    assert_eq!(s.n_prompt_processed, 120);
    assert_eq!(s.n_decoded, 42);
    assert!(SlotSample::from_fields(None, None, None, None, None).is_none());
    let s = SlotSample::from_fields(Some(1), None, None, None, None).unwrap();
    assert!(!s.is_processing);
    assert_eq!(s.n_decoded, 0);
}

#[test]
fn slots_are_counted_and_kv_cache_multiplied_out() {
    let st = |p: Option<bool>, ctx: Option<u64>| SlotStatus { is_processing: p, n_ctx: ctx };
    let slots = vec![st(Some(true), Some(4096)), st(Some(false), Some(8192)), st(None, None)];
    assert!(slot_summary_in_range(&slots));
    assert_eq!(slot_summary(&slots), (2, 1, Some(8192 * 3)));
    let no_ctx = vec![st(Some(true), None)];
    assert_eq!(slot_summary(&no_ctx), (0, 1, None));
    assert_eq!(slot_summary(&[]), (0, 0, None));
    let huge = vec![st(None, Some(u64::MAX)), st(None, None)];
    assert!(!slot_summary_in_range(&huge));
}

#[test]
fn dsh_proxy_port_follows_the_monitor() {
    assert_eq!(proxy_port(7778), 7779);
    assert_eq!(proxy_port(80), 1024);
    assert_eq!(proxy_port(65535), 1024);
    assert_eq!(proxy_port(1023), 1024);
}

#[test]
fn dsh_web_command_line() {
    let hosts = vec!["192.168.0.199:7779".to_string(), "localhost:7779".to_string()];
    assert_eq!(
        web_args(&hosts),
        vec![
            "web",
            "--no-open",
            "--port",
            "3080",
            "--trusted-host",
            "192.168.0.199:7779",
            "--trusted-host",
            "localhost:7779"
        ]
    );
    assert_eq!(web_args(&[]), vec!["web", "--no-open", "--port", "3080"]);
}

#[test]
fn agent_workdir_prefers_the_request() {
    assert_eq!(chosen_workdir(Some("  /src/app "), "/saved"), "/src/app");
    assert_eq!(chosen_workdir(Some("   "), "/saved"), "/saved");
    assert_eq!(chosen_workdir(None, ""), "");
}

#[test]
fn download_progress_walks_the_job() {
    let files = vec!["model-Q4_K_M.gguf".to_string(), "mmproj-F16.gguf".to_string()];
    let mut p = DownloadProgress::started("unsloth/gemma-3-12b-it-GGUF", &files);
    assert_eq!((p.filename.as_str(), p.file_index, p.file_count), ("model-Q4_K_M.gguf", 1, 2));
    p.downloaded_bytes = 500;
    p.file_done("/models/model-Q4_K_M.gguf".to_string());
    p.file_started(1, "mmproj-F16.gguf");
    assert_eq!((p.file_index, p.downloaded_bytes, p.total_bytes), (2, 0, 0));
    p.finished(Some("connection reset".to_string()), 1_700_000_000);
    assert!(p.done);
    assert_eq!(p.done_at, Some(1_700_000_000));
    assert_eq!(p.error.as_deref(), Some("connection reset"));
    assert_eq!(p.completed_paths, vec!["/models/model-Q4_K_M.gguf"]);
    let empty = DownloadProgress::started("r", &[]);
    assert_eq!((empty.filename.as_str(), empty.file_count), ("", 0));
}

#[test]
fn hf_api_urls() {
    assert_eq!(
        repo_info_url("unsloth/gemma-3-12b-it-GGUF"),
        "https://huggingface.co/api/models/unsloth/gemma-3-12b-it-GGUF"
    );
    assert_eq!(
        tree_url("unsloth/gemma-3-12b-it-GGUF"),
        "https://huggingface.co/api/models/unsloth/gemma-3-12b-it-GGUF/tree/main"
    );
}

fn entry(id: &str, ctx: u64) -> ModelEntry {
    ModelEntry {
        id: id.to_string(),
        name: id.to_string(),
        context_window: ctx,
        preset_id: String::new(),
    }
}

#[test]
fn dsh_provider_entry() {
    let p = settings_provider(7778, &[entry("Big 128k", 131072), entry("m", 8192)]);
    assert_eq!(p.base_url, "http://127.0.0.1:7778/v1");
    assert_eq!(p.api_key_env, API_KEY_ENV);
    assert_eq!(p.api, "openai-completions");
    assert!(!p.supports_developer_role);
    assert_eq!(p.max_tokens_field, "max_tokens");
    assert_eq!(p.models.len(), 2);
    assert_eq!(p.models[0].id, "Big 128k");
    assert_eq!(p.models[0].name, "Big 128k");
    assert_eq!(p.models[0].context_window, 131072);
    assert_eq!(p.models[0].max_tokens, 32000);
    assert_eq!(p.models[1].max_tokens, 4096);
}

#[test]
fn dsh_settings_shapes() {
    assert_eq!(settings_refusal(Node::Absent, Node::Absent, Node::Absent), None);
    assert_eq!(settings_refusal(Node::Null, Node::Absent, Node::Absent), None);
    assert_eq!(settings_refusal(Node::Table, Node::Null, Node::Absent), None);
    assert_eq!(settings_refusal(Node::Table, Node::Table, Node::Null), None);
    assert_eq!(settings_refusal(Node::Table, Node::Table, Node::Table), None);
    assert_eq!(
        settings_refusal(Node::Other, Node::Absent, Node::Absent),
        Some(SettingsRefusal::NotMapping)
    );
    assert_eq!(
        settings_refusal(Node::Table, Node::Other, Node::Absent),
        Some(SettingsRefusal::LlmNotMapping)
    );
    assert_eq!(
        settings_refusal(Node::Table, Node::Table, Node::Other),
        Some(SettingsRefusal::ProvidersNotMapping)
    );
    assert_eq!(
        settings_refusal_text(SettingsRefusal::NotMapping, "/h/.dsh/settings.yaml"),
        "/h/.dsh/settings.yaml is not a YAML mapping"
    );
    assert_eq!(
        settings_refusal_text(SettingsRefusal::LlmNotMapping, "s.yaml"),
        "\"llm-pi-ai\" in s.yaml is not a mapping"
    );
    assert_eq!(
        settings_refusal_text(SettingsRefusal::ProvidersNotMapping, "s.yaml"),
        "\"llm-pi-ai.providers\" in s.yaml is not a mapping"
    );
}

#[test]
fn pi_provider_entry() {
    let p = models_json_provider(7778, "qwen", "Qwen 3", 65536);
    assert_eq!(p.base_url, "http://127.0.0.1:7778/v1");
    assert_eq!(p.api, "openai-completions");
    assert_eq!(p.api_key, "llama-admin-monitor");
    assert_eq!(p.models.len(), 1);
    assert_eq!(p.models[0].id, "qwen");
    assert_eq!(p.models[0].name, "Qwen 3");
    assert_eq!(p.models[0].context_window, 65536);
    assert_eq!(p.models[0].max_tokens, 16384);
    assert!(!p.models[0].reasoning);
    assert_eq!(p.models[0].input, vec!["text".to_string()]);
}

#[test]
fn pi_models_json_shapes() {
    assert_eq!(models_json_refusal(Node::Absent, Node::Absent), None);
    assert_eq!(models_json_refusal(Node::Table, Node::Absent), None);
    assert_eq!(models_json_refusal(Node::Table, Node::Table), None);
    assert_eq!(models_json_refusal(Node::Null, Node::Absent), Some(ModelsJsonRefusal::NotObject));
    assert_eq!(models_json_refusal(Node::Other, Node::Absent), Some(ModelsJsonRefusal::NotObject));
    assert_eq!(
        models_json_refusal(Node::Table, Node::Null),
        Some(ModelsJsonRefusal::ProvidersNotObject)
    );
    assert_eq!(
        models_json_refusal(Node::Table, Node::Other),
        Some(ModelsJsonRefusal::ProvidersNotObject)
    );
    assert_eq!(
        models_json_refusal_text(ModelsJsonRefusal::NotObject, "m.json"),
        "m.json is not a JSON object"
    );
    assert_eq!(
        models_json_refusal_text(ModelsJsonRefusal::ProvidersNotObject, "m.json"),
        "\"providers\" in m.json is not an object"
    );
}

#[test]
fn terminal_size_requested() {
    assert_eq!(requested_size(None, None), (120, 32));
    assert_eq!(requested_size(Some(200), Some(50)), (200, 50));
    assert_eq!(requested_size(Some(65536 + 80), None), (80, 32));
}

#[test]
fn pi_starts_on_the_active_preset() {
    let mut a = entry("a", 4096);
    a.preset_id = "p1".to_string();
    let mut b = entry("b", 4096);
    b.preset_id = "p2".to_string();
    let mut c = entry("c", 4096);
    c.preset_id = "p2".to_string();
    let entries = vec![a, b, c];
    assert_eq!(start_model_id(&entries, "p2"), "b");
    assert_eq!(start_model_id(&entries, "p1"), "a");
    assert_eq!(start_model_id(&entries, "none"), "a");
    assert_eq!(
        start_args("b"),
        vec!["--provider", "llama-admin-monitor", "--model", "b"]
    );
}

#[test]
fn npm_install_command_lines() {
    assert_eq!(
        npm_install_args("@earendil-works/pi-coding-agent", true, true),
        vec!["install", "-g", "--ignore-scripts", "@earendil-works/pi-coding-agent@latest"]
    );
    assert_eq!(npm_install_args("pkg", false, false), vec!["install", "-g", "pkg"]);
    assert_eq!(npm_install_args("pkg", true, false), vec!["install", "-g", "pkg@latest"]);
}

#[test]
fn terminal_page_frames() {
    assert_eq!(
        term_command(Some(&[Some(100), Some(40)]), None),
        TermCommand::Resize { cols: 100, rows: 40 }
    );
    assert_eq!(
        term_command(Some(&[None, Some(70000)]), Some("x")),
        TermCommand::Resize { cols: 80, rows: 4464 }
    );
    assert_eq!(term_command(Some(&[Some(1)]), Some("ls\r")), TermCommand::Input("ls\r".to_string()));
    assert_eq!(term_command(None, None), TermCommand::Ignored);
    assert_eq!(no_session_message("dsh"), r#"{"error":"no dsh session"}"#);
}
