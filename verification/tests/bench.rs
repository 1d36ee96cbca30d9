use llama_admin_monitor::bench::{bench_row_kind, BenchRowKind};
use llama_admin_monitor::bench::{SweepProgress, SweepRun};
use llama_admin_monitor::bench::{
    bench_binary_path, bench_path_from_parent, plan_sweep, sweep_runs, SweepSpec,
};
use llama_admin_monitor::server_args::ServerConfig;

#[test]
fn test_bench_binary_path() {
    let p = bench_binary_path("/opt/llama.cpp/llama-server");
    assert_eq!(p, "/opt/llama.cpp/llama-bench");

    let p = bench_binary_path("./llama-server");
    assert_eq!(p, "./llama-bench");

    let p = bench_binary_path("llama-server");
    assert_eq!(p, "llama-bench");
}

#[test]
fn bench_path_without_parent() {
    assert_eq!(bench_binary_path("/"), "llama-bench");
    assert_eq!(bench_path_from_parent(Some("/")), "/llama-bench");
    assert_eq!(bench_path_from_parent(Some("a/")), "a/llama-bench");
    assert_eq!(bench_path_from_parent(None), "llama-bench");
}

#[test]
fn sweeps_cover_every_combination_in_order() {
    let spec = SweepSpec {
        model_path: "m.gguf".into(),
        splits: vec!["".into(), "1,1".into()],
        batch_sizes: vec![512, 1024],
        ubatch_sizes: vec![256],
        thread_counts: vec![8, 16],
        gpu_layers: 99,
    };
    assert_eq!(spec.total_runs(), 8);
    let runs = sweep_runs(&spec);
    assert_eq!(runs.len(), 8);
    assert_eq!((runs[0].tensor_split.as_str(), runs[0].batch_size, runs[0].threads), ("", 512, 8));
    assert_eq!((runs[1].tensor_split.as_str(), runs[1].batch_size, runs[1].threads), ("", 512, 16));
    assert_eq!((runs[2].tensor_split.as_str(), runs[2].batch_size, runs[2].threads), ("", 1024, 8));
    assert_eq!((runs[7].tensor_split.as_str(), runs[7].batch_size, runs[7].threads), ("1,1", 1024, 16));
    let empty = SweepSpec { thread_counts: vec![], ..spec };
    assert_eq!(empty.total_runs(), 0);
    assert!(sweep_runs(&empty).is_empty());
}

#[test]
fn sweep_requests_are_checked_in_order() {
    let splits = vec!["1,0".to_string()];
    let plan = |bench: bool, server: bool, model: &str, splits: Vec<String>| {
        plan_sweep(bench, server, model.to_string(), splits, vec![], vec![], vec![], None, None, 12)
    };
    assert_eq!(plan(true, true, "", vec![]).unwrap_err(), "a benchmark is already running");
    assert_eq!(
        plan(false, true, "", vec![]).unwrap_err(),
        "stop the server before benchmarking -- it needs the GPUs"
    );
    assert_eq!(plan(false, false, "", splits.clone()).unwrap_err(), "model_path required");
    assert_eq!(
        plan(false, false, "m.gguf", vec![]).unwrap_err(),
        "at least one tensor split required"
    );
    let s = plan(false, false, "m.gguf", splits).unwrap();
    assert_eq!(s.batch_sizes, vec![2048]);
    assert_eq!(s.ubatch_sizes, vec![512]);
    assert_eq!(s.thread_counts, vec![12]);
    assert_eq!(s.gpu_layers, 999);
}

#[test]
fn sweep_defaults_follow_the_running_preset() {
    let mut c = ServerConfig::default();
    c.batch_size = 4096;
    c.ubatch_size = 1024;
    let s = plan_sweep(
        false,
        false,
        "m.gguf".into(),
        vec!["1,1".into()],
        vec![],
        vec![256, 512],
        vec![],
        Some(40),
        Some(&c),
        16,
    )
    .unwrap();
    assert_eq!(s.batch_sizes, vec![4096]);
    assert_eq!(s.ubatch_sizes, vec![256, 512]);
    assert_eq!(s.thread_counts, vec![16]);
    assert_eq!(s.gpu_layers, 40);
    c.threads = Some(6);
    let s = plan_sweep(
        false, false, "m.gguf".into(), vec!["1".into()], vec![], vec![], vec![], None, Some(&c), 16,
    )
    .unwrap();
    assert_eq!(s.thread_counts, vec![6]);
}

#[test]
fn llama_bench_command_line() {
    let a = llama_admin_monitor::bench::bench_args("/m/x.gguf", "", 99, 2048, 512, 8);
    assert_eq!(a, vec!["-m", "/m/x.gguf", "-ngl", "99", "-b", "2048", "-ub", "512", "-t", "8", "-o", "json"]);
    let b = llama_admin_monitor::bench::bench_args("/m/x.gguf", "1,1", -1, 1, 1, 1);
    assert_eq!(&b[2..4], &["-ngl".to_string(), "-1".to_string()]);
    assert_eq!(&b[12..], &["-ts".to_string(), "1,1".to_string()]);
}

#[test]
fn bench_rows_by_kind() {
    assert_eq!(bench_row_kind(512, 0), BenchRowKind::Prompt);
    assert_eq!(bench_row_kind(0, 128), BenchRowKind::Generation);
    assert_eq!(bench_row_kind(512, 128), BenchRowKind::Generation);
    assert_eq!(bench_row_kind(0, 0), BenchRowKind::Other);
}

#[test]
fn sweep_progress_counts_runs() {
    let mut p = SweepProgress::started(2);
    assert!(p.running && !p.done && p.completed == 0 && p.total == 2);
    let run = SweepRun { tensor_split: "1,1".to_string(), batch_size: 1, ubatch_size: 1, threads: 4 };
    p.begin(run.clone());
    assert_eq!(p.current, Some(run));
    p.end(None);
    p.end(Some("llama-bench failed: x".to_string()));
    assert_eq!(p.completed, 2);
    assert_eq!(p.error.as_deref(), Some("llama-bench failed: x"));
    p.finish();
    assert!(!p.running && p.done);
    assert_eq!(p.current, None);
    assert_eq!(p.completed, 2);
}
