use llama_admin_monitor::diagnose::{diagnose_exit, exit_message, recent_lines, strip_log_prefix};

#[test]
fn diagnoses_out_of_memory_with_hint() {
    let recent = vec![
        "0.00.186.478 I srv    load_model: loading model 'x.gguf'".to_string(),
        "ggml_vulkan: Device memory allocation of size 811008000 failed.".to_string(),
        "ggml_vulkan: vk::Device::allocateMemory: ErrorOutOfDeviceMemory".to_string(),
        "0.03.010.681 E alloc_tensor_range: failed to allocate Vulkan1 buffer of size 811008000"
            .to_string(),
        "0.03.046.561 E srv  llama_server: exiting due to model loading error".to_string(),
    ];
    let d = diagnose_exit(&recent).unwrap();
    assert!(
        d.starts_with("ggml_vulkan: Device memory allocation of size 811008000 failed."),
        "{d}"
    );
    assert!(d.contains("does not fit"), "{d}");
}

#[test]
fn diagnoses_row_split_on_vulkan() {
    let recent = vec![
        "0.00.483.274 E llama_model_load: error loading model: device Vulkan0 does not support split buffers".to_string(),
        "0.00.483.295 E llama_model_load_from_file_impl: failed to load model".to_string(),
        "0.00.759.180 E srv  llama_server: exiting due to model loading error".to_string(),
    ];
    let d = diagnose_exit(&recent).unwrap();
    assert!(
        d.starts_with("llama_model_load: error loading model"),
        "{d}"
    );
    assert!(d.contains("Split mode to 'layer'"), "{d}");
}

#[test]
fn diagnose_returns_none_without_errors() {
    let recent = vec!["0.00.1 I srv  main: model loaded".to_string()];
    assert_eq!(diagnose_exit(&recent), None);
}

#[test]
fn strips_timestamp_level_and_module() {
    assert_eq!(
        strip_log_prefix("0.03.046.031 E srv  llama_server: exiting"),
        "llama_server: exiting"
    );
    assert_eq!(
        strip_log_prefix("ggml_vulkan: allocateMemory failed"),
        "ggml_vulkan: allocateMemory failed"
    );
}

#[test]
fn monitor_lines_are_ignored() {
    let recent = vec!["[monitor] error: something".to_string()];
    assert_eq!(diagnose_exit(&recent), None);
}

#[test]
fn only_exiting_lines_fall_back_to_the_first() {
    let recent = vec!["0.1.2 E srv  x: exiting due to error".to_string()];
    assert_eq!(diagnose_exit(&recent).as_deref(), Some("x: exiting due to error"));
}

#[test]
fn long_lines_are_shortened() {
    let long = format!("error {}", "x".repeat(300));
    let d = diagnose_exit(&[long]).unwrap();
    assert_eq!(d.len(), 220);
    assert!(d.ends_with("..."));
}

#[test]
fn port_in_use_hint() {
    let recent = vec!["bind failed: Address already in use".to_string()];
    let d = diagnose_exit(&recent).unwrap();
    assert!(d.ends_with("the port is taken by another process; change the port or stop that process"), "{d}");
}

#[test]
fn recent_lines_are_the_last_sixty() {
    let logs: Vec<String> = (0..100).map(|i| format!("line {i}")).collect();
    let r = recent_lines(&logs);
    assert_eq!(r.len(), 60);
    assert_eq!(r[0], "line 40");
    assert_eq!(r[59], "line 99");
    let short: Vec<String> = vec!["a".to_string(), "b".to_string()];
    assert_eq!(recent_lines(&short), short);
}

#[test]
fn exit_notices() {
    let quiet = vec!["0.00.1 I srv  main: model loaded".to_string()];
    assert_eq!(
        exit_message("exit status: 1", 5000, &quiet),
        "llama-server exited during startup (exit status: 1). See Process Output on Monitor for its last lines."
    );
    assert_eq!(
        exit_message("signal: 9", 20000, &quiet),
        "llama-server exited unexpectedly (signal: 9). See Process Output on Monitor for its last lines."
    );
    let failing = vec![
        "0.00.483.274 E llama_model_load: error loading model: device Vulkan0 does not support split buffers".to_string(),
        "0.00.759.180 E srv  llama_server: exiting due to model loading error".to_string(),
    ];
    let d = diagnose_exit(&failing).unwrap();
    assert_eq!(
        exit_message("exit status: 1", 100, &failing),
        format!("llama-server exited during startup (exit status: 1): {d}")
    );
}
