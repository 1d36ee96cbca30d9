use llama_admin_monitor::diagnose::diagnose_exit;
use llama_admin_monitor::server::{ServerEvent, ServerState};
use llama_admin_monitor::server_args::ServerConfig;

fn config(port: u16) -> ServerConfig {
    let mut c = ServerConfig::default();
    c.model_path = "/models/test.gguf".into();
    c.port = port;
    c
}

#[test]
fn fresh_server_is_stopped() {
    let s = ServerState::new();
    assert!(!s.running);
    assert!(s.error.is_none());
    assert!(s.config.is_none());
}

#[test]
fn launch_runs_with_its_config_and_clears_the_error() {
    let mut s = ServerState::new();
    s.error = Some("old failure".to_string());
    let line = s.step(ServerEvent::Started(config(8123)));
    assert!(line.is_none());
    assert!(s.running);
    assert!(s.error.is_none());
    assert_eq!(s.config.as_ref().map(|c| c.port), Some(8123));
}

#[test]
fn stop_leaves_it_stopped_without_error() {
    let mut s = ServerState::new();
    s.step(ServerEvent::Started(config(8080)));
    let line = s.step(ServerEvent::Stopped);
    assert_eq!(line.as_deref(), Some("[monitor] Server stopped."));
    assert!(!s.running);
    assert!(s.error.is_none());
    assert!(s.config.is_none());
}

#[test]
fn exit_during_startup_is_diagnosed() {
    let mut s = ServerState::new();
    s.step(ServerEvent::Started(config(8080)));
    let logs = vec![
        "0.00.100.000 I srv  main: loading model".to_string(),
        "0.00.483.274 E llama_model_load: error loading model: device Vulkan0 does not support split buffers".to_string(),
        "0.00.759.180 E srv  llama_server: exiting due to model loading error".to_string(),
    ];
    let d = diagnose_exit(&logs).unwrap();
    let line = s.step(ServerEvent::Exited {
        status: "exit status: 1".to_string(),
        elapsed_ms: 1500,
        logs,
    });
    let expected = format!("llama-server exited during startup (exit status: 1): {d}");
    assert!(!s.running);
    assert!(s.config.is_none());
    assert_eq!(s.error.as_deref(), Some(expected.as_str()));
    assert_eq!(line, Some(format!("[monitor] {expected}")));
}

#[test]
fn late_quiet_exit_points_at_the_output() {
    let mut s = ServerState::new();
    s.step(ServerEvent::Started(config(8080)));
    let line = s.step(ServerEvent::Exited {
        status: "signal: 9".to_string(),
        elapsed_ms: 60_000,
        logs: vec!["0.00.1 I srv  main: model loaded".to_string()],
    });
    let expected =
        "llama-server exited unexpectedly (signal: 9). See Process Output on Monitor for its last lines.";
    assert_eq!(s.error.as_deref(), Some(expected));
    assert_eq!(line.as_deref(), Some(format!("[monitor] {expected}").as_str()));
    assert!(!s.running);
}
