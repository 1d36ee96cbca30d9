use llama_admin_monitor::builds::install_start;
use llama_admin_monitor::builds::{
    asset_url, backend_options_for, build_id, installed_build, is_build_tag, option_by_id,
    begin_install, finish_install, install_plan, install_request, is_build_program, newest_first, parse_releases_atom, relocated,
    repoint, tag_number, update_refusal, InstallProgress, InstalledBuild,
};

#[test]
fn build_tags_only() {
    assert!(is_build_tag("b11050"));
    assert_eq!(tag_number("b11050"), Some(11050));
    assert_eq!(tag_number("v0.4.1"), None);
    assert!(!is_build_tag("v0.4.1"));
    assert!(!is_build_tag("b"));
    assert!(!is_build_tag("main"));
}

#[test]
fn asset_urls_follow_upstream_naming() {
    assert_eq!(
        asset_url("b11050", "ubuntu-vulkan-x64", false),
        "https://github.com/ggml-org/llama.cpp/releases/download/b11050/llama-b11050-bin-ubuntu-vulkan-x64.tar.gz"
    );
    assert_eq!(
        asset_url("b11050", "ubuntu-cuda-12.8-x64", true),
        "https://github.com/ggml-org/llama.cpp/releases/download/b11050/cudart-llama-b11050-bin-ubuntu-cuda-12.8-x64.tar.gz"
    );
}

#[test]
fn atom_feed_skips_marker_releases() {
    let xml = "<feed><entry><title>v0.4.1</title><updated>2026-09-14T00:00:00Z</updated></entry><entry><title>b11050</title><updated>2026-09-19T08:00:00Z</updated></entry><entry><title>b11049</title><updated>2026-09-19T07:00:00Z</updated></entry></feed>";
    let r = parse_releases_atom(xml);
    assert_eq!(r.len(), 2);
    assert_eq!(r[0].tag, "b11050");
    assert_eq!(r[0].published_at, "2026-09-19T08:00:00Z");
}

#[test]
fn ids_and_paths() {
    assert_eq!(build_id("vulkan", "b11050"), "vulkan-b11050");
    assert!(installed_build(&[], "../etc").is_none());
}

fn build(id: &str, dir: &str) -> InstalledBuild {
    InstalledBuild {
        id: id.to_string(),
        backend: "vulkan".to_string(),
        tag: "b1".to_string(),
        installed_at: 0,
        server_path: format!("{dir}/llama-server"),
        dir: dir.to_string(),
        devices: Vec::new(),
        device_check_error: None,
    }
}

#[test]
fn installed_build_finds_by_id() {
    let builds = vec![build("a", "/d/a"), build("b", "/d/b")];
    assert_eq!(installed_build(&builds, "b").unwrap().dir, "/d/b");
    assert!(installed_build(&builds, "c").is_none());
    assert!(installed_build(&builds, "a/..").is_none());
}

#[test]
fn repoint_moves_presets_and_settings() {
    let old = build("vulkan-b1", "/d/old");
    let new = build("vulkan-b2", "/d/new");
    let mut backends = vec![
        "build:vulkan-b1".to_string(),
        "vulkan".to_string(),
        "build:vulkan-b1".to_string(),
    ];
    let mut path = "/d/old/llama-server".to_string();
    let mut cwd = "/d/old".to_string();
    let n = repoint(&mut backends, &mut path, &mut cwd, &old, &new);
    assert_eq!(n, 2);
    assert_eq!(backends, vec!["build:vulkan-b2", "vulkan", "build:vulkan-b2"]);
    assert_eq!(path, "/d/new/llama-server");
    assert_eq!(cwd, "/d/new");
    let mut other = "/usr/bin/llama-server".to_string();
    let n = repoint(&mut backends, &mut other, &mut cwd, &old, &new);
    assert_eq!(n, 0);
    assert_eq!(other, "/usr/bin/llama-server");
}

#[test]
fn backend_options_per_platform() {
    let ids: Vec<&str> = backend_options_for("linux", "x86_64").iter().map(|b| b.id).collect();
    assert_eq!(ids, vec!["vulkan", "cuda-12.8", "cuda-13.3", "rocm-10.0", "cpu"]);
    assert_eq!(backend_options_for("macos", "aarch64")[0].suffix, "macos-arm64");
    assert!(backend_options_for("windows", "x86_64").is_empty());
    let cuda = option_by_id("linux", "aarch64", "cuda-13.3").unwrap();
    assert!(cuda.has_cudart);
    assert_eq!(cuda.suffix, "ubuntu-cuda-13.3-arm64");
    assert!(option_by_id("linux", "aarch64", "rocm-10.0").is_none());
}

#[test]
fn tag_numbers_reject_overflow() {
    assert_eq!(tag_number("b18446744073709551616"), None);
    assert_eq!(tag_number("b0"), Some(0));
    assert!(!is_build_tag("b12a"));
}

#[test]
fn relocated_build_follows_its_directory() {
    let b = relocated(build("vulkan-b1", "/old/place"), "/new/place");
    assert_eq!(b.dir, "/new/place");
    assert_eq!(b.server_path, "/new/place/llama-server");
    assert_eq!(b.id, "vulkan-b1");
    let b = relocated(build("x", "/a"), "/b/");
    assert_eq!(b.server_path, "/b/llama-server");
}

#[test]
fn newest_build_first_ties_keep_order() {
    let mut a = build("a", "/a");
    a.installed_at = 10;
    let mut b = build("b", "/b");
    b.installed_at = 30;
    let mut c = build("c", "/c");
    c.installed_at = 10;
    let mut d = build("d", "/d");
    d.installed_at = 20;
    let ids: Vec<String> = newest_first(vec![a, b, c, d]).into_iter().map(|b| b.id).collect();
    assert_eq!(ids, vec!["b", "d", "a", "c"]);
    assert!(newest_first(Vec::new()).is_empty());
}

#[test]
fn install_requests_need_backend_tag_and_a_free_slot() {
    let p = install_request(&None, "vulkan", "b11050").unwrap();
    assert_eq!(p.id, "vulkan-b11050");
    assert_eq!(p.phase, "Starting");
    assert!(!p.done && p.error.is_none());
    assert_eq!(install_request(&None, "", "b1").unwrap_err(), "backend and tag required");
    assert_eq!(install_request(&None, "vulkan", "").unwrap_err(), "backend and tag required");
    let running = Some(p.clone());
    assert_eq!(
        install_request(&running, "cuda", "b2").unwrap_err(),
        "an install is already running"
    );
    let mut finished = p;
    finished.done = true;
    assert!(begin_install(&Some(finished), "cuda", "b2").is_ok());
}

#[test]
fn updates_only_to_newer_tags() {
    assert_eq!(update_refusal("b100", "b101"), None);
    assert_eq!(
        update_refusal("b101", "b101").as_deref(),
        Some("b101 is already the newest release (b101)")
    );
    assert_eq!(
        update_refusal("b200", "b101").as_deref(),
        Some("b200 is already the newest release (b101)")
    );
    // A tag without a number counts as the oldest.
    assert_eq!(update_refusal("v0.4.1", "b5"), None);
    assert!(update_refusal("b5", "v0.4.1").is_some());
}

#[test]
fn finished_installs_record_their_outcome() {
    let start = InstallProgress {
        id: "vulkan-b2".into(),
        backend: "vulkan".into(),
        tag: "b2".into(),
        phase: "Downloading".into(),
        ..Default::default()
    };
    let mut p = start.clone();
    finish_install(&mut p, Ok("vulkan-b2".into()), None);
    assert!(p.done);
    assert_eq!(p.phase, "Installed vulkan-b2");
    let mut p = start.clone();
    finish_install(&mut p, Ok("vulkan-b2".into()), Some("vulkan-b1"));
    assert_eq!(p.phase, "Updated vulkan-b1 to vulkan-b2");
    let mut p = start;
    finish_install(&mut p, Err("download failed".into()), Some("vulkan-b1"));
    assert!(p.done);
    assert_eq!(p.phase, "Downloading");
    assert_eq!(p.error.as_deref(), Some("download failed"));
}

#[test]
fn install_plans_name_the_archives() {
    let p = install_plan("linux", "x86_64", "cuda-12.8", "b11050").unwrap();
    assert_eq!(p.id, "cuda-12.8-b11050");
    assert_eq!(p.label, "CUDA 12.8");
    assert_eq!(
        p.archive_url,
        "https://github.com/ggml-org/llama.cpp/releases/download/b11050/llama-b11050-bin-ubuntu-cuda-12.8-x64.tar.gz"
    );
    assert_eq!(
        p.cudart_url.as_deref(),
        Some("https://github.com/ggml-org/llama.cpp/releases/download/b11050/cudart-llama-b11050-bin-ubuntu-cuda-12.8-x64.tar.gz")
    );
    let v = install_plan("linux", "x86_64", "vulkan", "b1").unwrap();
    assert_eq!(v.cudart_url, None);
    assert_eq!(
        install_plan("macos", "aarch64", "cuda-12.8", "b1").unwrap_err(),
        "backend cuda-12.8 is not available on this platform"
    );
    assert_eq!(
        install_plan("linux", "x86_64", "vulkan", "v0.4.1").unwrap_err(),
        "v0.4.1 is not a llama.cpp build tag"
    );
}

#[test]
fn build_programs_get_the_executable_bit() {
    assert!(is_build_program("llama-server"));
    assert!(is_build_program("llama-bench"));
    assert!(!is_build_program("libggml.so"));
    assert!(!is_build_program("llama-server.sha256"));
    assert!(!is_build_program("LICENSE"));
}

#[test]
fn install_refusals_in_order() {
    assert_eq!(
        install_start("macos", "aarch64", "cuda-12.8", "v0.4.1", true).unwrap_err(),
        "backend cuda-12.8 is not available on this platform"
    );
    assert_eq!(
        install_start("linux", "x86_64", "vulkan", "v0.4.1", true).unwrap_err(),
        "v0.4.1 is not a llama.cpp build tag"
    );
    assert_eq!(
        install_start("linux", "x86_64", "vulkan", "b11050", true).unwrap_err(),
        "vulkan-b11050 is already installed"
    );
    assert_eq!(install_start("linux", "x86_64", "vulkan", "b11050", false).unwrap().id, "vulkan-b11050");
}
