use llama_admin_monitor::launch::model_refusal;
use llama_admin_monitor::launch::projector_missing;
use llama_admin_monitor::launch::repoint_projector;
use llama_admin_monitor::builds::InstalledBuild;
use llama_admin_monitor::launch::{
    cuda_binary_path, launch_target, parse_device_list, LaunchError,
};

#[test]
fn list_devices_parses_names_and_memory() {
    let text = "ggml_vulkan: Found 2 Vulkan devices:\nAvailable devices:\n  Vulkan0: AMD Radeon RX 9070 XT (RADV GFX1201) (16368 MiB, 16000 MiB free)\n  Vulkan1: NVIDIA GeForce RTX 3080 (10240 MiB, 9800 MiB free)\n";
    let devices = parse_device_list(text);
    assert_eq!(devices.len(), 2);
    assert_eq!(devices[0].id, "Vulkan0");
    assert_eq!(devices[0].name, "AMD Radeon RX 9070 XT (RADV GFX1201)");
    assert_eq!(devices[0].total_mib, Some(16368));
    assert_eq!(devices[1].id, "Vulkan1");
    assert_eq!(devices[1].free_mib, Some(9800));
    assert!(parse_device_list("Available devices:\n  (none)\n").is_empty());
}

#[test]
fn device_without_memory_figures() {
    let devices = parse_device_list("  CPU: AMD Ryzen\n  CUDA0: RTX (n/a)\n");
    assert_eq!(devices.len(), 2);
    assert_eq!(devices[0].name, "AMD Ryzen");
    assert_eq!(devices[0].total_mib, None);
    assert_eq!(devices[1].name, "RTX");
    assert_eq!(devices[1].total_mib, None);
    assert_eq!(devices[1].free_mib, None);
}

fn build(id: &str) -> InstalledBuild {
    InstalledBuild {
        id: id.to_string(),
        backend: "vulkan".to_string(),
        tag: "b1".to_string(),
        installed_at: 0,
        server_path: format!("/data/{id}/llama-server"),
        dir: format!("/data/{id}"),
        devices: Vec::new(),
        device_check_error: None,
    }
}

#[test]
fn launch_targets_by_backend() {
    let builds = vec![build("vulkan-b1")];
    let t = launch_target("build:vulkan-b1", "/x/build/bin/llama-server", "/x", &builds, false)
        .unwrap();
    assert_eq!(t.binary, "/data/vulkan-b1/llama-server");
    assert_eq!(t.cwd, "/data/vulkan-b1");
    let t = launch_target("vulkan", "/x/build/bin/llama-server", "/x", &builds, false).unwrap();
    assert_eq!(t.binary, "/x/build/bin/llama-server");
    let t = launch_target("cuda", "/x/build/bin/llama-server", "/x", &builds, true).unwrap();
    assert_eq!(t.binary, "/x/build-cuda/bin/llama-server");
    assert_eq!(t.cwd, "/x");
}

#[test]
fn launch_errors_say_what_is_missing() {
    let e = launch_target("build:cuda-b9", "/p", "/c", &[], false).unwrap_err();
    assert_eq!(e, LaunchError::NotInstalled("cuda-b9".to_string()));
    assert_eq!(
        e.message(),
        "the preset uses llama.cpp build cuda-b9, which is not installed (see Install)"
    );
    let e = launch_target("cuda", "/x/build/bin/llama-server", "/c", &[], false).unwrap_err();
    assert!(e.message().starts_with("CUDA build not found at /x/build-cuda/bin/llama-server. Either build it"));
}

#[test]
fn cuda_path_swaps_every_build_bin() {
    assert_eq!(cuda_binary_path("/a/build/bin/build/bin/x"), "/a/build-cuda/bin/build/bin/x");
    assert_eq!(cuda_binary_path("/build/bin//build/bin/"), "/build-cuda/bin//build-cuda/bin/");
    assert_eq!(cuda_binary_path("/usr/bin/llama-server"), "/usr/bin/llama-server");
}

#[test]
fn model_refusals() {
    assert_eq!(
        model_refusal("", false).as_deref(),
        Some("Model path is empty. Edit the preset and set a model path.")
    );
    assert_eq!(model_refusal("/m/x.gguf", false).as_deref(), Some("Model file not found: /m/x.gguf"));
    assert_eq!(model_refusal("/m/x.gguf", true), None);
}

#[test]
fn missing_projector_message() {
    assert_eq!(
        projector_missing("/m/old.gguf", "/m/x.gguf"),
        "Multimodal projector not found: /m/old.gguf. No projector matching /m/x.gguf was found in the same directory; download a companion mmproj (HF downloads page) or set/clear the mmproj field in the preset editor."
    );
}

#[test]
fn stale_projectors_repointed_in_every_matching_preset() {
    let models: Vec<String> = vec!["/m/a.gguf", "/m/b.gguf", "/m/a.gguf", "/m/a.gguf"]
        .into_iter()
        .map(String::from)
        .collect();
    let mut mm: Vec<String> =
        vec!["/m/old.gguf", "/m/old.gguf", "/m/other.gguf", "/m/old.gguf"].into_iter().map(String::from).collect();
    assert!(repoint_projector(&models, &mut mm, "/m/a.gguf", "/m/old.gguf", "/m/new.gguf"));
    assert_eq!(mm, vec!["/m/new.gguf", "/m/old.gguf", "/m/other.gguf", "/m/new.gguf"]);
    assert!(!repoint_projector(&models, &mut mm, "/m/a.gguf", "/m/old.gguf", "/m/new.gguf"));
    assert_eq!(mm, vec!["/m/new.gguf", "/m/old.gguf", "/m/other.gguf", "/m/new.gguf"]);
}
