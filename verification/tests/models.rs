use llama_admin_monitor::models::{
    discover_model, find_mmproj_for, format_size, is_first_shard, is_mmproj_filename,
    is_split_shard, pair_projectors, parse_gguf_filename, DiscoveredModel, ModelMetadata,
};

fn discovered(filename: &str, repo: Option<&str>) -> DiscoveredModel {
    let (model_name, quant_type) = parse_gguf_filename(filename);
    DiscoveredModel {
        path: filename.to_string(),
        filename: filename.to_string(),
        size_bytes: 0,
        size_display: String::new(),
        quant_type,
        model_name,
        is_split: false,
        is_mmproj: is_mmproj_filename(filename),
        projector: None,
        pairs_with: Vec::new(),
        hf_repo: repo.map(str::to_string),
        downloaded_at: None,
        hf_downloads: None,
        hf_last_modified: None,
    }
}

#[test]
fn projectors_pair_by_repo_then_by_name() {
    let mut models = vec![
        discovered(
            "gemma-3-12b-it-Q6_K.gguf",
            Some("unsloth/gemma-3-12b-it-GGUF"),
        ),
        discovered("mmproj-F16.gguf", Some("unsloth/gemma-3-12b-it-GGUF")),
        discovered("Qwen2.5-VL-7B-Instruct-Q4_K_M.gguf", None),
        discovered("mmproj-Qwen2.5-VL-7B-Instruct-f16.gguf", None),
        discovered("Llama-3.3-70B-Instruct-IQ3_M.gguf", None),
    ];
    pair_projectors(&mut models);
    assert_eq!(models[0].projector.as_deref(), Some("mmproj-F16.gguf"));
    assert_eq!(models[1].pairs_with, vec!["gemma-3-12b-it-Q6_K.gguf"]);
    assert_eq!(
        models[2].projector.as_deref(),
        Some("mmproj-Qwen2.5-VL-7B-Instruct-f16.gguf")
    );
    assert_eq!(
        models[3].pairs_with,
        vec!["Qwen2.5-VL-7B-Instruct-Q4_K_M.gguf"]
    );
    assert_eq!(models[4].projector, None);
}

#[test]
fn test_is_mmproj_filename() {
    assert!(is_mmproj_filename("mmproj-model-f16.gguf"));
    assert!(is_mmproj_filename("gemma-3-12b-it-MMPROJ-BF16.gguf"));
    assert!(!is_mmproj_filename("gemma-3-12b-it-Q6_K.gguf"));
}

#[test]
fn test_parse_simple_filename() {
    let (name, quant) = parse_gguf_filename("Qwen3.5-27B-Q4_0.gguf");
    assert_eq!(name.as_deref(), Some("Qwen3.5-27B"));
    assert_eq!(quant.as_deref(), Some("Q4_0"));
}

#[test]
fn test_parse_split_filename() {
    let (name, quant) = parse_gguf_filename("Qwen3-Coder-Next-Q4_1-00001-of-00003.gguf");
    assert_eq!(name.as_deref(), Some("Qwen3-Coder-Next"));
    assert_eq!(quant.as_deref(), Some("Q4_1"));
}

#[test]
fn test_parse_k_quant() {
    let (name, quant) = parse_gguf_filename("Devstral-Small-2-24B-Q4_K_M.gguf");
    assert_eq!(name.as_deref(), Some("Devstral-Small-2-24B"));
    assert_eq!(quant.as_deref(), Some("Q4_K_M"));
}

#[test]
fn test_parse_ud_quant() {
    let (name, quant) = parse_gguf_filename("Qwen3.5-122B-A10B-UD-Q2_K_XL.gguf");
    assert_eq!(name.as_deref(), Some("Qwen3.5-122B-A10B"));
    assert_eq!(quant.as_deref(), Some("UD-Q2_K_XL"));
}

#[test]
fn test_parse_iq_quant() {
    let (name, quant) =
        parse_gguf_filename("Gemma-4-E4B-Uncensored-HauhauCS-Aggressive-IQ3_M.gguf");
    assert_eq!(
        name.as_deref(),
        Some("Gemma-4-E4B-Uncensored-HauhauCS-Aggressive")
    );
    assert_eq!(quant.as_deref(), Some("IQ3_M"));
}

#[test]
fn test_parse_no_quant() {
    let (name, quant) = parse_gguf_filename("model.gguf");
    assert_eq!(name.as_deref(), Some("model"));
    assert_eq!(quant, None);
}

#[test]
fn test_is_split_shard() {
    assert!(is_split_shard("model-Q4_1-00001-of-00003.gguf"));
    assert!(is_split_shard("model-Q4_1-00002-of-00003.gguf"));
    assert!(!is_split_shard("model-Q4_1.gguf"));
}

#[test]
fn test_is_first_shard() {
    assert!(is_first_shard("model-Q4_1-00001-of-00003.gguf"));
    assert!(!is_first_shard("model-Q4_1-00002-of-00003.gguf"));
}

#[test]
fn test_format_size() {
    assert_eq!(format_size(1_500_000_000), "1.4 GB");
    assert_eq!(format_size(50_000_000), "47.7 MB");
    assert_eq!(format_size(500_000), "488 KB");
}

#[test]
fn format_size_edges() {
    assert_eq!(format_size(0), "0 KB");
    assert_eq!(format_size(1_048_576), "1.0 MB");
    assert_eq!(format_size(1_073_741_824), "1.0 GB");
    assert_eq!(format_size(u64::MAX), format!("{:.1} GB", u64::MAX as f64 / 1_073_741_824.0));
    assert_eq!(format_size(123_456_789_012_345), format!("{:.1} GB", 123_456_789_012_345u64 as f64 / 1_073_741_824.0));
    assert_eq!(format_size(9_007_199_254_740_993), format!("{:.1} GB", 9_007_199_254_740_993u64 as f64 / 1_073_741_824.0));
    assert_eq!(format_size(1_153_433_600), format!("{:.1} GB", 1_153_433_600u64 as f64 / 1_073_741_824.0));
}

#[test]
fn discovery_skips_later_shards_and_other_files() {
    assert!(discover_model("/m/readme.txt", "readme.txt", 10, None).is_none());
    assert!(discover_model("/m/S-Q8_0-00002-of-00002.gguf", "S-Q8_0-00002-of-00002.gguf", 1, None).is_none());
    let m = discover_model("/m/S-Q8_0-00001-of-00002.gguf", "S-Q8_0-00001-of-00002.gguf", 2048, None).unwrap();
    assert!(m.is_split);
    assert_eq!(m.model_name.as_deref(), Some("S"));
    assert_eq!(m.quant_type.as_deref(), Some("Q8_0"));
    assert_eq!(m.size_display, "2 KB");
    let meta = ModelMetadata {
        repo: "org/repo".into(),
        filename: "x.gguf".into(),
        downloaded_at: 7,
        hf_downloads: Some(3),
        hf_last_modified: None,
    };
    let m = discover_model("/m/x.gguf", "x.gguf", 0, Some(meta)).unwrap();
    assert_eq!(m.hf_repo.as_deref(), Some("org/repo"));
    assert_eq!(m.downloaded_at, Some(7));
    assert_eq!(m.hf_downloads, Some(3));
}

#[test]
fn mmproj_fallback_prefers_repo_then_name_then_next_directory() {
    let mut model = discovered("gemma-3-12b-it-Q6_K.gguf", Some("unsloth/gemma-3-12b-it-GGUF"));
    model.path = "/d/gemma-3-12b-it-Q6_K.gguf".into();
    let mut by_repo = discovered("mmproj-F16.gguf", Some("unsloth/gemma-3-12b-it-GGUF"));
    by_repo.path = "/d/mmproj-F16.gguf".into();
    let mut by_name = discovered("mmproj-gemma-3-12b-it-BF16.gguf", None);
    by_name.path = "/d/mmproj-gemma-3-12b-it-BF16.gguf".into();
    let scan = vec![by_name.clone(), model.clone(), by_repo.clone()];
    assert_eq!(
        find_mmproj_for(&[scan], "/d/gemma-3-12b-it-Q6_K.gguf", "gemma-3-12b-it-Q6_K.gguf").as_deref(),
        Some("/d/mmproj-F16.gguf")
    );
    let mut plain = model.clone();
    plain.hf_repo = None;
    let scan = vec![by_name.clone(), plain.clone()];
    assert_eq!(
        find_mmproj_for(&[vec![], scan], "/elsewhere/x.gguf", "gemma-3-12b-it-Q6_K.gguf").as_deref(),
        Some("/d/mmproj-gemma-3-12b-it-BF16.gguf")
    );
    let llama = discovered("Llama-3.3-70B-Instruct-IQ3_M.gguf", None);
    assert_eq!(
        find_mmproj_for(&[vec![llama, by_name]], "Llama-3.3-70B-Instruct-IQ3_M.gguf", ""),
        None
    );
}

#[test]
fn scans_are_sorted_then_paired() {
    let found = vec![
        discovered("mmproj-F16.gguf", Some("org/gemma-GGUF")),
        discovered("gemma-3-12b-it-Q6_K.gguf", Some("org/gemma-GGUF")),
        discovered("Alpha-Q4_0.gguf", None),
    ];
    let models = llama_admin_monitor::models::finish_scan(found);
    let names: Vec<&str> = models.iter().map(|m| m.filename.as_str()).collect();
    assert_eq!(names, vec!["Alpha-Q4_0.gguf", "gemma-3-12b-it-Q6_K.gguf", "mmproj-F16.gguf"]);
    assert_eq!(models[1].projector.as_deref(), Some("mmproj-F16.gguf"));
    assert_eq!(models[2].pairs_with, vec!["gemma-3-12b-it-Q6_K.gguf"]);
}
