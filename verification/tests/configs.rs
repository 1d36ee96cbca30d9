use llama_admin_monitor::dsh::{updated_settings, ModelEntry, API_KEY_ENV, PROVIDER};
use llama_admin_monitor::pi::updated_models_json;

fn entry(id: &str, ctx: u64) -> ModelEntry {
    ModelEntry { id: id.to_string(), name: id.to_string(), context_window: ctx, preset_id: String::new() }
}

#[test]
fn settings_yaml_merges() {
    let old = "llm-deepseek:\n  reasoningEffort: max\nllm-pi-ai:\n  providers:\n    other:\n      api: openai-completions\n      baseURL: https://x/v1\n      models:\n        - id: m\n";
    let text = updated_settings(Some(old), "s.yaml", 7778, &[entry("Big 128k", 131072)]).unwrap();
    let v: serde_yaml_ng::Value = serde_yaml_ng::from_str(&text).unwrap();
    assert_eq!(v["llm-deepseek"]["reasoningEffort"], "max");
    assert!(v["llm-pi-ai"]["providers"]["other"].is_mapping());
    let mine = &v["llm-pi-ai"]["providers"][PROVIDER];
    assert_eq!(mine["baseURL"], "http://127.0.0.1:7778/v1");
    assert_eq!(mine["apiKeyEnv"], API_KEY_ENV);
    assert_eq!(mine["compat"]["maxTokensField"], "max_tokens");
    assert_eq!(mine["compat"]["supportsDeveloperRole"], false);
    assert_eq!(mine["models"][0]["id"], "Big 128k");
    assert_eq!(mine["models"][0]["maxTokens"], 32000);
}

#[test]
fn settings_yaml_created_when_missing() {
    for old in [None, Some(""), Some("  \n"), Some("~\n")] {
        let text = updated_settings(old, "s.yaml", 7778, &[entry("m", 8192)]).unwrap();
        let v: serde_yaml_ng::Value = serde_yaml_ng::from_str(&text).unwrap();
        assert_eq!(v["llm-pi-ai"]["providers"][PROVIDER]["models"][0]["maxTokens"], 4096);
    }
    let text = updated_settings(Some("llm-pi-ai:\n"), "s.yaml", 7778, &[]).unwrap();
    let v: serde_yaml_ng::Value = serde_yaml_ng::from_str(&text).unwrap();
    assert!(v["llm-pi-ai"]["providers"][PROVIDER]["models"].as_sequence().unwrap().is_empty());
}

#[test]
fn settings_yaml_refusals() {
    assert_eq!(
        updated_settings(Some("- a\n- b\n"), "s.yaml", 1, &[]).unwrap_err(),
        "s.yaml is not a YAML mapping"
    );
    assert_eq!(
        updated_settings(Some("llm-pi-ai: 3\n"), "s.yaml", 1, &[]).unwrap_err(),
        "\"llm-pi-ai\" in s.yaml is not a mapping"
    );
    assert_eq!(
        updated_settings(Some("llm-pi-ai:\n  providers: [1]\n"), "s.yaml", 1, &[]).unwrap_err(),
        "\"llm-pi-ai.providers\" in s.yaml is not a mapping"
    );
    assert!(updated_settings(Some("a: [\n"), "s.yaml", 1, &[])
        .unwrap_err()
        .starts_with("s.yaml is not valid YAML: "));
}

#[test]
fn settings_yaml_strings_are_escaped() {
    let e = ModelEntry { id: "a\"b\\c\nd".to_string(), name: "tab\there".to_string(), context_window: 1, preset_id: String::new() };
    let text = updated_settings(None, "s.yaml", 1, &[e]).unwrap();
    let v: serde_yaml_ng::Value = serde_yaml_ng::from_str(&text).unwrap();
    assert_eq!(v["llm-pi-ai"]["providers"][PROVIDER]["models"][0]["id"], "a\"b\\c\nd");
    assert_eq!(v["llm-pi-ai"]["providers"][PROVIDER]["models"][0]["name"], "tab\there");
}

#[test]
fn models_json_merges_into_existing_file() {
    let old = r#"{"providers": {"other": {"baseUrl": "https://x", "api": "openai-completions", "models": []}}}"#;
    let text = updated_models_json(Some(old), "m.json", 7778, "qwen3-32b", "Qwen3 32B", 128000).unwrap();
    let v: serde_json::Value = serde_json::from_str(&text).unwrap();
    assert!(v["providers"]["other"].is_object(), "other provider kept");
    assert_eq!(v["providers"][PROVIDER]["baseUrl"], "http://127.0.0.1:7778/v1");
    assert_eq!(v["providers"][PROVIDER]["apiKey"], "llama-admin-monitor");
    assert_eq!(v["providers"][PROVIDER]["models"][0]["id"], "qwen3-32b");
    assert_eq!(v["providers"][PROVIDER]["models"][0]["name"], "Qwen3 32B");
    assert_eq!(v["providers"][PROVIDER]["models"][0]["maxTokens"], 32000);
    assert_eq!(v["providers"][PROVIDER]["models"][0]["reasoning"], false);
    assert_eq!(v["providers"][PROVIDER]["models"][0]["input"][0], "text");
}

#[test]
fn models_json_created_when_missing() {
    let text = updated_models_json(None, "m.json", 7778, "m", "M", 8192).unwrap();
    let v: serde_json::Value = serde_json::from_str(&text).unwrap();
    assert_eq!(v["providers"][PROVIDER]["models"][0]["maxTokens"], 4096);
}

#[test]
fn models_json_refusals() {
    assert_eq!(
        updated_models_json(Some("[1]"), "m.json", 1, "m", "M", 1).unwrap_err(),
        "m.json is not a JSON object"
    );
    assert_eq!(
        updated_models_json(Some("null"), "m.json", 1, "m", "M", 1).unwrap_err(),
        "m.json is not a JSON object"
    );
    assert_eq!(
        updated_models_json(Some(r#"{"providers": null}"#), "m.json", 1, "m", "M", 1).unwrap_err(),
        "\"providers\" in m.json is not an object"
    );
    assert!(updated_models_json(Some("{"), "m.json", 1, "m", "M", 1)
        .unwrap_err()
        .starts_with("m.json is not valid JSON: "));
}
