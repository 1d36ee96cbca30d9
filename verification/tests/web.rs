use llama_admin_monitor::web::{
    browse_listing, delete_refusal, download_files, forwarded_headers, is_deletable_name,
    is_hop_by_hop, proxy_error_body, proxy_url, rendered_index, track_badge, BrowseEntry,
};

#[test]
fn hop_by_hop_headers_are_stripped_case_insensitively() {
    for h in [
        "Transfer-Encoding",
        "content-length",
        "Connection",
        "Host",
        "keep-alive",
    ] {
        assert!(is_hop_by_hop(h), "{h}");
    }
    for h in [
        "Content-Type",
        "authorization",
        "x-request-id",
        "cache-control",
    ] {
        assert!(!is_hop_by_hop(h), "{h}");
    }
}

#[test]
fn every_hop_header_and_only_exact_names() {
    for h in ["PROXY-AUTHENTICATE", "proxy-authorization", "TE", "Trailer", "Upgrade"] {
        assert!(is_hop_by_hop(h), "{h}");
    }
    for h in ["hosts", "te ", "", "upgrade-insecure-requests"] {
        assert!(!is_hop_by_hop(h), "{h}");
    }
}

#[test]
fn proxied_headers_drop_hop_by_hop_ones_in_order() {
    let headers = vec![
        ("Content-Type".to_string(), b"application/json".to_vec()),
        ("Transfer-Encoding".to_string(), b"chunked".to_vec()),
        ("x-request-id".to_string(), b"42".to_vec()),
        ("Host".to_string(), b"example".to_vec()),
        ("authorization".to_string(), b"Bearer t".to_vec()),
    ];
    let kept: Vec<String> = forwarded_headers(headers).into_iter().map(|(k, _)| k).collect();
    assert_eq!(kept, vec!["Content-Type", "x-request-id", "authorization"]);
    assert!(forwarded_headers::<u8>(Vec::new()).is_empty());
}

#[test]
fn proxy_targets_the_running_server() {
    assert_eq!(
        proxy_url(Some(8081), "chat/completions", None),
        "http://127.0.0.1:8081/v1/chat/completions"
    );
    assert_eq!(proxy_url(None, "models", Some("a=1&b=2")), "http://127.0.0.1:8080/v1/models?a=1&b=2");
}

#[test]
fn proxy_error_is_json_with_single_quotes() {
    assert_eq!(
        proxy_error_body("error sending request: \"refused\""),
        r#"{"error":{"message":"error sending request: 'refused'","type":"proxy_error"}}"#
    );
}

#[test]
fn index_is_stamped_with_version_and_badge() {
    let t = "<b>{{VERSION}}</b>{{BETA_BADGE}}<i>{{VERSION}}</i>";
    assert_eq!(rendered_index(t, "2026.9.20", "main"), "<b>2026.9.20</b><i>2026.9.20</i>");
    assert_eq!(
        rendered_index(t, "1", "beta"),
        r#"<b>1</b><span class="badge badge-accent track-badge">BETA</span><i>1</i>"#
    );
    assert_eq!(track_badge("dev"), r#"<span class="badge badge-dim track-badge">DEV</span>"#);
    assert_eq!(track_badge("stable"), "");
}

fn entry(name: &str, is_dir: bool, executable: bool) -> BrowseEntry {
    BrowseEntry {
        name: name.to_string(),
        path: format!("/data/{name}"),
        is_dir,
        size: if is_dir { 0 } else { 10 },
        executable,
    }
}

#[test]
fn browse_lists_directories_first_then_names_ignoring_case() {
    let entries = vec![
        entry("zeta.gguf", false, false),
        entry(".hidden", true, false),
        entry("Models", true, false),
        entry("alpha.GGUF", false, false),
        entry("beta.gguf", false, true),
        entry("apps", true, false),
        entry("notes.txt", false, false),
    ];
    let names = |out: Vec<BrowseEntry>| -> Vec<String> { out.into_iter().map(|e| e.name).collect() };
    assert_eq!(
        names(browse_listing(entries.clone(), "")),
        vec!["apps", "Models", "alpha.GGUF", "beta.gguf", "notes.txt", "zeta.gguf"]
    );
    assert_eq!(
        names(browse_listing(entries.clone(), "gguf")),
        vec!["apps", "Models", "beta.gguf", "zeta.gguf"]
    );
    assert_eq!(names(browse_listing(entries.clone(), "executable")), vec!["apps", "Models", "beta.gguf"]);
    assert_eq!(names(browse_listing(entries, "other")).len(), 6);
}

#[test]
fn only_bare_gguf_names_may_be_deleted() {
    assert!(is_deletable_name("model-Q4_K_M.gguf"));
    assert!(!is_deletable_name(""));
    assert!(!is_deletable_name("sub/model.gguf"));
    assert!(!is_deletable_name("../model.gguf"));
    assert!(!is_deletable_name("model..gguf"));
    assert!(!is_deletable_name("model.bin"));
    assert!(!is_deletable_name(".gguf.txt"));
}

#[test]
fn delete_refusals_in_order() {
    assert_eq!(delete_refusal("../x.gguf", true, true), Some("invalid filename"));
    assert_eq!(delete_refusal("x.gguf", false, false), Some("no models directory configured"));
    assert_eq!(delete_refusal("x.gguf", true, false), Some("file not found in models directory"));
    assert_eq!(delete_refusal("x.gguf", true, true), None);
}

#[test]
fn download_requests() {
    assert_eq!(download_files("", "m.gguf", "", true), Err("repo and filename required"));
    assert_eq!(download_files("org/repo", "", "", true), Err("repo and filename required"));
    assert_eq!(download_files("org/repo", "m.gguf", "", false), Err("models directory not configured"));
    assert_eq!(download_files("org/repo", "m.gguf", "", true), Ok(vec!["m.gguf".to_string()]));
    assert_eq!(
        download_files("org/repo", "m.gguf", "mmproj-m.gguf", true),
        Ok(vec!["m.gguf".to_string(), "mmproj-m.gguf".to_string()])
    );
}
