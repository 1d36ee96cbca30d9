use llama_admin_monitor::update::{
    check_download, current_track, current_version, latest_per_track, looks_like_executable,
    platform_asset, update_available, update_url, version_from_tag, GhAsset, GhRelease,
    ReleaseInfo, REPO,
};

fn release(tag: &str, prerelease: bool, draft: bool) -> GhRelease {
    GhRelease {
        tag_name: tag.into(),
        prerelease,
        draft,
        published_at: Some("2026-09-20T00:00:00Z".into()),
        html_url: format!("https://github.com/{REPO}/releases/tag/{tag}"),
        assets: vec![GhAsset {
            name: "llama-admin-monitor-linux-x86_64".into(),
            browser_download_url: format!("https://example/{tag}/linux"),
        }],
    }
}

#[test]
fn picks_newest_stable_and_beta_skipping_drafts() {
    let releases = vec![
        release("v2026.9.21-beta.1", true, true),
        release("v2026.9.20-beta.2", true, false),
        release("v2026.9.20", false, false),
        release("v2026.9.19", false, false),
    ];
    let (stable, beta) = latest_per_track(&releases, Some("llama-admin-monitor-linux-x86_64"));
    assert_eq!(stable.as_ref().map(|r| r.tag.as_str()), Some("v2026.9.20"));
    assert_eq!(
        beta.as_ref().map(|r| r.tag.as_str()),
        Some("v2026.9.20-beta.2")
    );
    assert_eq!(beta.unwrap().version, "2026.9.20-beta.2");
    assert_eq!(
        stable.unwrap().asset_url.as_deref(),
        Some("https://example/v2026.9.20/linux")
    );
}

#[test]
fn missing_asset_gives_no_url() {
    let releases = vec![release("v1", false, false)];
    let (stable, _) = latest_per_track(&releases, Some("llama-admin-monitor-macos-aarch64"));
    assert_eq!(stable.unwrap().asset_url, None);
}

#[test]
fn executable_magic() {
    assert!(looks_like_executable(&[0x7f, b'E', b'L', b'F', 2, 1]));
    assert!(looks_like_executable(&[0xcf, 0xfa, 0xed, 0xfe]));
    assert!(!looks_like_executable(b"<!DOCTYPE html>"));
    assert!(!looks_like_executable(b"\x7fEL"));
}

#[test]
fn version_strips_v_prefix() {
    assert!(!current_version(None, "0.1.0").starts_with('v'));
    assert!(matches!(current_track(None), "main" | "beta" | "dev"));
}

#[test]
fn baked_tags_and_tracks() {
    assert_eq!(current_version(Some("v2026.9.20-beta.1"), "0.1.0"), "2026.9.20-beta.1");
    assert_eq!(current_track(Some("beta")), "beta");
    assert_eq!(version_from_tag("vv1"), "1");
}

#[test]
fn assets_per_platform() {
    assert_eq!(platform_asset("linux", "x86_64").as_deref(), Some("llama-admin-monitor-linux-x86_64"));
    assert_eq!(platform_asset("macos", "aarch64").as_deref(), Some("llama-admin-monitor-macos-aarch64"));
    assert_eq!(platform_asset("windows", "x86_64"), None);
    assert_eq!(platform_asset("linux", "riscv64"), None);
}

#[test]
fn updates_follow_the_running_track() {
    let releases = vec![release("v2", true, false), release("v1", false, false)];
    let (stable, beta) = latest_per_track(&releases, None);
    assert!(update_available("main", &stable, &beta, "0.9"));
    assert!(!update_available("main", &stable, &beta, "1"));
    assert!(update_available("beta", &stable, &beta, "1"));
    assert!(!update_available("dev", &stable, &beta, "0.1.0"));
    assert!(!update_available("main", &None, &beta, "0.1.0"));
}

#[test]
fn downloads_are_checked_before_the_swap() {
    let elf = [0x7f, b'E', b'L', b'F', 2, 1];
    assert_eq!(check_download(Some(2_000_000), 2_000_000, &elf), Ok(()));
    assert_eq!(check_download(None, 2_000_000, &elf), Ok(()));
    assert_eq!(
        check_download(Some(2_000_000), 1_500_000, &elf).unwrap_err(),
        "download incomplete: 1500000 of 2000000 bytes"
    );
    assert_eq!(
        check_download(None, 999_999, &elf).unwrap_err(),
        "downloaded file is too small to be a build (999999 bytes)"
    );
    assert_eq!(
        check_download(None, 2_000_000, b"<html>").unwrap_err(),
        "downloaded file is not an executable for this platform"
    );
}

fn info(tag: &str, url: Option<&str>) -> ReleaseInfo {
    ReleaseInfo {
        tag: tag.into(),
        version: tag.trim_start_matches('v').into(),
        prerelease: false,
        published_at: String::new(),
        url: String::new(),
        asset_url: url.map(str::to_string),
    }
}

#[test]
fn update_targets_follow_the_track() {
    let stable = Some(info("v2026.9.20", Some("https://example/stable")));
    let beta = Some(info("v2026.9.21-beta", None));
    let asset = "llama-admin-monitor-linux-x86_64";
    assert_eq!(update_url("main", &stable, &beta, asset).unwrap(), "https://example/stable");
    assert_eq!(
        update_url("beta", &stable, &beta, asset).unwrap_err(),
        "release v2026.9.21-beta has no llama-admin-monitor-linux-x86_64 asset"
    );
    assert_eq!(
        update_url("beta", &stable, &None, asset).unwrap_err(),
        "no published release on the beta track yet"
    );
    assert_eq!(update_url("dev", &stable, &beta, asset).unwrap_err(), "unknown track dev");
}
