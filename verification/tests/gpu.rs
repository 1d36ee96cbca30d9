use llama_admin_monitor::gpu::nvidia::parse_nvidia_csv;
use llama_admin_monitor::gpu::procs::parse_nvidia_apps;
use llama_admin_monitor::gpu::rocm::{
    amd_display_name, parse_clock, parse_hex, parse_reading_mib, parse_reading_u32, RocmCard,
};
use llama_admin_monitor::gpu::amd_names::parse_lspci_name;
use llama_admin_monitor::gpu::{backend_report, detect_backends, unique_card_key, Vendor};

fn card(series: &str, model: Option<&str>, rev: Option<&str>, gfx: Option<&str>) -> RocmCard {
    RocmCard {
        series: Some(series.to_string()),
        model: model.map(str::to_string),
        device_rev: rev.map(str::to_string),
        gfx: gfx.map(str::to_string),
    }
}

#[test]
fn generic_card_series_is_resolved_from_device_id() {
    let c = card("AMD Radeon Graphics", Some("0x7551"), Some("0xc0"), Some("gfx1201"));
    assert_eq!(
        amd_display_name(&c, None, None, None).as_deref(),
        Some("AMD Radeon AI PRO R9700")
    );
    let c = card("AMD Radeon Graphics", Some("0x7550"), Some("0xc3"), None);
    assert_eq!(amd_display_name(&c, None, None, None).as_deref(), Some("AMD Radeon RX 9070"));
    let c = card("AMD Radeon Graphics", Some("0x7550"), None, None);
    assert_eq!(
        amd_display_name(&c, None, None, None).as_deref(),
        Some("AMD Radeon RX 9070 / 9070 XT")
    );
}

#[test]
fn real_card_series_is_kept() {
    let c = card("AMD Radeon RX 9070 XT", Some("0x7551"), None, None);
    assert_eq!(amd_display_name(&c, None, None, None).as_deref(), Some("AMD Radeon RX 9070 XT"));
}

#[test]
fn rocm_unknown_generic_card_gets_gfx_and_device_id() {
    let c = card("AMD Radeon Graphics", Some("0x7fff"), None, Some("gfx1250"));
    assert_eq!(
        amd_display_name(&c, None, None, None).as_deref(),
        Some("AMD Radeon Graphics (gfx1250, 0x7fff)")
    );
}

#[test]
fn rocm_lspci_line_yields_bracketed_name() {
    let line = "03:00.0 VGA compatible controller: Advanced Micro Devices, Inc. [AMD/ATI] Navi 48 [Radeon RX 9070/9070 XT] (rev c0)";
    assert_eq!(parse_lspci_name(line).as_deref(), Some("AMD Radeon RX 9070/9070 XT"));
    let unknown = "03:00.0 VGA compatible controller: Advanced Micro Devices, Inc. [AMD/ATI] Device 7551 (rev c0)";
    assert_eq!(parse_lspci_name(unknown), None);
}

#[test]
fn nameless_card_falls_back_to_its_key() {
    let c = RocmCard::default();
    assert_eq!(amd_display_name(&c, None, None, None), None);
    assert_eq!(amd_display_name(&c, Some(0x7551), None, None).as_deref(), Some("AMD Radeon AI PRO R9700"));
    assert_eq!(amd_display_name(&c, None, None, Some("AMD X")).as_deref(), Some("AMD X"));
}

#[test]
fn rocm_readings() {
    assert_eq!(parse_reading_u32(Some("87")), 87);
    assert_eq!(parse_reading_u32(Some("n/a")), 0);
    assert_eq!(parse_reading_u32(None), 0);
    assert_eq!(parse_reading_mib(Some("16106127360")), 15360);
    assert_eq!(parse_reading_mib(Some("17179869184")), 16384);
    assert_eq!(parse_clock(Some("(1725Mhz)")), 1725);
    assert_eq!(parse_clock(Some(" (1200Mhz) ")), 1200);
    assert_eq!(parse_clock(None), 0);
    assert_eq!(parse_hex(Some(" 0X7551 ")), Some(0x7551));
    assert_eq!(parse_hex(Some("30033(0x7551)")), None);
}

#[test]
fn unique_card_key_suffixes_duplicates() {
    let mut keys: Vec<String> = Vec::new();
    let a = unique_card_key(&keys, "RTX 4090");
    assert_eq!(a, "RTX 4090");
    keys.push(a);
    let b = unique_card_key(&keys, "RTX 4090");
    assert_eq!(b, "RTX 4090 #2");
    keys.push(b);
    let c = unique_card_key(&keys, "RTX 4090");
    assert_eq!(c, "RTX 4090 #3");
}

#[test]
fn unique_card_key_fills_the_first_gap() {
    let keys = vec!["X".to_string(), "X #3".to_string()];
    assert_eq!(unique_card_key(&keys, "X"), "X #2");
    let keys = vec!["X".to_string(), "X #2".to_string(), "X #3".to_string()];
    assert_eq!(unique_card_key(&keys, "X"), "X #4");
}

#[test]
fn test_parse_nvidia_csv() {
    let csv = "0, NVIDIA GeForce RTX 4090, 45, 87, 320.50, 450.00, 20480, 24564, 2520, 10501\n1, NVIDIA GeForce RTX 4090, 52, 75, 280.25, 450.00, 16384, 24564, 2490, 10501\n";
    let rows = parse_nvidia_csv(csv);
    assert_eq!(rows.len(), 2);
    // Two identical cards must both survive: the second gets a suffix.
    let gpu1 = rows.iter().find(|r| r.key == "NVIDIA GeForce RTX 4090 #2").unwrap();
    assert_eq!(gpu1.load, 75);
    assert_eq!(gpu1.vram_used, 16384);
    assert_eq!(rows[0].key, "NVIDIA GeForce RTX 4090");
    assert_eq!(rows[0].load, 87);
    assert_eq!(rows[0].temp, "45");
    assert_eq!(rows[0].power_draw, "320.50");
    assert_eq!(rows[0].power_limit, "450.00");
    assert_eq!(rows[0].vram_used, 20480);
    assert_eq!(rows[0].vram_total, 24564);
    assert_eq!(rows[0].sclk_mhz, 2520);
    assert_eq!(rows[0].mclk_mhz, 10501);
}

#[test]
fn test_parse_nvidia_csv_empty() {
    assert!(parse_nvidia_csv("").is_empty());
    assert!(parse_nvidia_csv("\n  \nshort, line\n").is_empty());
}

#[test]
fn nvidia_apps_csv() {
    let procs = parse_nvidia_apps("12345, /usr/bin/llama-server, 8192, 00000000:0B:00.0\n");
    assert_eq!(procs.len(), 1);
    assert_eq!(procs[0].pid, 12345);
    assert_eq!(procs[0].name, "llama-server");
    assert_eq!(procs[0].vram_bytes, 8192 * 1024 * 1024);
    assert_eq!(procs[0].bus, "0000:0b:00.0");
}

#[test]
fn nvidia_apps_skip_unparsable_rows() {
    let procs = parse_nvidia_apps("x, a, 1, b\n7, plain, 2, 0:1\n8, name\n");
    assert_eq!(procs.len(), 1);
    assert_eq!(procs[0].name, "plain");
    assert_eq!(procs[0].bus, "0:1");
}

#[test]
fn forced_backends_are_taken_as_is() {
    assert_eq!(detect_backends("rocm", None, None), (vec![Vendor::Rocm], vec![]));
    assert_eq!(detect_backends("nvidia", Some(Err("x".into())), None), (vec![Vendor::Nvidia], vec![]));
    assert_eq!(detect_backends("none", Some(Ok(2)), Some(Ok(1))), (vec![], vec![]));
}

#[test]
fn auto_detection_monitors_tools_that_report_cards() {
    let (chosen, logs) = detect_backends("auto", Some(Ok(2)), Some(Ok(0)));
    assert_eq!(chosen, vec![Vendor::Rocm]);
    assert_eq!(
        logs,
        vec![
            ("info", "GPU monitoring via rocm-smi: 2 card(s)".to_string()),
            ("warn", "nvidia-smi is installed but reports no GPUs; not monitoring nvidia".to_string()),
        ]
    );
    let (chosen, logs) = detect_backends("all", None, Some(Err("driver gone".into())));
    assert!(chosen.is_empty());
    assert_eq!(
        logs,
        vec![
            (
                "warn",
                "nvidia-smi is installed but not working (driver gone); not monitoring nvidia"
                    .to_string()
            ),
            ("warn", "No working GPU monitoring tool found (rocm-smi / nvidia-smi)".to_string()),
        ]
    );
    let (chosen, _) = detect_backends("auto", Some(Ok(1)), Some(Ok(1)));
    assert_eq!(chosen, vec![Vendor::Rocm, Vendor::Nvidia]);
}

#[test]
fn backend_failures_are_logged_once_until_recovery() {
    assert_eq!(
        backend_report(false, "rocm", Some("rocm-smi failed")),
        (
            true,
            Some((
                "error",
                "GPU metrics (rocm): rocm-smi failed (further failures are not logged until it recovers)"
                    .to_string()
            ))
        )
    );
    assert_eq!(backend_report(true, "rocm", Some("again")), (true, None));
    assert_eq!(
        backend_report(true, "rocm", None),
        (false, Some(("info", "GPU metrics (rocm) recovered".to_string())))
    );
    assert_eq!(backend_report(false, "rocm", None), (false, None));
}
