use llama_admin_monitor::system::disk::{
    device_name, disk_kind, mount_source, parent_device, parse_smartctl_json, short_name,
    smart_data, smartctl_error, smartctl_failed, AtaAttribute, DiskProbe, NvmeHealth, SmartReport,
    SMART_INTERVAL_MS,
};
use llama_admin_monitor::system::{
    cpu_deltas, is_whole_disk, parse_cpu_model, parse_df_output, parse_diskstats,
    parse_dmi_size, parse_dmi_speed, parse_dmidecode_memory, parse_meminfo, parse_proc_stat,
    parse_proc_stat_cores, DimmInfo, MemInfo, SystemSampler,
};

#[test]
fn proc_stat_idle_and_total() {
    let text = "cpu  100 5 50 800 20 0 5 0 0 0\ncpu0 50 2 25 400 10 0 2 0 0 0\n";
    assert_eq!(parse_proc_stat(text), Some((820, 980)));
}

#[test]
fn proc_stat_missing_line() {
    assert_eq!(parse_proc_stat("intr 1 2 3\n"), None);
}

#[test]
fn meminfo_in_bytes() {
    let text = "MemTotal:       32768 kB\nMemFree:        1000 kB\nMemAvailable:   16384 kB\nSwapTotal:      2048 kB\nSwapFree:       1024 kB\n";
    assert_eq!(
        parse_meminfo(text),
        MemInfo {
            total: 32768 * 1024,
            available: 16384 * 1024,
            swap_total: 2048 * 1024,
            swap_free: 1024 * 1024,
        }
    );
}

#[test]
fn diskstats_sums_whole_disks_only() {
    let text = "\
   8       0 sda 100 0 2000 0 50 0 1000 0 0 0 0 0 0 0 0 0 0
   8       1 sda1 100 0 1500 0 50 0 800 0 0 0 0 0 0 0 0 0 0
 259       0 nvme0n1 10 0 4000 0 5 0 3000 0 0 0 0 0 0 0 0 0 0
 259       1 nvme0n1p1 10 0 3000 0 5 0 2000 0 0 0 0 0 0 0 0 0 0
   7       0 loop0 1 0 64 0 0 0 0 0 0 0 0 0 0 0 0 0 0
";
    assert_eq!(
        parse_diskstats(text),
        ((2000 + 4000) * 512, (1000 + 3000) * 512)
    );
}

#[test]
fn whole_disk_names() {
    for d in [
        "sda", "sdb", "vda", "xvda", "nvme0n1", "nvme1n2", "mmcblk0", "md0",
    ] {
        assert!(is_whole_disk(d), "{d} should be a whole disk");
    }
    for p in [
        "sda1",
        "nvme0n1p1",
        "mmcblk0p2",
        "loop0",
        "ram0",
        "dm-0",
        "sr0",
        "zram0",
    ] {
        assert!(!is_whole_disk(p), "{p} should not be a whole disk");
    }
}

#[test]
fn per_core_stats_skip_aggregate_line() {
    let text = "cpu  100 5 50 800 20 0 5 0 0 0\ncpu0 50 2 25 400 10 0 2 0 0 0\ncpu1 50 3 25 400 10 0 3 0 0 0\nintr 1 2\n";
    assert_eq!(parse_proc_stat_cores(text), vec![(410, 489), (410, 491)]);
}

#[test]
fn cpu_model_name() {
    let text = "processor\t: 0\nmodel name\t: AMD Ryzen 9 7950X 16-Core Processor\n";
    assert_eq!(
        parse_cpu_model(text).as_deref(),
        Some("AMD Ryzen 9 7950X 16-Core Processor")
    );
    assert_eq!(parse_cpu_model("flags: fpu"), None);
}

#[test]
fn dmidecode_memory_devices() {
    let text = "Handle 0x0040, DMI type 17, 92 bytes\nMemory Device\n\tSize: 16 GB\n\tLocator: DIMM_A1\n\tType: DDR5\n\tSpeed: 5600 MT/s\n\tManufacturer: Kingston\n\tPart Number: KF556C36-16\n\tConfigured Memory Speed: 4800 MT/s\n\nHandle 0x0041, DMI type 17, 92 bytes\nMemory Device\n\tSize: No Module Installed\n\tLocator: DIMM_A2\n\tType: Unknown\n\tSpeed: Unknown\n";
    let (slots, dimms) = parse_dmidecode_memory(text);
    assert_eq!(slots, 2);
    assert_eq!(
        dimms,
        vec![DimmInfo {
            locator: "DIMM_A1".into(),
            size_bytes: 16 << 30,
            mem_type: "DDR5".into(),
            speed_mts: Some(5600),
            configured_speed_mts: Some(4800),
            manufacturer: "Kingston".into(),
            part_number: "KF556C36-16".into(),
        }]
    );
}

#[test]
fn dmi_sizes_and_speeds() {
    assert_eq!(parse_dmi_size("16384 MB"), Some(16 << 30));
    assert_eq!(parse_dmi_size("No Module Installed"), Some(0));
    assert_eq!(parse_dmi_size("weird"), None);
    assert_eq!(parse_dmi_speed("2133 MHz"), Some(2133));
    assert_eq!(parse_dmi_speed("Unknown"), None);
}

#[test]
fn df_output_parsed() {
    let text = "1B-blocks        Avail Mounted on\n1000000000000 250000000000 /home\n";
    let d = parse_df_output(text).unwrap();
    assert_eq!(d.total, 1_000_000_000_000);
    assert_eq!(d.free, 250_000_000_000);
    assert_eq!(d.mount, "/home");
}

#[test]
fn kinds() {
    assert_eq!(disk_kind("nvme0n1", false), "NVMe");
    assert_eq!(disk_kind("sda", true), "HDD");
    assert_eq!(disk_kind("sdb", false), "SSD");
}

#[test]
fn dmi_sizes_in_terabytes_and_unknown() {
    assert_eq!(parse_dmi_size("1 TB"), Some(1 << 40));
    assert_eq!(parse_dmi_size("Unknown"), Some(0));
    assert_eq!(parse_dmi_size("16 PB"), None);
    assert_eq!(parse_dmi_size("x GB"), None);
}

#[test]
fn df_output_needs_two_numbers() {
    assert!(parse_df_output("only a header\n").is_none());
    assert!(parse_df_output("h\n12 x /mnt\n").is_none());
    let d = parse_df_output("h\n10 5 /mnt/my disk\n").unwrap();
    assert_eq!(d.mount, "/mnt/my disk");
}

#[test]
fn cpu_deltas_from_readings() {
    assert_eq!(cpu_deltas((100, 200), (150, 300)), Some((50, 100)));
    assert_eq!(cpu_deltas((100, 200), (100, 200)), None);
    assert_eq!(cpu_deltas((100, 200), (90, 300)), Some((0, 100)));
}

#[test]
fn sampler_needs_a_baseline() {
    let mut s = SystemSampler::new();
    assert_eq!(s.observe_cpu((100, 200)), None);
    assert_eq!(s.observe_cpu((150, 300)), Some((50, 100)));
    assert_eq!(s.observe_cores(vec![(10, 20)]), vec![None]);
    assert_eq!(s.observe_cores(vec![(15, 30), (1, 2)]), vec![Some((5, 10)), None]);
    assert_eq!(s.observe_disk((1000, 2000)), None);
    assert_eq!(s.observe_disk((1500, 1000)), Some((500, 0)));
}

#[test]
fn meminfo_ignores_unparsable_values() {
    let m = parse_meminfo("MemTotal: lots kB\nSwapFree: 4 kB\n");
    assert_eq!(m.total, 0);
    assert_eq!(m.swap_free, 4096);
}

#[test]
fn cpu_model_blank_value_is_none() {
    assert_eq!(parse_cpu_model("model name\t:   \n"), None);
    assert_eq!(parse_cpu_model("model name  x"), None);
}

#[test]
fn nvme_smart_json() {
    let text = r#"{
        "smart_status": {"passed": true},
        "temperature": {"current": 41},
        "power_on_time": {"hours": 8760},
        "nvme_smart_health_information_log": {
            "critical_warning": 0,
            "temperature": 41,
            "available_spare": 100,
            "percentage_used": 3,
            "data_units_written": 100000000,
            "media_errors": 0
        }
    }"#;
    let s = parse_smartctl_json(text).unwrap();
    assert_eq!(s.passed, Some(true));
    assert_eq!(s.power_on_hours, Some(8760));
    assert_eq!(s.wear_percent, Some(3));
    assert_eq!(s.available_spare_percent, Some(100));
    assert_eq!(s.media_errors, Some(0));
    assert_eq!(s.data_written_bytes, Some(51_200_000_000_000));
    assert_eq!(s.critical_warning, None);
}

#[test]
fn ata_smart_json() {
    let text = r#"{
        "smart_status": {"passed": false},
        "temperature": {"current": 35},
        "ata_smart_attributes": {"table": [
            {"id": 5, "name": "Reallocated_Sector_Ct", "value": 100, "raw": {"value": 12}},
            {"id": 9, "name": "Power_On_Hours", "value": 98, "raw": {"value": 20000}},
            {"id": 177, "name": "Wear_Leveling_Count", "value": 91, "raw": {"value": 300}}
        ]}
    }"#;
    let s = parse_smartctl_json(text).unwrap();
    assert_eq!(s.passed, Some(false));
    assert_eq!(s.reallocated_sectors, Some(12));
    assert_eq!(s.power_on_hours, Some(20000));
    assert_eq!(s.wear_percent, Some(9));
}

#[test]
fn smartctl_text_that_is_not_json_gives_nothing() {
    assert_eq!(parse_smartctl_json("smartctl: permission denied"), None);
    let empty = parse_smartctl_json("{}").unwrap();
    assert_eq!(empty.passed, None);
    assert_eq!(empty.wear_percent, None);
}

#[test]
fn smartctl_failures_explained() {
    assert!(!smartctl_failed(0));
    assert!(!smartctl_failed(8));
    assert!(smartctl_failed(2));
    assert!(smartctl_failed(1));
    let out = r#"{"smartctl": {"messages": [{"severity": "error"}, {"string": "Permission denied"}]}}"#;
    assert_eq!(smartctl_error(out, "ignored\n"), "Permission denied");
    assert_eq!(smartctl_error("not json", "  sudo: a password is required \nmore"), "sudo: a password is required");
    assert_eq!(smartctl_error("", ""), "permission denied");
}

#[test]
fn smart_edge_values() {
    let report = SmartReport {
        passed: None,
        power_on_hours: Some(5),
        nvme: Some(NvmeHealth {
            percentage_used: Some(u64::MAX),
            available_spare: Some(0x1_0000_0007),
            media_errors: None,
            data_units_written: Some(u64::MAX),
            critical_warning: Some(4),
        }),
        ata: Some(vec![
            AtaAttribute { id: Some(9), value: None, raw: Some(77) },
            AtaAttribute { id: Some(231), value: Some(250), raw: None },
            AtaAttribute { id: Some(233), value: Some(10), raw: None },
        ]),
    };
    let s = smart_data(&report);
    assert_eq!(s.wear_percent, Some(u32::MAX));
    assert_eq!(s.available_spare_percent, Some(7));
    assert_eq!(s.data_written_bytes, Some(u64::MAX));
    assert_eq!(s.critical_warning, Some(4));
    // Known power-on hours are kept; known wear is kept.
    assert_eq!(s.power_on_hours, Some(5));
    let no_wear = SmartReport {
        ata: Some(vec![AtaAttribute { id: Some(231), value: Some(250), raw: None }]),
        ..Default::default()
    };
    assert_eq!(smart_data(&no_wear).wear_percent, Some(0));
}

#[test]
fn memory_in_use() {
    let m = MemInfo { total: 100, available: 30, swap_total: 10, swap_free: 20 };
    assert_eq!(m.used(), 70);
    assert_eq!(m.swap_used(), 0);
}

#[test]
fn mount_sources_lead_to_devices() {
    assert_eq!(mount_source("/dev/nvme0n1p2[/@home]\n").as_deref(), Some("/dev/nvme0n1p2"));
    assert_eq!(mount_source("  /dev/sda1\n").as_deref(), Some("/dev/sda1"));
    assert_eq!(mount_source("tmpfs\n"), None);
    assert_eq!(mount_source(""), None);
    assert_eq!(device_name("/dev/nvme0n1p2"), "nvme0n1p2");
    assert_eq!(device_name("/dev/mapper/root"), "mapper/root");
    assert_eq!(device_name("/dev//dev/x"), "/dev/x".trim_start_matches("/dev/"));
    assert_eq!(device_name("sda"), "sda");
    assert_eq!(short_name("mapper/root"), "root");
    assert_eq!(short_name("sda"), "sda");
    assert_eq!(parent_device("\n  nvme0n1 \nsdb\n").as_deref(), Some("nvme0n1"));
    assert_eq!(parent_device("\n\n"), None);
}

#[test]
fn disk_probe_keeps_the_last_good_reading() {
    let mut p: DiskProbe<u32> = DiskProbe::new();
    assert!(p.retarget("/models"));
    assert!(!p.retarget("/models"));
    p.set_device(Some("nvme0n1".to_string()));
    assert_eq!(p.device(), Some("nvme0n1".to_string()));
    assert!(p.smart_due(0));
    p.record(1000, Err("permission denied".to_string()));
    assert_eq!(p.reading(), None);
    assert_eq!(p.smart_error(), Some("permission denied".to_string()));
    assert!(!p.smart_due(1000 + SMART_INTERVAL_MS - 1));
    assert!(p.smart_due(1000 + SMART_INTERVAL_MS));
    p.record(70000, Ok(7));
    assert_eq!(p.reading(), Some(&7));
    assert_eq!(p.smart_error(), None);
    // A later failure keeps the reading and shows no error.
    p.record(140000, Err("timeout".to_string()));
    assert_eq!(p.reading(), Some(&7));
    assert_eq!(p.smart_error(), None);
    // A new target forgets everything.
    assert!(p.retarget("/"));
    assert_eq!(p.device(), None);
    assert_eq!(p.reading(), None);
    assert!(p.smart_due(140001));
}

#[test]
fn busy_percent_from_deltas() {
    // (idle, total) 100/200 then 150/300: 50 idle of 100 ticks, 50% busy.
    assert_eq!(cpu_deltas((100, 200), (150, 300)), Some((50, 100)));
    // No ticks passed: no figure.
    assert_eq!(cpu_deltas((100, 200), (100, 200)), None);
}

#[test]
fn sampler_reports_cpu_only_after_two_samples() {
    let mut s = SystemSampler::new();
    // The first sample has no baseline, so there is no CPU figure yet.
    assert_eq!(s.observe_cpu((100, 200)), None);
    assert!(s.observe_cpu((150, 300)).is_some());
}
