use llama_admin_monitor::gpu::procs::{
    drm_totals, drm_totals_in_range, normalize_bus, parse_fdinfo, process_order, vendor_for_driver,
    DrmClient,
};

#[test]
fn fdinfo_amdgpu_client() {
    let text = "pos:\t0\nflags:\t02100002\nmnt_id:\t28\nino:\t1234\n\
                drm-driver:\tamdgpu\ndrm-client-id:\t42\ndrm-pdev:\t0000:03:00.0\n\
                drm-memory-vram:\t1048576 KiB\ndrm-memory-gtt:\t2048 KiB\n\
                drm-engine-gfx:\t123456789 ns\ndrm-engine-compute:\t0 ns\n";
    let c = parse_fdinfo(text).unwrap();
    assert_eq!(c.driver, "amdgpu");
    assert_eq!(c.client_id, "42");
    assert_eq!(c.pdev, "0000:03:00.0");
    assert_eq!(c.vram_bytes, 1024 * 1024 * 1024);
    assert_eq!(c.engine_ns, Some(123456789));
}

#[test]
fn fdinfo_non_drm_fd_is_ignored() {
    assert_eq!(parse_fdinfo("pos:\t0\nflags:\t02\nmnt_id:\t28\n"), None);
}

#[test]
fn bus_ids_normalise() {
    assert_eq!(normalize_bus("00000000:03:00.0"), "0000:03:00.0");
    assert_eq!(normalize_bus("0000:03:00.0"), "0000:03:00.0");
}

#[test]
fn compute_engine_time_when_gfx_is_absent() {
    let c = parse_fdinfo("drm-driver: i915\ndrm-engine-compute: 77 ns\ndrm-total-vram: 3 MiB\n")
        .unwrap();
    assert_eq!(c.engine_ns, Some(77));
    assert_eq!(c.vram_bytes, 3 * 1024 * 1024);
    let c = parse_fdinfo("drm-driver: xe\ndrm-memory-vram: 5\n").unwrap();
    assert_eq!(c.vram_bytes, 5);
    assert_eq!(c.engine_ns, None);
}

#[test]
fn vendors_by_driver() {
    assert_eq!(vendor_for_driver("amdgpu"), "AMD");
    assert_eq!(vendor_for_driver("radeon"), "AMD");
    assert_eq!(vendor_for_driver("xe"), "Intel");
    assert_eq!(vendor_for_driver("nouveau"), "NVIDIA");
    assert_eq!(vendor_for_driver("virtio_gpu"), "GPU");
}

#[test]
fn bus_ids_are_lowercased_and_trimmed() {
    assert_eq!(normalize_bus(" 00000000:0B:00.0 "), "0000:0b:00.0");
    assert_eq!(normalize_bus("nocolon"), "nocolon");
}

#[test]
fn processes_listed_by_memory_then_pid() {
    let keys = vec![(100u64, 7u32), (500, 3), (100, 2), (500, 3), (0, 1)];
    assert_eq!(process_order(&keys), vec![1, 3, 2, 0, 4]);
    assert!(process_order(&Vec::new()).is_empty());
}

fn client(pdev: &str, id: &str, vram: u64) -> DrmClient {
    DrmClient {
        driver: "amdgpu".to_string(),
        pdev: pdev.to_string(),
        client_id: id.to_string(),
        vram_bytes: vram,
        engine_ns: None,
    }
}

#[test]
fn drm_clients_totalled_per_process_and_device() {
    let found = vec![
        (10, client("0000:03:00.0", "1", 100)),
        (10, client("0000:03:00.0", "1", 100)), // a second fd of the same client
        (20, client("0000:03:00.0", "7", 5)),
        (10, client("0000:03:00.0", "2", 30)),
        (10, client("0000:04:00.0", "3", 1)),
        (20, client("0000:03:00.0", "1", 2)), // same id, other process: counted
    ];
    assert!(drm_totals_in_range(&found));
    let t = drm_totals(&found);
    assert_eq!(t.len(), 3);
    assert_eq!((t[0].pid, t[0].pdev.as_str(), t[0].vram_bytes), (10, "0000:03:00.0", 130));
    assert_eq!(t[0].members, vec![0, 3]);
    assert_eq!((t[1].pid, t[1].pdev.as_str(), t[1].vram_bytes), (20, "0000:03:00.0", 7));
    assert_eq!(t[1].members, vec![2, 5]);
    assert_eq!((t[2].pid, t[2].pdev.as_str(), t[2].vram_bytes), (10, "0000:04:00.0", 1));
    assert_eq!(t[2].members, vec![4]);
}

#[test]
fn drm_totals_of_nothing_is_empty() {
    assert!(drm_totals(&Vec::new()).is_empty());
}

#[test]
fn drm_totals_that_overflow_are_reported() {
    let found = vec![
        (1, client("a", "1", u64::MAX)),
        (1, client("a", "2", 1)),
    ];
    assert!(!drm_totals_in_range(&found));
    let repeated = vec![
        (1, client("a", "1", u64::MAX)),
        (1, client("a", "1", 1)),
    ];
    assert!(drm_totals_in_range(&repeated));
    assert_eq!(drm_totals(&repeated)[0].vram_bytes, u64::MAX);
}
