use llama_admin_monitor::bench::SweepSpec;
use llama_admin_monitor::diagnose::cut_clean;
use llama_admin_monitor::gpu::card_key_available;
use llama_admin_monitor::gpu::nvidia::nvidia_csv_in_range;
use llama_admin_monitor::gpu::procs::{bus_cut_clean, fdinfo_in_range, nvidia_apps_in_range};
use llama_admin_monitor::metrics::{slot_deltas_in_range, SlotSample};
use llama_admin_monitor::system::{
    cores_in_range, diskstats_in_range, dmi_size_in_range, dmidecode_in_range, meminfo_in_range,
    proc_stat_in_range,
};

#[test]
fn proc_stat_sums_that_fit_and_that_overflow() {
    assert!(proc_stat_in_range("cpu  100 5 50 800 20 0 5 0 0 0\n"));
    assert!(proc_stat_in_range("intr 1 2 3\n"));
    // Two maximal columns cannot be added in u64.
    assert!(!proc_stat_in_range("cpu  18446744073709551615 1 0 0\n"));
    // Fewer than four numbers: nothing is added.
    assert!(proc_stat_in_range("cpu  18446744073709551615 1\n"));
}

#[test]
fn core_lines_are_checked_one_by_one() {
    assert!(cores_in_range("cpu  1 2 3 4\ncpu0 1 2 3 4\ncpu1 5 6 7 8\n"));
    assert!(!cores_in_range("cpu0 1 2 3 4\ncpu1 18446744073709551615 1 0 0\n"));
    // The aggregate line is not a core line.
    assert!(cores_in_range("cpu  18446744073709551615 1 0 0\ncpu0 1 2 3 4\n"));
}

#[test]
fn meminfo_kilobytes_must_convert_to_bytes() {
    assert!(meminfo_in_range("MemTotal:       32768000 kB\n"));
    assert!(meminfo_in_range("MemTotal:       18014398509481983 kB\n"));
    assert!(!meminfo_in_range("MemTotal:       18014398509481984 kB\n"));
}

#[test]
fn diskstats_totals_must_fit() {
    let ok = "   8       0 sda 100 0 2048 0 50 0 4096 0 0 0 0\n";
    assert!(diskstats_in_range(ok));
    let big = "   8       0 sda 100 0 36028797018963968 0 50 0 1 0 0 0 0\n";
    assert!(!diskstats_in_range(big));
    // Partitions are not summed, so their counters never overflow the total.
    let part = "   8       1 sda1 100 0 36028797018963968 0 50 0 1 0 0 0 0\n";
    assert!(diskstats_in_range(part));
}

#[test]
fn dmi_sizes_in_range() {
    assert!(dmi_size_in_range("16 GB"));
    assert!(dmi_size_in_range("No Module Installed"));
    assert!(dmi_size_in_range("weird"));
    assert!(dmi_size_in_range("17179869183 GB"));
    assert!(!dmi_size_in_range("17179869184 GB"));
    assert!(!dmi_size_in_range("16777216 TB"));
}

#[test]
fn dmidecode_sizes_in_range() {
    let ok = "Memory Device\n\tSize: 16 GB\n\tLocator: DIMM_A1\n";
    assert!(dmidecode_in_range(ok));
    let bad = "Memory Device\n\tSize: 17179869184 GB\n";
    assert!(!dmidecode_in_range(bad));
    // A size before any memory device is not read at all.
    assert!(dmidecode_in_range("\tSize: 17179869184 GB\nMemory Device\n"));
}

#[test]
fn fdinfo_vram_sizes_in_range() {
    assert!(fdinfo_in_range("drm-driver:\tamdgpu\ndrm-memory-vram:\t1048576 KiB\n"));
    assert!(!fdinfo_in_range("drm-driver:\tamdgpu\ndrm-memory-vram:\t18014398509481984 KiB\n"));
    // Sizes under other keys are not converted.
    assert!(fdinfo_in_range("drm-memory-gtt:\t18014398509481984 KiB\n"));
}

#[test]
fn bus_ids_that_can_be_cut() {
    assert!(bus_cut_clean("00000000:03:00.0"));
    assert!(bus_cut_clean("0000:03:00.0"));
    assert!(bus_cut_clean("no colon"));
    // Four bytes from the end of the domain fall inside a two-byte character.
    assert!(!bus_cut_clean("000é000:03:00.0"));
}

#[test]
fn nvidia_app_lines_in_range() {
    assert!(nvidia_apps_in_range("1234, /usr/bin/llama-server, 8000, 00000000:01:00.0\n"));
    assert!(!nvidia_apps_in_range("1234, x, 17592186044416, 00000000:01:00.0\n"));
    assert!(!nvidia_apps_in_range("1234, x, 10, 000é000:01:00.0\n"));
}

#[test]
fn nvidia_csv_short_enough() {
    assert!(nvidia_csv_in_range("0, RTX 4090, 45, 10, 30.5, 450.00, 1000, 24564, 210, 405\n"));
    assert!(nvidia_csv_in_range(""));
}

#[test]
fn card_keys_available_for_few_cards() {
    let taken = vec!["RTX 4090".to_string(), "RTX 4090 #2".to_string()];
    assert!(card_key_available(&taken, "RTX 4090"));
    assert!(card_key_available(&[], "RTX 4090"));
}

#[test]
fn headline_cut_must_fall_between_characters() {
    let short = vec!["error: out of memory".to_string()];
    assert!(cut_clean(&short));
    assert!(cut_clean(&[]));
    let ascii = vec![format!("error: {}", "x".repeat(300))];
    assert!(cut_clean(&ascii));
    // 216 ASCII bytes then a two-byte character: byte 217 splits it.
    let split = vec![format!("error: {}é{}", "x".repeat(209), "y".repeat(50))];
    assert!(!cut_clean(&split));
}

fn slot(id: u64, task: Option<u64>, busy: bool, p: u64, d: u64) -> SlotSample {
    SlotSample { id, id_task: task, is_processing: busy, n_prompt_processed: p, n_decoded: d }
}

#[test]
fn slot_delta_sums_in_range() {
    let prev = vec![slot(0, Some(1), true, 10, 5), slot(1, Some(2), true, 0, 0)];
    let cur = vec![slot(0, Some(1), true, 20, 9), slot(1, Some(2), true, 30, 4)];
    assert!(slot_deltas_in_range(&prev, &cur));
    let cur_big = vec![
        slot(0, Some(1), true, u64::MAX, 9),
        slot(1, Some(2), true, u64::MAX, 4),
    ];
    assert!(!slot_deltas_in_range(&prev, &cur_big));
}

#[test]
fn sweep_run_count_in_range() {
    let spec = SweepSpec {
        model_path: "m.gguf".to_string(),
        splits: vec!["1,0".to_string(), "0,1".to_string()],
        batch_sizes: vec![512, 1024],
        ubatch_sizes: vec![256],
        thread_counts: vec![8, 16],
        gpu_layers: 99,
    };
    assert!(spec.runs_in_range());
    assert_eq!(spec.total_runs(), 8);
    let empty = SweepSpec { splits: vec![], ..spec.clone() };
    assert!(empty.runs_in_range());
}
