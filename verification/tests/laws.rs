use llama_admin_monitor::dsh::max_tokens;
use llama_admin_monitor::gguf::{scan_gguf, GgufScan};
use llama_admin_monitor::gpu::procs::normalize_bus;
use llama_admin_monitor::gpu::rocm::parse_hex;
use llama_admin_monitor::update::{current_track, current_version};
use llama_admin_monitor::web::is_hop_by_hop;

#[test]
fn hex_ids_read_back() {
    for n in [0u32, 1, 0xf, 0x10, 0x7551, 0x73bf, u32::MAX] {
        let text = format!("0x{n:x}");
        assert_eq!(parse_hex(Some(&text)), Some(n));
    }
}

#[test]
fn bus_normalising_is_idempotent() {
    for bus in ["00000000:03:00.0", "0000:0A:00.0", "ABCDEF:01:00.1", "03:00.0", "1234:ff:1f.7"] {
        let once = normalize_bus(bus);
        assert_eq!(normalize_bus(&once), once);
    }
}

#[test]
fn hop_by_hop_ignores_case_of_the_name() {
    for h in ["Connection", "TRANSFER-ENCODING", "Content-Type", "X-Custom", "Host"] {
        assert_eq!(is_hop_by_hop(h), is_hop_by_hop(&h.to_ascii_lowercase()));
    }
}

#[test]
fn versions_never_start_with_v() {
    assert_eq!(current_version(Some("vv1.2.3"), "0.1.0"), "1.2.3");
    assert_eq!(current_version(Some("v0.9.0"), "0.1.0"), "0.9.0");
    assert_eq!(current_version(None, "0.1.0"), "0.1.0");
    assert_eq!(current_track(None), "dev");
    assert_eq!(current_track(Some("beta")), "beta");
}

#[test]
fn max_tokens_clamped_between_4096_and_32000() {
    assert_eq!(max_tokens(0), 4096);
    assert_eq!(max_tokens(16384), 4096);
    assert_eq!(max_tokens(65536), 16384);
    assert_eq!(max_tokens(128000), 32000);
    assert_eq!(max_tokens(1 << 20), 32000);
}

#[test]
fn gguf_answers_by_magic_version_and_pairs() {
    let mut b = b"GGUF".to_vec();
    b.extend_from_slice(&3u32.to_le_bytes());
    b.extend_from_slice(&0u64.to_le_bytes());
    b.extend_from_slice(&0u64.to_le_bytes());
    assert_eq!(scan_gguf(&b), GgufScan::Answer(false));
    let mut v4 = b.clone();
    v4[4] = 4;
    assert_eq!(scan_gguf(&v4), GgufScan::Invalid);
    let mut bad = b.clone();
    bad[0] = b'X';
    assert_eq!(scan_gguf(&bad), GgufScan::Invalid);
}
