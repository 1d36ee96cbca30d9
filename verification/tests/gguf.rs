use llama_admin_monitor::gguf::{scan_gguf, GgufScan};

fn header(version: u32, kv_count: u64) -> Vec<u8> {
    let mut b = Vec::new();
    b.extend_from_slice(b"GGUF");
    b.extend_from_slice(&version.to_le_bytes());
    b.extend_from_slice(&0u64.to_le_bytes());
    b.extend_from_slice(&kv_count.to_le_bytes());
    b
}

fn push_str_kv(b: &mut Vec<u8>, k: &str, v: &str) {
    b.extend_from_slice(&(k.len() as u64).to_le_bytes());
    b.extend_from_slice(k.as_bytes());
    b.extend_from_slice(&8u32.to_le_bytes());
    b.extend_from_slice(&(v.len() as u64).to_le_bytes());
    b.extend_from_slice(v.as_bytes());
}

fn write_gguf_v3(kvs: &[(&str, &str)]) -> Vec<u8> {
    let mut b = header(3, kvs.len() as u64);
    for (k, v) in kvs {
        push_str_kv(&mut b, k, v);
    }
    b
}

#[test]
fn gguf_thinking_detected() {
    let b = write_gguf_v3(&[
        ("general.architecture", "qwen3"),
        (
            "tokenizer.chat_template",
            "{% set enable_thinking = true %}{{ '<|im_start|>user' }}",
        ),
    ]);
    assert_eq!(scan_gguf(&b), GgufScan::Answer(true));
}

#[test]
fn gguf_array_values_are_skipped() {
    let mut b = header(3, 3);
    let k = b"general.sampling.top_k";
    b.extend_from_slice(&(k.len() as u64).to_le_bytes());
    b.extend_from_slice(k);
    b.extend_from_slice(&4u32.to_le_bytes());
    b.extend_from_slice(&40u32.to_le_bytes());
    let k = b"tokenizer.ggml.tokens";
    b.extend_from_slice(&(k.len() as u64).to_le_bytes());
    b.extend_from_slice(k);
    b.extend_from_slice(&9u32.to_le_bytes());
    b.extend_from_slice(&8u32.to_le_bytes());
    b.extend_from_slice(&2u64.to_le_bytes());
    for tok in [&b"<s>"[..], &b"hello"[..]] {
        b.extend_from_slice(&(tok.len() as u64).to_le_bytes());
        b.extend_from_slice(tok);
    }
    push_str_kv(&mut b, "tokenizer.chat_template", "{% if enable_thinking %}{% endif %}");
    assert_eq!(scan_gguf(&b), GgufScan::Answer(true));
}

#[test]
fn gguf_non_thinking_detected() {
    let b = write_gguf_v3(&[
        ("general.architecture", "llama"),
        (
            "tokenizer.chat_template",
            "{{ bos_token }}{% for m in messages %}{{ m.content }}",
        ),
    ]);
    assert_eq!(scan_gguf(&b), GgufScan::Answer(false));
}

#[test]
fn gguf_missing_template_is_not_thinking() {
    let b = write_gguf_v3(&[("general.architecture", "qwen3")]);
    assert_eq!(scan_gguf(&b), GgufScan::Answer(false));
}

#[test]
fn gguf_wrong_magic_is_none() {
    assert_eq!(scan_gguf(b"NOTGGUF\x00\x00\x00\x00\x00\x00\x00\x00"), GgufScan::Invalid);
}

#[test]
fn gguf_prefix_asks_for_more() {
    let b = write_gguf_v3(&[("tokenizer.chat_template", "enable_thinking")]);
    for cut in [0, 7, 20, 30, b.len() - 1] {
        assert_eq!(scan_gguf(&b[..cut]), GgufScan::Truncated, "{cut}");
    }
    assert_eq!(scan_gguf(&b), GgufScan::Answer(true));
}

#[test]
fn gguf_rejects_new_versions_and_unknown_types() {
    assert_eq!(scan_gguf(&header(4, 0)), GgufScan::Invalid);
    let mut b = header(3, 1);
    b.extend_from_slice(&1u64.to_le_bytes());
    b.extend_from_slice(b"k");
    b.extend_from_slice(&13u32.to_le_bytes());
    assert_eq!(scan_gguf(&b), GgufScan::Invalid);
}

#[test]
fn gguf_version_two_keys_end_with_nul() {
    let mut b = header(2, 1);
    let k = b"tokenizer.chat_template";
    b.extend_from_slice(&(k.len() as u64).to_le_bytes());
    b.extend_from_slice(k);
    b.push(0);
    b.extend_from_slice(&8u32.to_le_bytes());
    b.extend_from_slice(&15u64.to_le_bytes());
    b.extend_from_slice(b"enable_thinking");
    assert_eq!(scan_gguf(&b), GgufScan::Answer(true));
}
