use llama_admin_monitor::gpu::amd_names::{
    is_generic_amd_name, known_amd_name, parse_hex_id, parse_lspci_name, resolve_amd_name,
    tagged_generic,
};

#[test]
fn hex_ids_in_every_spelling() {
    assert_eq!(parse_hex_id("0x7551"), Some(0x7551));
    assert_eq!(parse_hex_id("7551"), Some(0x7551));
    assert_eq!(parse_hex_id("30033(0x7551)"), Some(0x7551));
    assert_eq!(parse_hex_id("0xc0\n"), Some(0xc0));
    assert_eq!(parse_hex_id("zz"), None);
}

#[test]
fn generic_names_resolve_from_device_id() {
    assert_eq!(
        resolve_amd_name(
            "AMD Radeon Graphics",
            "gfx1201",
            Some(0x7551),
            Some(0xc0),
            None
        ),
        "AMD Radeon AI PRO R9700"
    );
    assert_eq!(
        resolve_amd_name("AMD Radeon Graphics", "", Some(0x7550), Some(0xc3), None),
        "AMD Radeon RX 9070"
    );
    assert_eq!(
        resolve_amd_name("AMD Radeon Graphics", "", Some(0x7550), None, None),
        "AMD Radeon RX 9070 / 9070 XT"
    );
}

#[test]
fn real_names_are_kept() {
    assert_eq!(
        resolve_amd_name("AMD Radeon RX 9070 XT", "gfx1201", Some(0x7551), None, None),
        "AMD Radeon RX 9070 XT"
    );
}

#[test]
fn amd_names_unknown_generic_card_gets_gfx_and_device_id() {
    assert_eq!(
        resolve_amd_name("AMD Radeon Graphics", "gfx1250", Some(0x7fff), None, None),
        "AMD Radeon Graphics (gfx1250, 0x7fff)"
    );
    assert_eq!(
        resolve_amd_name("", "gfx1250", None, None, None),
        "AMD Radeon Graphics (gfx1250)"
    );
}

#[test]
fn amd_names_lspci_line_yields_bracketed_name() {
    let line = "03:00.0 VGA compatible controller: Advanced Micro Devices, Inc. [AMD/ATI] Navi 48 [Radeon RX 9070/9070 XT] (rev c0)";
    assert_eq!(
        parse_lspci_name(line).as_deref(),
        Some("AMD Radeon RX 9070/9070 XT")
    );
    let unknown = "03:00.0 VGA compatible controller: Advanced Micro Devices, Inc. [AMD/ATI] Device 7551 (rev c0)";
    assert_eq!(parse_lspci_name(unknown), None);
}

#[test]
fn generic_name_spellings() {
    assert!(is_generic_amd_name("  "));
    assert!(is_generic_amd_name("radeon graphics"));
    assert!(is_generic_amd_name("Navi 48"));
    assert!(is_generic_amd_name("0x7551"));
    assert!(!is_generic_amd_name("AMD Radeon RX 7900 XTX"));
}

#[test]
fn revision_specific_entries_win_over_any_revision() {
    assert_eq!(known_amd_name(0x7550, Some(0xc0)), Some("AMD Radeon RX 9070 XT"));
    assert_eq!(known_amd_name(0x7550, Some(0xff)), Some("AMD Radeon RX 9070 / 9070 XT"));
    assert_eq!(known_amd_name(0x7590, None), None);
    assert_eq!(known_amd_name(0x1234, None), None);
}

#[test]
fn lspci_name_is_used_when_the_table_has_no_entry() {
    assert_eq!(
        resolve_amd_name("AMD Radeon Graphics", "gfx1250", Some(0x7fff), None, Some("AMD Radeon Foo")),
        "AMD Radeon Foo"
    );
}

#[test]
fn tags_pad_device_ids_to_four_digits() {
    assert_eq!(tagged_generic("X", "", Some(0xc0)), "X (0x00c0)");
    assert_eq!(tagged_generic("X", "", Some(0x12345)), "X (0x12345)");
    assert_eq!(tagged_generic("X", "", None), "X");
    assert_eq!(parse_hex_id("0X1F"), Some(0x1f));
    assert_eq!(parse_hex_id(")7("), None);
}

#[test]
fn lspci_name_without_vendor_prefix_gets_amd() {
    assert_eq!(
        parse_lspci_name("x: y [Radeon Pro W7900]").as_deref(),
        Some("AMD Radeon Pro W7900")
    );
    assert_eq!(
        parse_lspci_name("x: y [AMD Instinct MI300X] (rev 00)").as_deref(),
        Some("AMD Instinct MI300X")
    );
    assert_eq!(parse_lspci_name("no colon here [x]"), None);
}
