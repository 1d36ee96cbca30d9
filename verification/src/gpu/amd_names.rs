//! Product names for AMD cards that the ROCm tools only know generically.
//!
//! `rocm-smi` and `rocminfo` take their marketing names from libdrm's
//! `amdgpu.ids`, which lags new hardware: an unknown card shows up as a bare
//! "AMD Radeon Graphics". These helpers resolve such names from the PCI
//! device id (built-in table, then the name `lspci` found in the system's
//! `pci.ids`) or at least tag the generic name so two unknown cards can be
//! told apart.
use vstd::prelude::*;
use crate::text::{
    chars_of, copy_vec, eq_ignore_case, extend, find, find_exec, hex_lower, lit, lower_vec,
    parse_hex_u32, parse_hex_u32_exec, push_hex_lower, rfind, rfind_exec, slice_of, split_once,
    split_once_exec, starts_with, starts_with_exec, string_of, trim, trim_vec, vec_eq, zero_pad,
};

verus! {

/// True for the placeholder names the ROCm tools fall back to when the
/// card is missing from their id database.
pub open spec fn generic_amd_name(name: Seq<char>) -> bool {
    let n = trim(name);
    n.len() == 0 || eq_ignore_case(n, "AMD Radeon Graphics"@) || eq_ignore_case(
        n,
        "Radeon Graphics"@,
    ) || starts_with(n, "Navi "@) || starts_with(n, "0x"@)
}

/// The part of an id string that holds the hex digits: what lies between
/// the first `(` and the last `)` when they come in that order, without a
/// `0x` / `0X` prefix.
pub open spec fn hex_id_digits(s: Seq<char>) -> Seq<char> {
    let t = trim(s);
    let inner = match (find(t, "("@), rfind(t, ")"@)) {
        (Some(a), Some(b)) => if a < b {
            t.subrange(a + 1, b)
        } else {
            t
        },
        _ => t,
    };
    if starts_with(inner, "0x"@) || starts_with(inner, "0X"@) {
        inner.skip(2)
    } else {
        inner
    }
}

/// "0x7551", "7551" and rocminfo's "30033(0x7551)" as 0x7551.
pub open spec fn hex_id(s: Seq<char>) -> Option<nat> {
    parse_hex_u32(hex_id_digits(s))
}

/// The built-in table, keyed by PCI device id and revision; an entry
/// without a revision matches any revision.
pub open spec fn known_amd(device: u32, rev: Option<u32>) -> Option<Seq<char>> {
    if device == 0x7550 && rev == Some(0xc0u32) {
        Some("AMD Radeon RX 9070 XT"@)
    } else if device == 0x7550 && rev == Some(0xc3u32) {
        Some("AMD Radeon RX 9070"@)
    } else if device == 0x7590 && rev == Some(0xc0u32) {
        Some("AMD Radeon RX 9060 XT"@)
    } else if device == 0x7550 {
        Some("AMD Radeon RX 9070 / 9070 XT"@)
    } else if device == 0x7551 {
        Some("AMD Radeon AI PRO R9700"@)
    } else {
        None
    }
}

/// The text before the first " (rev ".
pub open spec fn before_rev(s: Seq<char>) -> Seq<char> {
    match find(s, " (rev "@) {
        Some(i) => s.take(i),
        None => s,
    }
}

/// The marketing name in an `lspci` line: the last bracketed group after
/// the class, before the revision; "AMD " is put in front when missing.
pub open spec fn lspci_name_of(line: Seq<char>) -> Option<Seq<char>> {
    match split_once(line, ": "@) {
        None => None,
        Some(kv) => {
            let rest = before_rev(kv.1);
            match rfind(rest, "["@) {
                None => None,
                Some(start) => match find(rest.skip(start), "]"@) {
                    None => None,
                    Some(e) => {
                        let name = trim(rest.subrange(start + 1, start + e));
                        if name.len() == 0 || eq_ignore_case(name, "AMD/ATI"@) || starts_with(
                            name,
                            "Device "@,
                        ) {
                            None
                        } else if starts_with(name, "AMD "@) {
                            Some(name)
                        } else {
                            Some("AMD "@ + name)
                        }
                    },
                },
            }
        },
    }
}

/// `0x` and at least four lower-case hex digits.
pub open spec fn hex4(d: u32) -> Seq<char> {
    "0x"@ + zero_pad(hex_lower(d as nat), 4)
}

/// The generic name tagged with whatever identifies the card, e.g.
/// "AMD Radeon Graphics (gfx1201, 0x7551)".
pub open spec fn tagged(base: Seq<char>, gfx: Seq<char>, device: Option<u32>) -> Seq<char> {
    match device {
        Some(d) => if gfx.len() > 0 {
            base + " ("@ + gfx + ", "@ + hex4(d) + ")"@
        } else {
            base + " ("@ + hex4(d) + ")"@
        },
        None => if gfx.len() > 0 {
            base + " ("@ + gfx + ")"@
        } else {
            base
        },
    }
}

/// What a ROCm tool's marketing name resolves to: a real name as it is; a
/// generic one by the built-in table, then by `lspci`'s name, and failing
/// both the generic name tagged with the gfx target and id.
pub open spec fn resolved_name(
    marketing: Seq<char>,
    gfx: Seq<char>,
    device: Option<u32>,
    rev: Option<u32>,
    lspci: Option<Seq<char>>,
) -> Seq<char> {
    let m = trim(marketing);
    if !generic_amd_name(m) {
        m
    } else {
        match (match device {
            Some(d) => known_amd(d, rev),
            None => None,
        }) {
            Some(n) => n,
            None => match lspci {
                Some(n) => n,
                None => tagged(
                    if m.len() == 0 {
                        "AMD Radeon Graphics"@
                    } else {
                        m
                    },
                    gfx,
                    device,
                ),
            },
        }
    }
}

fn eq_ignore_case_exec(a: &Vec<char>, b: &Vec<char>) -> (r: bool)
    ensures
        r == eq_ignore_case(a@, b@),
{
    vec_eq(&lower_vec(a), &lower_vec(b))
}

pub fn is_generic_amd_name(name: &str) -> (b: bool)
    ensures
        b == generic_amd_name(name@),
{
    let n = trim_vec(&chars_of(name));
    n.len() == 0 || eq_ignore_case_exec(&n, &lit("AMD Radeon Graphics")) || eq_ignore_case_exec(
        &n,
        &lit("Radeon Graphics"),
    ) || starts_with_exec(&n, &lit("Navi ")) || starts_with_exec(&n, &lit("0x"))
}

/// Parses "0x7551", "7551" or rocminfo's "30033(0x7551)".
pub fn parse_hex_id(s: &str) -> (r: Option<u32>)
    ensures
        r matches Some(n) ==> hex_id(s@) == Some(n as nat),
        r is None ==> hex_id(s@) is None,
{
    let t = trim_vec(&chars_of(s));
    let inner = match (find_exec(&t, &lit("(")), rfind_exec(&t, &lit(")"))) {
        (Some(a), Some(b)) => {
            if a < b {
                slice_of(&t, a + 1, b)
            } else {
                copy_vec(&t)
            }
        },
        _ => copy_vec(&t),
    };
    proof {
        reveal_strlit("0x");
        reveal_strlit("0X");
    }
    let digits = if starts_with_exec(&inner, &lit("0x")) || starts_with_exec(&inner, &lit("0X")) {
        slice_of(&inner, 2, inner.len())
    } else {
        copy_vec(&inner)
    };
    assert(digits@ =~= hex_id_digits(s@));
    parse_hex_u32_exec(&digits)
}

pub fn known_amd_name(device: u32, rev: Option<u32>) -> (r: Option<&'static str>)
    ensures
        r matches Some(n) ==> known_amd(device, rev) == Some(n@),
        r is None ==> known_amd(device, rev) is None,
{
    if device == 0x7550 && rev == Some(0xc0u32) {
        Some("AMD Radeon RX 9070 XT")
    } else if device == 0x7550 && rev == Some(0xc3u32) {
        Some("AMD Radeon RX 9070")
    } else if device == 0x7590 && rev == Some(0xc0u32) {
        Some("AMD Radeon RX 9060 XT")
    } else if device == 0x7550 {
        Some("AMD Radeon RX 9070 / 9070 XT")
    } else if device == 0x7551 {
        Some("AMD Radeon AI PRO R9700")
    } else {
        None
    }
}

/// The marketing name in a line of `lspci -s <bus>` output, e.g.
/// `03:00.0 VGA compatible controller: Advanced Micro Devices, Inc. [AMD/ATI] Navi 48 [Radeon RX 9070/9070 XT] (rev c0)`:
/// the last bracketed group, when the system's pci.ids knows the card.
pub fn parse_lspci_name(line: &str) -> (r: Option<String>)
    ensures
        r matches Some(n) ==> lspci_name_of(line@) == Some(n@),
        r is None ==> lspci_name_of(line@) is None,
{
    let v = chars_of(line);
    let after = match split_once_exec(&v, &lit(": ")) {
        Some(kv) => kv.1,
        None => {
            return None;
        },
    };
    let rest = match find_exec(&after, &lit(" (rev ")) {
        Some(i) => slice_of(&after, 0, i),
        None => copy_vec(&after),
    };
    assert(rest@ =~= before_rev(after@));
    let start = match rfind_exec(&rest, &lit("[")) {
        Some(a) => a,
        None => {
            return None;
        },
    };
    let tail = slice_of(&rest, start, rest.len());
    assert(tail@ =~= rest@.skip(start as int));
    let e = match find_exec(&tail, &lit("]")) {
        Some(e) => e,
        None => {
            return None;
        },
    };
    proof {
        reveal_strlit("[");
        reveal_strlit("]");
        assert(tail@.subrange(e as int, e + 1)[0] == tail@[e as int]);
        assert(rest@.subrange(start as int, start + 1)[0] == rest@[start as int]);
        assert(tail@[0] == rest@[start as int]);
        assert(e > 0);
    }
    let name = trim_vec(&slice_of(&rest, start + 1, start + e));
    if name.len() == 0 || eq_ignore_case_exec(&name, &lit("AMD/ATI")) || starts_with_exec(
        &name,
        &lit("Device "),
    ) {
        return None;
    }
    if starts_with_exec(&name, &lit("AMD ")) {
        Some(string_of(&name))
    } else {
        let mut out = lit("AMD ");
        extend(&mut out, &name);
        Some(string_of(&out))
    }
}

/// Appends `0x` and the id in at least four lower-case hex digits.
fn push_hex4(out: &mut Vec<char>, d: u32)
    ensures
        final(out)@ == old(out)@ + hex4(d),
{
    let mut h: Vec<char> = Vec::new();
    push_hex_lower(&mut h, d as u64);
    assert(h@ =~= hex_lower(d as nat));
    extend(out, &lit("0x"));
    let mut k = h.len();
    let ghost mid = out@;
    while k < 4
        invariant
            h.len() <= k <= 4 || (k == h.len() && k >= 4),
            out@ == mid + Seq::new((k - h.len()) as nat, |i: int| '0'),
        decreases 4 - k,
    {
        let ghost before = out@;
        out.push('0');
        assert(out@ =~= mid + Seq::new((k + 1 - h.len()) as nat, |i: int| '0'));
        k += 1;
    }
    extend(out, &h);
    proof {
        if h.len() >= 4 {
            assert(out@ =~= old(out)@ + hex4(d));
        } else {
            assert(out@ =~= old(out)@ + hex4(d));
        }
    }
}

/// The generic name tagged with whatever identifies the card, e.g.
/// "AMD Radeon Graphics (gfx1201, 0x7551)".
pub fn tagged_generic(base: &str, gfx: &str, device: Option<u32>) -> (s: String)
    ensures
        s@ == tagged(base@, gfx@, device),
{
    let mut out = chars_of(base);
    let g = chars_of(gfx);
    match device {
        Some(d) => {
            extend(&mut out, &lit(" ("));
            if g.len() > 0 {
                extend(&mut out, &g);
                extend(&mut out, &lit(", "));
            }
            push_hex4(&mut out, d);
            extend(&mut out, &lit(")"));
        },
        None => {
            if g.len() > 0 {
                extend(&mut out, &lit(" ("));
                extend(&mut out, &g);
                extend(&mut out, &lit(")"));
            }
        },
    }
    assert(out@ =~= tagged(base@, gfx@, device));
    string_of(&out)
}

/// Resolves a marketing name reported by a ROCm tool. Real names pass
/// through; generic ones are looked up by device id, then taken from
/// `lspci` (the name `lspci -s <bus>` gave, when the bus is known), and
/// failing that tagged with the gfx target and id.
pub fn resolve_amd_name(
    marketing: &str,
    gfx: &str,
    device: Option<u32>,
    rev: Option<u32>,
    lspci: Option<&str>,
) -> (s: String)
    ensures
        s@ == resolved_name(
            marketing@,
            gfx@,
            device,
            rev,
            match lspci {
                Some(l) => Some(l@),
                None => None,
            },
        ),
{
    let m = trim_vec(&chars_of(marketing));
    let ms = string_of(&m);
    if !is_generic_amd_name(ms.as_str()) {
        return ms;
    }
    let known = match device {
        Some(d) => known_amd_name(d, rev),
        None => None,
    };
    if let Some(n) = known {
        return string_of(&chars_of(n));
    }
    if let Some(n) = lspci {
        return string_of(&chars_of(n));
    }
    if m.len() == 0 {
        tagged_generic("AMD Radeon Graphics", gfx, device)
    } else {
        tagged_generic(ms.as_str(), gfx, device)
    }
}

} // verus!
