//! The parts of a `rocm-smi --json` card entry that are plain text: the
//! card's display name and its integer readings.
use vstd::prelude::*;
use crate::gpu::amd_names::{
    generic_amd_name, is_generic_amd_name, known_amd, known_amd_name, tagged, tagged_generic,
};
use crate::text::{
    chars_of, copy_vec, lit, parse_hex_u32, parse_hex_u32_exec, parse_uint, parse_uint_exec,
    replace_all, replace_all_exec, slice_of, starts_with, starts_with_exec, string_of, trim,
    trim_vec,
};

verus! {

/// The text fields of one `rocm-smi` card entry that name the card.
#[derive(Debug, Clone, Default)]
pub struct RocmCard {
    /// "Card Series".
    pub series: Option<String>,
    /// "Card Model", the PCI device id.
    pub model: Option<String>,
    /// "Device Rev".
    pub device_rev: Option<String>,
    /// "GFX Version".
    pub gfx: Option<String>,
}

pub open spec fn opt_str(o: Option<String>) -> Option<Seq<char>> {
    match o {
        Some(s) => Some(s@),
        None => None,
    }
}

/// A hex id as rocm-smi writes it ("0x7551"): trimmed, without `0x`.
pub open spec fn rocm_hex(v: Option<Seq<char>>) -> Option<nat> {
    match v {
        None => None,
        Some(s) => {
            let t = trim(s);
            parse_hex_u32(
                if starts_with(t, "0x"@) || starts_with(t, "0X"@) {
                    t.skip(2)
                } else {
                    t
                },
            )
        },
    }
}

pub fn parse_hex(v: Option<&str>) -> (r: Option<u32>)
    ensures
        match r {
            Some(n) => rocm_hex(
                match v {
                    Some(s) => Some(s@),
                    None => None,
                },
            ) == Some(n as nat),
            None => rocm_hex(
                match v {
                    Some(s) => Some(s@),
                    None => None,
                },
            ) is None,
        },
{
    let s = match v {
        Some(s) => s,
        None => {
            return None;
        },
    };
    let t = trim_vec(&chars_of(s));
    proof {
        reveal_strlit("0x");
        reveal_strlit("0X");
    }
    let d = if starts_with_exec(&t, &lit("0x")) || starts_with_exec(&t, &lit("0X")) {
        slice_of(&t, 2, t.len())
    } else {
        copy_vec(&t)
    };
    assert(d@ =~= (if starts_with(t@, "0x"@) || starts_with(t@, "0X"@) {
        t@.skip(2)
    } else {
        t@
    }));
    parse_hex_u32_exec(&d)
}

pub open spec fn as_u32(o: Option<nat>) -> Option<u32> {
    match o {
        Some(n) => Some(n as u32),
        None => None,
    }
}

/// The best name available for one rocm-smi card entry: its "Card
/// Series" when that is a real product name, otherwise the device id
/// (its "Card Model", else what sysfs says for its PCI bus) looked up in
/// the built-in table, then the name `lspci` gave for its bus, and
/// finally the series tagged with the gfx target and device id. Nothing
/// when rocm-smi gave no name at all.
pub open spec fn display_name(
    card: RocmCard,
    sysfs_device: Option<u32>,
    sysfs_rev: Option<u32>,
    lspci: Option<Seq<char>>,
) -> Option<Seq<char>> {
    let series = trim(
        match card.series {
            Some(s) => s@,
            None => seq![],
        },
    );
    let device = match as_u32(rocm_hex(opt_str(card.model))) {
        Some(d) => Some(d),
        None => sysfs_device,
    };
    let rev = match as_u32(rocm_hex(opt_str(card.device_rev))) {
        Some(r) => Some(r),
        None => sysfs_rev,
    };
    if !generic_amd_name(series) {
        Some(series)
    } else {
        match (match device {
            Some(d) => known_amd(d, rev),
            None => None,
        }) {
            Some(n) => Some(n),
            None => match lspci {
                Some(n) => Some(n),
                None => if series.len() == 0 {
                    None
                } else {
                    Some(
                        tagged(
                            series,
                            match card.gfx {
                                Some(g) => g@,
                                None => seq![],
                            },
                            device,
                        ),
                    )
                },
            },
        }
    }
}

/// The display name of a card: `sysfs_device` / `sysfs_rev` are the ids
/// sysfs gives for the card's PCI bus and `lspci` the name `lspci -s`
/// gives for it (all none when rocm-smi reported no bus).
pub fn amd_display_name(
    card: &RocmCard,
    sysfs_device: Option<u32>,
    sysfs_rev: Option<u32>,
    lspci: Option<&str>,
) -> (r: Option<String>)
    ensures
        opt_str(r) == display_name(
            *card,
            sysfs_device,
            sysfs_rev,
            match lspci {
                Some(l) => Some(l@),
                None => None,
            },
        ),
{
    let series = match &card.series {
        Some(s) => trim_vec(&chars_of(s.as_str())),
        None => Vec::new(),
    };
    assert(series@ =~= trim(
        match card.series {
            Some(s) => s@,
            None => seq![],
        },
    ));
    let ss = string_of(&series);
    if !is_generic_amd_name(ss.as_str()) {
        return Some(ss);
    }
    let device = match parse_hex(
        match &card.model {
            Some(m) => Some(m.as_str()),
            None => None,
        },
    ) {
        Some(d) => Some(d),
        None => sysfs_device,
    };
    let rev = match parse_hex(
        match &card.device_rev {
            Some(m) => Some(m.as_str()),
            None => None,
        },
    ) {
        Some(r) => Some(r),
        None => sysfs_rev,
    };
    let known = match device {
        Some(d) => known_amd_name(d, rev),
        None => None,
    };
    if let Some(n) = known {
        return Some(string_of(&chars_of(n)));
    }
    if let Some(n) = lspci {
        return Some(string_of(&chars_of(n)));
    }
    if series.len() == 0 {
        return None;
    }
    proof {
        reveal_strlit("");
    }
    let gfx = match &card.gfx {
        Some(g) => g.as_str(),
        None => "",
    };
    let t = tagged_generic(ss.as_str(), gfx, device);
    Some(t)
}

/// A `u32` reading ("GPU use (%)"); 0 when missing or unparsable.
pub open spec fn reading_u32(v: Option<Seq<char>>) -> nat {
    match v {
        Some(s) => match parse_uint(s, u32::MAX as nat) {
            Some(n) => n,
            None => 0,
        },
        None => 0,
    }
}

pub fn parse_reading_u32(v: Option<&str>) -> (n: u32)
    ensures
        n == reading_u32(
            match v {
                Some(s) => Some(s@),
                None => None,
            },
        ),
{
    match v {
        Some(s) => match parse_uint_exec(&chars_of(s), u32::MAX as u64) {
            Some(n) => n as u32,
            None => 0,
        },
        None => 0,
    }
}

/// A memory reading in bytes, as MiB (rounded down); 0 when missing or
/// unparsable.
pub open spec fn reading_mib(v: Option<Seq<char>>) -> nat {
    match v {
        Some(s) => match parse_uint(s, u64::MAX as nat) {
            Some(n) => n / 1024 / 1024,
            None => 0,
        },
        None => 0,
    }
}

pub fn parse_reading_mib(v: Option<&str>) -> (n: u64)
    ensures
        n == reading_mib(
            match v {
                Some(s) => Some(s@),
                None => None,
            },
        ),
{
    match v {
        Some(s) => match parse_uint_exec(&chars_of(s), u64::MAX) {
            Some(n) => n / 1024 / 1024,
            None => 0,
        },
        None => 0,
    }
}

/// A clock reading such as "(1725Mhz)" in MHz: the parentheses and "Mhz"
/// removed, then trimmed; 0 when missing or unparsable.
pub open spec fn reading_clock(v: Option<Seq<char>>) -> nat {
    match v {
        Some(s) => match parse_uint(
            trim(replace_all(replace_all(replace_all(s, "("@, seq![]), ")"@, seq![]), "Mhz"@, seq![])),
            u32::MAX as nat,
        ) {
            Some(n) => n,
            None => 0,
        },
        None => 0,
    }
}

pub fn parse_clock(v: Option<&str>) -> (n: u32)
    ensures
        n == reading_clock(
            match v {
                Some(s) => Some(s@),
                None => None,
            },
        ),
{
    let s = match v {
        Some(s) => s,
        None => {
            return 0;
        },
    };
    proof {
        reveal_strlit("(");
        reveal_strlit(")");
        reveal_strlit("Mhz");
    }
    let empty: Vec<char> = Vec::new();
    assert(empty@ =~= Seq::<char>::empty());
    let a = replace_all_exec(&chars_of(s), &lit("("), &empty);
    let b = replace_all_exec(&a, &lit(")"), &empty);
    let c = replace_all_exec(&b, &lit("Mhz"), &empty);
    match parse_uint_exec(&trim_vec(&c), u32::MAX as u64) {
        Some(n) => n as u32,
        None => 0,
    }
}


/// The lower-case hex digits of `n` are hex digits (none of them
/// whitespace or `+`) and read back as `n`.
pub proof fn lemma_hex_lower_reads_back(n: nat)
    ensures
        crate::text::hex_lower(n).len() >= 1,
        forall|i: int|
            0 <= i < crate::text::hex_lower(n).len() ==> {
                let c = #[trigger] crate::text::hex_lower(n)[i];
                &&& crate::text::is_hex_digit(c)
                &&& c != '+'
                &&& !crate::text::is_ws(c)
            },
        crate::text::hex_digits_val(crate::text::hex_lower(n)) == n,
    decreases n,
{
    let h = crate::text::hex_lower(n);
    let d = n % 16;
    let c = crate::text::hex_char_lower(d);
    if d < 10 {
        assert(c as u32 == 48 + d);
    } else {
        assert(c as u32 == 97 + d - 10);
    }
    assert(crate::text::is_hex_digit(c) && c != '+' && !crate::text::is_ws(c));
    assert(crate::text::hex_val(c) == d);
    if n < 16 {
        assert(h == seq![c]);
        assert(h.drop_last() =~= Seq::<char>::empty());
        assert(crate::text::hex_digits_val(h.drop_last()) == 0);
    } else {
        lemma_hex_lower_reads_back(n / 16);
        let p = crate::text::hex_lower(n / 16);
        assert(h == p.push(c));
        assert(h.drop_last() =~= p);
        assert forall|i: int| 0 <= i < h.len() implies {
            let x = #[trigger] h[i];
            &&& crate::text::is_hex_digit(x)
            &&& x != '+'
            &&& !crate::text::is_ws(x)
        } by {
            if i < p.len() {
                assert(h[i] == p[i]);
            }
        }
        assert(n == (n / 16) * 16 + d);
    }
}

/// An id written as `0x` and lower-case hex digits reads back as itself.
pub proof fn law_hex_id_roundtrip(n: u32)
    ensures
        rocm_hex(Some("0x"@ + crate::text::hex_lower(n as nat))) == Some(n as nat),
{
    reveal_strlit("0x");
    let h = crate::text::hex_lower(n as nat);
    lemma_hex_lower_reads_back(n as nat);
    let s = "0x"@ + h;
    assert(s[0] == '0');
    assert(!crate::text::is_ws(s[0]));
    assert(crate::text::lead_ws(s) == 0);
    assert(s.last() == h.last());
    assert(!crate::text::is_ws(h[h.len() - 1]));
    assert(crate::text::trail_ws(s) == 0);
    assert(crate::text::trim_start(s) =~= s);
    assert(trim(s) =~= s);
    assert(s.take(2) =~= "0x"@);
    assert(s.skip(2) =~= h);
    assert(h[0] != '+');
    assert(crate::text::unsigned_body(h) == h);
}


proof fn lemma_zeros_val(z: Seq<char>)
    requires
        forall|i: int| 0 <= i < z.len() ==> z[i] == '0',
    ensures
        crate::text::hex_digits_val(z) == 0,
    decreases z.len(),
{
    if z.len() > 0 {
        assert(z.last() == z[z.len() - 1]);
        lemma_zeros_val(z.drop_last());
    }
}

proof fn lemma_leading_zeros_val(z: Seq<char>, s: Seq<char>)
    requires
        forall|i: int| 0 <= i < z.len() ==> z[i] == '0',
    ensures
        crate::text::hex_digits_val(z + s) == crate::text::hex_digits_val(s),
    decreases s.len(),
{
    if s.len() == 0 {
        assert(z + s =~= z);
        lemma_zeros_val(z);
    } else {
        assert((z + s).drop_last() =~= z + s.drop_last());
        assert((z + s).last() == s.last());
        lemma_leading_zeros_val(z, s.drop_last());
    }
}

/// A card id as the monitor writes it in a card's name (`0x` and at least
/// four lower-case hex digits) reads back as the same id.
pub proof fn law_hex4_roundtrip(d: u32)
    ensures
        rocm_hex(Some(crate::gpu::amd_names::hex4(d))) == Some(d as nat),
{
    reveal_strlit("0x");
    let h = crate::text::hex_lower(d as nat);
    lemma_hex_lower_reads_back(d as nat);
    let p = crate::text::zero_pad(h, 4);
    let z = if h.len() >= 4 {
        Seq::<char>::empty()
    } else {
        Seq::new((4 - h.len()) as nat, |i: int| '0')
    };
    assert(p =~= z + h);
    lemma_leading_zeros_val(z, h);
    assert forall|i: int| 0 <= i < p.len() implies {
        let c = #[trigger] p[i];
        &&& crate::text::is_hex_digit(c)
        &&& c != '+'
        &&& !crate::text::is_ws(c)
    } by {
        if i < z.len() {
            assert(p[i] == '0');
        } else {
            assert(p[i] == h[i - z.len()]);
        }
    }
    let s = "0x"@ + p;
    assert(s == crate::gpu::amd_names::hex4(d));
    assert(s[0] == '0');
    assert(crate::text::lead_ws(s) == 0);
    assert(s.last() == p[p.len() - 1]);
    assert(crate::text::trail_ws(s) == 0);
    assert(crate::text::trim_start(s) =~= s);
    assert(trim(s) =~= s);
    assert(s.take(2) =~= "0x"@);
    assert(s.skip(2) =~= p);
    assert(crate::text::unsigned_body(p) == p);
}

} // verus!
