//! Whether a GGUF model's chat template supports hybrid thinking: a walk
//! over the metadata header to `tokenizer.chat_template`.
use vstd::prelude::*;

verus! {

/// What the header says, or why it says nothing yet.
#[derive(Debug, Clone, Copy, PartialEq, Eq, Structural)]
pub enum GgufScan {
    /// The chat template was reached (true when it references
    /// `enable_thinking`), or the header has no template (false).
    Answer(bool),
    /// Not a GGUF header this reader understands: wrong magic, a newer
    /// version, an unknown value type, or a length beyond the limits.
    Invalid,
    /// The bytes end before the header does.
    Truncated,
}

/// Where a skipped value ends, or why it could not be skipped.
pub enum Skip {
    At(nat),
    Invalid,
    Truncated,
}

pub open spec fn le32(b: Seq<u8>, p: int) -> nat {
    (b[p] + 0x100 * b[p + 1] + 0x1_0000 * b[p + 2] + 0x100_0000 * b[p + 3]) as nat
}

pub open spec fn le64(b: Seq<u8>, p: int) -> nat {
    le32(b, p) + 0x1_0000_0000 * le32(b, p + 4)
}

/// Bytes of a fixed-size value of GGUF type `t`; 0 for strings, arrays
/// and unknown types.
pub open spec fn fixed_size(t: nat) -> nat {
    if t == 0 || t == 1 || t == 7 {
        1
    } else if t == 2 || t == 3 {
        2
    } else if t == 4 || t == 5 || t == 6 {
        4
    } else if t == 10 || t == 11 || t == 12 {
        8
    } else {
        0
    }
}

/// Skips one array element of type `t` at `pos`: fixed-size values and
/// strings (at most 4 MiB) only.
pub open spec fn skip_elem(b: Seq<u8>, pos: nat, t: nat) -> Skip {
    if fixed_size(t) > 0 {
        if pos + fixed_size(t) > b.len() {
            Skip::Truncated
        } else {
            Skip::At(pos + fixed_size(t))
        }
    } else if t == 8 {
        if pos + 8 > b.len() {
            Skip::Truncated
        } else if le64(b, pos as int) > 0x40_0000 {
            Skip::Invalid
        } else if pos + 8 + le64(b, pos as int) > b.len() {
            Skip::Truncated
        } else {
            Skip::At(pos + 8 + le64(b, pos as int))
        }
    } else {
        Skip::Invalid
    }
}

pub open spec fn skip_elems(b: Seq<u8>, pos: nat, t: nat, count: nat) -> Skip
    decreases count,
{
    if count == 0 {
        Skip::At(pos)
    } else {
        match skip_elem(b, pos, t) {
            Skip::At(p) => skip_elems(b, p, t, (count - 1) as nat),
            Skip::Invalid => Skip::Invalid,
            Skip::Truncated => Skip::Truncated,
        }
    }
}

pub open spec fn template_key() -> Seq<u8> {
    "tokenizer.chat_template"@.map_values(|c: char| c as u8)
}

pub open spec fn needle() -> Seq<u8> {
    "enable_thinking"@.map_values(|c: char| c as u8)
}

pub open spec fn bytes_contain(s: Seq<u8>, p: Seq<u8>) -> bool {
    exists|i: int| 0 <= i && i + p.len() <= s.len() && #[trigger] s.subrange(i, i + p.len()) == p
}

/// The value of one key/value pair at `vpos`, of type `vtype`, followed
/// by `remaining` more pairs.
pub open spec fn scan_value(
    b: Seq<u8>,
    vpos: nat,
    vtype: nat,
    is_template: bool,
    version: nat,
    remaining: nat,
) -> GgufScan
    decreases remaining, 1nat,
{
    if fixed_size(vtype) > 0 {
        if vpos + fixed_size(vtype) > b.len() {
            GgufScan::Truncated
        } else {
            scan_kvs(b, vpos + fixed_size(vtype), version, remaining)
        }
    } else if vtype == 8 {
        if vpos + 8 > b.len() {
            GgufScan::Truncated
        } else {
            let slen = le64(b, vpos as int);
            let spos = vpos + 8;
            if slen > 0x40_0000 {
                GgufScan::Invalid
            } else if spos + slen > b.len() {
                GgufScan::Truncated
            } else if is_template {
                GgufScan::Answer(bytes_contain(b.subrange(spos as int, (spos + slen) as int), needle()))
            } else {
                scan_kvs(b, spos + slen, version, remaining)
            }
        }
    } else if vtype == 9 {
        if vpos + 12 > b.len() {
            GgufScan::Truncated
        } else if le64(b, (vpos + 4) as int) > 0x400_0000 {
            GgufScan::Invalid
        } else {
            match skip_elems(b, vpos + 12, le32(b, vpos as int), le64(b, (vpos + 4) as int)) {
                Skip::At(p) => scan_kvs(b, p, version, remaining),
                Skip::Invalid => GgufScan::Invalid,
                Skip::Truncated => GgufScan::Truncated,
            }
        }
    } else {
        GgufScan::Invalid
    }
}

/// `remaining` key/value pairs from `pos`: a key (u64 length of at most
/// 1 MiB, the bytes, a NUL in version 2), a u32 value type, the value.
pub open spec fn scan_kvs(b: Seq<u8>, pos: nat, version: nat, remaining: nat) -> GgufScan
    decreases remaining, 0nat,
{
    if remaining == 0 {
        GgufScan::Answer(false)
    } else if pos + 8 > b.len() {
        GgufScan::Truncated
    } else {
        let klen = le64(b, pos as int);
        let kpos = pos + 8;
        let after_key = kpos + klen + if version == 2 {
            1nat
        } else {
            0nat
        };
        if klen > 0x10_0000 {
            GgufScan::Invalid
        } else if after_key + 4 > b.len() {
            GgufScan::Truncated
        } else {
            scan_value(
                b,
                after_key + 4,
                le32(b, after_key as int),
                b.subrange(kpos as int, (kpos + klen) as int) == template_key(),
                version,
                (remaining - 1) as nat,
            )
        }
    }
}

/// What a GGUF file's leading bytes say about thinking support: magic
/// "GGUF", a u32 version of at most 3, the tensor and key/value counts
/// (u64), then the key/value pairs until the chat template.
pub open spec fn gguf_scan(b: Seq<u8>) -> GgufScan {
    if b.len() < 8 {
        GgufScan::Truncated
    } else if b.subrange(0, 4) != "GGUF"@.map_values(|c: char| c as u8) {
        GgufScan::Invalid
    } else if le32(b, 4) > 3 {
        GgufScan::Invalid
    } else if b.len() < 24 {
        GgufScan::Truncated
    } else {
        scan_kvs(b, 24, le32(b, 4), le64(b, 16))
    }
}

fn rd32(b: &[u8], p: usize) -> (v: u64)
    requires
        p + 4 <= b@.len(),
    ensures
        v == le32(b@, p as int),
        v < 0x1_0000_0000,
{
    b[p] as u64 + 0x100 * (b[p + 1] as u64) + 0x1_0000 * (b[p + 2] as u64) + 0x100_0000 * (b[p
        + 3] as u64)
}

fn rd64(b: &[u8], p: usize) -> (v: u64)
    requires
        p + 8 <= b@.len(),
    ensures
        v == le64(b@, p as int),
{
    let n = b.len();
    let lo = rd32(b, p);
    let hi = rd32(b, p + 4);
    lo + 0x1_0000_0000 * hi
}

fn fixed_size_exec(t: u64) -> (n: usize)
    ensures
        n == fixed_size(t as nat),
{
    if t == 0 || t == 1 || t == 7 {
        1
    } else if t == 2 || t == 3 {
        2
    } else if t == 4 || t == 5 || t == 6 {
        4
    } else if t == 10 || t == 11 || t == 12 {
        8
    } else {
        0
    }
}

fn bytes_contain_exec(s: &[u8], lo: usize, hi: usize, p: &[u8]) -> (r: bool)
    requires
        lo <= hi <= s@.len(),
        p@.len() > 0,
    ensures
        r == bytes_contain(s@.subrange(lo as int, hi as int), p@),
{
    let ghost t = s@.subrange(lo as int, hi as int);
    if hi - lo < p.len() {
        proof {
            assert forall|i: int| 0 <= i && i + p@.len() <= t.len() implies #[trigger] t.subrange(i, i + p@.len()) != p@ by {}
        }
        return false;
    }
    let last = hi - p.len();
    let mut i = lo;
    while i <= last
        invariant
            lo <= i,
            last + p@.len() == hi,
            hi <= s@.len(),
            t == s@.subrange(lo as int, hi as int),
            forall|k: int| 0 <= k < i - lo ==> #[trigger] t.subrange(k, k + p@.len()) != p@,
        decreases last + 1 - i,
    {
        let mut j: usize = 0;
        while j < p.len() && s[i + j] == p[j]
            invariant
                j <= p@.len(),
                i + p@.len() <= hi <= s@.len(),
                forall|m: int| 0 <= m < j ==> s@[i + m] == p@[m],
            decreases p.len() - j,
        {
            j += 1;
        }
        if j == p.len() {
            assert(t.subrange(i - lo, i - lo + p@.len()) =~= p@);
            return true;
        }
        assert(t.subrange(i - lo, i - lo + p@.len())[j as int] != p@[j as int]);
        i += 1;
    }
    proof {
        assert forall|k: int| 0 <= k && k + p@.len() <= t.len() implies #[trigger] t.subrange(k, k + p@.len()) != p@ by {
            assert(k < i - lo);
        }
    }
    false
}

fn template_key_exec() -> (k: Vec<u8>)
    ensures
        k@ == template_key(),
{
    let k: Vec<u8> = vec![116u8, 111, 107, 101, 110, 105, 122, 101, 114, 46, 99, 104, 97, 116, 95, 116, 101, 109, 112, 108, 97, 116, 101];
    proof {
        reveal_strlit("tokenizer.chat_template");
        assert(k@ =~= template_key());
    }
    k
}

fn needle_exec() -> (k: Vec<u8>)
    ensures
        k@ == needle(),
        k@.len() == 15,
{
    let k: Vec<u8> = vec![101u8, 110, 97, 98, 108, 101, 95, 116, 104, 105, 110, 107, 105, 110, 103];
    proof {
        reveal_strlit("enable_thinking");
        assert(k@ =~= needle());
    }
    k
}

fn bytes_eq_at(s: &[u8], lo: usize, p: &Vec<u8>) -> (r: bool)
    requires
        lo + p@.len() <= s@.len(),
    ensures
        r == (s@.subrange(lo as int, lo + p@.len()) == p@),
{
    let n = s.len();
    let mut j: usize = 0;
    while j < p.len()
        invariant
            j <= p@.len(),
            n == s@.len(),
            lo + p@.len() <= s@.len(),
            forall|m: int| 0 <= m < j ==> s@[lo + m] == p@[m],
        decreases p.len() - j,
    {
        if s[lo + j] != p[j] {
            assert(s@.subrange(lo as int, lo + p@.len())[j as int] != p@[j as int]);
            return false;
        }
        j += 1;
    }
    assert(s@.subrange(lo as int, lo + p@.len()) =~= p@);
    true
}

/// Skips `count` array elements of type `t` from `pos`.
fn skip_elems_exec(b: &[u8], pos: usize, t: u64, count: u64) -> (r: Result<usize, bool>)
    requires
        pos <= b@.len(),
    ensures
        match r {
            Ok(p) => skip_elems(b@, pos as nat, t as nat, count as nat) == Skip::At(p as nat) && p
                <= b@.len(),
            Err(truncated) => if truncated {
                skip_elems(b@, pos as nat, t as nat, count as nat) is Truncated
            } else {
                skip_elems(b@, pos as nat, t as nat, count as nat) is Invalid
            },
        },
{
    let mut p = pos;
    let mut left = count;
    let fs = fixed_size_exec(t);
    while left > 0
        invariant
            p <= b@.len(),
            fs == fixed_size(t as nat),
            skip_elems(b@, pos as nat, t as nat, count as nat) == skip_elems(
                b@,
                p as nat,
                t as nat,
                left as nat,
            ),
        decreases left,
    {
        if fs > 0 {
            if b.len() - p < fs {
                return Err(true);
            }
            p = p + fs;
        } else if t == 8 {
            if b.len() - p < 8 {
                return Err(true);
            }
            let slen = rd64(b, p);
            if slen > 0x40_0000 {
                return Err(false);
            }
            if ((b.len() - p - 8) as u64) < slen {
                return Err(true);
            }
            p = p + 8 + slen as usize;
        } else {
            return Err(false);
        }
        left = left - 1;
    }
    Ok(p)
}

/// Walks a GGUF header in `b` (the file's first bytes, or all of it) to
/// the chat template. A `Truncated` answer on a prefix means: read more.
pub fn scan_gguf(b: &[u8]) -> (r: GgufScan)
    ensures
        r == gguf_scan(b@),
{
    if b.len() < 8 {
        return GgufScan::Truncated;
    }
    if !(b[0] == 71 && b[1] == 71 && b[2] == 85 && b[3] == 70) {
        proof {
            reveal_strlit("GGUF");
            if b@.subrange(0, 4) == "GGUF"@.map_values(|c: char| c as u8) {
                assert(b@.subrange(0, 4)[0] == b@[0]);
                assert(b@.subrange(0, 4)[1] == b@[1]);
                assert(b@.subrange(0, 4)[2] == b@[2]);
                assert(b@.subrange(0, 4)[3] == b@[3]);
            }
        }
        return GgufScan::Invalid;
    }
    proof {
        reveal_strlit("GGUF");
        assert(b@.subrange(0, 4) =~= "GGUF"@.map_values(|c: char| c as u8));
    }
    let version = rd32(b, 4);
    if version > 3 {
        return GgufScan::Invalid;
    }
    if b.len() < 24 {
        return GgufScan::Truncated;
    }
    let mut remaining = rd64(b, 16);
    let mut pos: usize = 24;
    let key = template_key_exec();
    let pat = needle_exec();
    while remaining > 0
        invariant
            pos <= b@.len(),
            version <= 3,
            key@ == template_key(),
            pat@ == needle(),
            pat@.len() == 15,
            gguf_scan(b@) == scan_kvs(b@, pos as nat, version as nat, remaining as nat),
        decreases remaining,
    {
        if b.len() - pos < 8 {
            return GgufScan::Truncated;
        }
        let klen = rd64(b, pos);
        if klen > 0x10_0000 {
            return GgufScan::Invalid;
        }
        let kpos = pos + 8;
        let nul: usize = if version == 2 {
            1
        } else {
            0
        };
        if ((b.len() - kpos) as u64) < klen + (nul as u64) + 4 {
            return GgufScan::Truncated;
        }
        let after_key = kpos + klen as usize + nul;
        let vtype = rd32(b, after_key);
        let vpos = after_key + 4;
        let is_template = klen as usize == key.len() && bytes_eq_at(b, kpos, &key);
        proof {
            if klen != key@.len() {
                assert(b@.subrange(kpos as int, kpos + klen).len() != template_key().len());
            }
        }
        remaining = remaining - 1;
        let fs = fixed_size_exec(vtype);
        if fs > 0 {
            if b.len() - vpos < fs {
                return GgufScan::Truncated;
            }
            pos = vpos + fs;
        } else if vtype == 8 {
            if b.len() - vpos < 8 {
                return GgufScan::Truncated;
            }
            let slen = rd64(b, vpos);
            if slen > 0x40_0000 {
                return GgufScan::Invalid;
            }
            let spos = vpos + 8;
            if ((b.len() - spos) as u64) < slen {
                return GgufScan::Truncated;
            }
            if is_template {
                return GgufScan::Answer(bytes_contain_exec(b, spos, spos + slen as usize, pat.as_slice()));
            }
            pos = spos + slen as usize;
        } else if vtype == 9 {
            if b.len() - vpos < 12 {
                return GgufScan::Truncated;
            }
            let etype = rd32(b, vpos);
            let count = rd64(b, vpos + 4);
            if count > 0x400_0000 {
                return GgufScan::Invalid;
            }
            match skip_elems_exec(b, vpos + 12, etype, count) {
                Ok(p) => {
                    pos = p;
                },
                Err(truncated) => {
                    return if truncated {
                        GgufScan::Truncated
                    } else {
                        GgufScan::Invalid
                    };
                },
            }
        } else {
            return GgufScan::Invalid;
        }
    }
    GgufScan::Answer(false)
}


proof fn lemma_le32_prefix(b: Seq<u8>, e: Seq<u8>, p: int)
    requires
        0 <= p,
        p + 4 <= b.len(),
    ensures
        le32(b + e, p) == le32(b, p),
{
    assert((b + e)[p] == b[p]);
    assert((b + e)[p + 1] == b[p + 1]);
    assert((b + e)[p + 2] == b[p + 2]);
    assert((b + e)[p + 3] == b[p + 3]);
}

proof fn lemma_le64_prefix(b: Seq<u8>, e: Seq<u8>, p: int)
    requires
        0 <= p,
        p + 8 <= b.len(),
    ensures
        le64(b + e, p) == le64(b, p),
{
    lemma_le32_prefix(b, e, p);
    lemma_le32_prefix(b, e, p + 4);
}

proof fn lemma_skip_elem_prefix(b: Seq<u8>, e: Seq<u8>, pos: nat, t: nat)
    requires
        !(skip_elem(b, pos, t) is Truncated),
    ensures
        skip_elem(b + e, pos, t) == skip_elem(b, pos, t),
        skip_elem(b, pos, t) matches Skip::At(p) ==> p <= b.len(),
{
    if fixed_size(t) == 0 && t == 8 {
        lemma_le64_prefix(b, e, pos as int);
    }
}

proof fn lemma_skip_elems_prefix(b: Seq<u8>, e: Seq<u8>, pos: nat, t: nat, count: nat)
    requires
        !(skip_elems(b, pos, t, count) is Truncated),
        pos <= b.len(),
    ensures
        skip_elems(b + e, pos, t, count) == skip_elems(b, pos, t, count),
        skip_elems(b, pos, t, count) matches Skip::At(p) ==> p <= b.len(),
    decreases count,
{
    if count > 0 {
        lemma_skip_elem_prefix(b, e, pos, t);
        match skip_elem(b, pos, t) {
            Skip::At(p) => lemma_skip_elems_prefix(b, e, p, t, (count - 1) as nat),
            _ => {},
        }
    }
}

proof fn lemma_scan_value_prefix(
    b: Seq<u8>,
    e: Seq<u8>,
    vpos: nat,
    vtype: nat,
    is_template: bool,
    version: nat,
    remaining: nat,
)
    requires
        !(scan_value(b, vpos, vtype, is_template, version, remaining) is Truncated),
    ensures
        scan_value(b + e, vpos, vtype, is_template, version, remaining) == scan_value(
            b,
            vpos,
            vtype,
            is_template,
            version,
            remaining,
        ),
    decreases remaining, 1nat,
{
    if fixed_size(vtype) > 0 {
        if vpos + fixed_size(vtype) <= b.len() {
            lemma_scan_kvs_prefix(b, e, vpos + fixed_size(vtype), version, remaining);
        }
    } else if vtype == 8 {
        if vpos + 8 <= b.len() {
            lemma_le64_prefix(b, e, vpos as int);
            let slen = le64(b, vpos as int);
            let spos = vpos + 8;
            if slen <= 0x40_0000 && spos + slen <= b.len() {
                assert((b + e).subrange(spos as int, (spos + slen) as int) =~= b.subrange(
                    spos as int,
                    (spos + slen) as int,
                ));
                if !is_template {
                    lemma_scan_kvs_prefix(b, e, spos + slen, version, remaining);
                }
            }
        }
    } else if vtype == 9 {
        if vpos + 12 <= b.len() {
            lemma_le32_prefix(b, e, vpos as int);
            lemma_le64_prefix(b, e, (vpos + 4) as int);
            if le64(b, (vpos + 4) as int) <= 0x400_0000 {
                let t = le32(b, vpos as int);
                let count = le64(b, (vpos + 4) as int);
                lemma_skip_elems_prefix(b, e, vpos + 12, t, count);
                match skip_elems(b, vpos + 12, t, count) {
                    Skip::At(p) => lemma_scan_kvs_prefix(b, e, p, version, remaining),
                    _ => {},
                }
            }
        }
    }
}

proof fn lemma_scan_kvs_prefix(b: Seq<u8>, e: Seq<u8>, pos: nat, version: nat, remaining: nat)
    requires
        !(scan_kvs(b, pos, version, remaining) is Truncated),
    ensures
        scan_kvs(b + e, pos, version, remaining) == scan_kvs(b, pos, version, remaining),
    decreases remaining, 0nat,
{
    if remaining > 0 && pos + 8 <= b.len() {
        lemma_le64_prefix(b, e, pos as int);
        let klen = le64(b, pos as int);
        let kpos = pos + 8;
        let after_key = kpos + klen + if version == 2 {
            1nat
        } else {
            0nat
        };
        if klen <= 0x10_0000 && after_key + 4 <= b.len() {
            lemma_le32_prefix(b, e, after_key as int);
            assert((b + e).subrange(kpos as int, (kpos + klen) as int) =~= b.subrange(
                kpos as int,
                (kpos + klen) as int,
            ));
            lemma_scan_value_prefix(
                b,
                e,
                after_key + 4,
                le32(b, after_key as int),
                b.subrange(kpos as int, (kpos + klen) as int) == template_key(),
                version,
                (remaining - 1) as nat,
            );
        }
    }
}

/// Reading more of the file never changes an answer the bytes read so far
/// already give: only `Truncated` asks for more. So the header can be read
/// a piece at a time, however large the rest of the model is.
pub proof fn law_gguf_prefix(b: Seq<u8>, more: Seq<u8>)
    requires
        !(gguf_scan(b) is Truncated),
    ensures
        gguf_scan(b + more) == gguf_scan(b),
{
    if b.len() >= 8 {
        assert((b + more).subrange(0, 4) =~= b.subrange(0, 4));
        lemma_le32_prefix(b, more, 4);
        if b.subrange(0, 4) == "GGUF"@.map_values(|c: char| c as u8) && le32(b, 4) <= 3 && b.len()
            >= 24 {
            lemma_le64_prefix(b, more, 16);
            lemma_scan_kvs_prefix(b, more, 24, le32(b, 4), le64(b, 16));
        }
    }
}


/// A subrange of `b` that holds `p` makes `b` hold it.
proof fn lemma_contain_widen(b: Seq<u8>, a: int, z: int, p: Seq<u8>)
    requires
        0 <= a <= z <= b.len(),
        bytes_contain(b.subrange(a, z), p),
    ensures
        bytes_contain(b, p),
{
    let s = b.subrange(a, z);
    let i = choose|i: int| 0 <= i && i + p.len() <= s.len() && #[trigger] s.subrange(i, i + p.len()) == p;
    assert(b.subrange(a + i, a + i + p.len()) =~= s.subrange(i, i + p.len()));
}

/// A "yes" from the key/value walk is read from a template value holding
/// `enable_thinking`, under the chat-template key.
proof fn lemma_kvs_yes(b: Seq<u8>, pos: nat, version: nat, remaining: nat)
    ensures
        scan_kvs(b, pos, version, remaining) == GgufScan::Answer(true) ==> bytes_contain(
            b,
            template_key(),
        ) && bytes_contain(b, needle()),
    decreases remaining, 0nat,
{
    if remaining > 0 && pos + 8 <= b.len() {
        let klen = le64(b, pos as int);
        let kpos = pos + 8;
        let after_key = kpos + klen + if version == 2 {
            1nat
        } else {
            0nat
        };
        if klen <= 0x10_0000 && after_key + 4 <= b.len() {
            let is_t = b.subrange(kpos as int, (kpos + klen) as int) == template_key();
            if is_t {
                let ks = b.subrange(kpos as int, (kpos + klen) as int);
                assert(ks.len() == template_key().len());
                assert(ks.subrange(0, 0 + template_key().len() as int) =~= template_key());
                assert(bytes_contain(ks, template_key()));
                lemma_contain_widen(b, kpos as int, (kpos + klen) as int, template_key());
            }
            lemma_value_yes(b, after_key + 4, le32(b, after_key as int), is_t, version, (remaining - 1) as nat);
        }
    }
}

proof fn lemma_value_yes(
    b: Seq<u8>,
    vpos: nat,
    vtype: nat,
    is_template: bool,
    version: nat,
    remaining: nat,
)
    ensures
        (is_template ==> bytes_contain(b, template_key())) && scan_value(
            b,
            vpos,
            vtype,
            is_template,
            version,
            remaining,
        ) == GgufScan::Answer(true) ==> bytes_contain(b, template_key()) && bytes_contain(
            b,
            needle(),
        ),
    decreases remaining, 1nat,
{
    if fixed_size(vtype) > 0 {
        if vpos + fixed_size(vtype) <= b.len() {
            lemma_kvs_yes(b, vpos + fixed_size(vtype), version, remaining);
        }
    } else if vtype == 8 {
        if vpos + 8 <= b.len() {
            let slen = le64(b, vpos as int);
            let spos = vpos + 8;
            if slen <= 0x40_0000 && spos + slen <= b.len() {
                if is_template {
                    if bytes_contain(b.subrange(spos as int, (spos + slen) as int), needle()) {
                        lemma_contain_widen(b, spos as int, (spos + slen) as int, needle());
                    }
                } else {
                    lemma_kvs_yes(b, spos + slen, version, remaining);
                }
            }
        }
    } else if vtype == 9 {
        if vpos + 12 <= b.len() && le64(b, (vpos + 4) as int) <= 0x400_0000 {
            match skip_elems(b, vpos + 12, le32(b, vpos as int), le64(b, (vpos + 4) as int)) {
                Skip::At(p) => lemma_kvs_yes(b, p, version, remaining),
                _ => {},
            }
        }
    }
}

/// What the thinking check answers: a file that is not GGUF, or of a
/// version above 3, gets no answer; a header without key/value pairs
/// answers "no"; and "yes" is only ever read from a header of a known
/// version whose bytes hold the chat-template key and `enable_thinking`.
pub proof fn law_gguf_answer(b: Seq<u8>)
    ensures
        b.len() >= 8 && b.subrange(0, 4) != "GGUF"@.map_values(|c: char| c as u8) ==> gguf_scan(b)
            == GgufScan::Invalid,
        b.len() >= 8 && le32(b, 4) > 3 ==> gguf_scan(b) == GgufScan::Invalid,
        gguf_scan(b) is Answer ==> b.subrange(0, 4) == "GGUF"@.map_values(|c: char| c as u8) && le32(
            b,
            4,
        ) <= 3,
        b.len() >= 24 && b.subrange(0, 4) == "GGUF"@.map_values(|c: char| c as u8) && le32(b, 4) <= 3
            && le64(b, 16) == 0 ==> gguf_scan(b) == GgufScan::Answer(false),
        gguf_scan(b) == GgufScan::Answer(true) ==> bytes_contain(b, template_key()) && bytes_contain(
            b,
            needle(),
        ),
{
    if b.len() >= 24 {
        lemma_kvs_yes(b, 24, le32(b, 4), le64(b, 16));
    }
}


/// Where a value of type `t` at `vpos` ends: fixed-size values, strings
/// of at most 4 MiB, and arrays (of at most 64 Mi fixed-size or string
/// elements).
pub open spec fn value_end(b: Seq<u8>, vpos: nat, t: nat) -> Skip {
    if t == 9 {
        if vpos + 12 > b.len() {
            Skip::Truncated
        } else if le64(b, (vpos + 4) as int) > 0x400_0000 {
            Skip::Invalid
        } else {
            skip_elems(b, vpos + 12, le32(b, vpos as int), le64(b, (vpos + 4) as int))
        }
    } else {
        skip_elem(b, vpos, t)
    }
}

/// The walk over the key/value pairs, one pair at a time: with no pair
/// left the answer is "no"; the first pair whose key is
/// `tokenizer.chat_template` and whose value is a string decides, by
/// whether that string holds `enable_thinking`; any other pair is skipped
/// (a value that cannot be skipped stops the walk as it says).
pub proof fn law_gguf_walk(b: Seq<u8>, pos: nat, version: nat, remaining: nat)
    ensures
        remaining == 0 ==> scan_kvs(b, pos, version, remaining) == GgufScan::Answer(false),
        ({
            let klen = le64(b, pos as int);
            let kpos = pos + 8;
            let after_key = kpos + klen + if version == 2 {
                1nat
            } else {
                0nat
            };
            let t = le32(b, after_key as int);
            let vpos = after_key + 4;
            let is_template = b.subrange(kpos as int, (kpos + klen) as int) == template_key();
            remaining > 0 && pos + 8 <= b.len() && klen <= 0x10_0000 && after_key + 4 <= b.len() ==> {
                &&& (is_template && t == 8 && value_end(b, vpos, t) is At) ==> scan_kvs(
                    b,
                    pos,
                    version,
                    remaining,
                ) == GgufScan::Answer(
                    bytes_contain(
                        b.subrange((vpos + 8) as int, value_end(b, vpos, t)->At_0 as int),
                        needle(),
                    ),
                )
                &&& !(is_template && t == 8) ==> scan_kvs(b, pos, version, remaining) == match value_end(
                    b,
                    vpos,
                    t,
                ) {
                    Skip::At(e) => scan_kvs(b, e, version, (remaining - 1) as nat),
                    Skip::Invalid => GgufScan::Invalid,
                    Skip::Truncated => GgufScan::Truncated,
                }
            }
        }),
{
}

} // verus!
