//! The models directory: GGUF filenames (model name, quant type, split
//! shards), projector pairing, and sizes as the UI shows them.
use vstd::prelude::*;
use crate::text::{
    views, all_digits, chars_of, contains, contains_exec, copy_vec, dec, ends_with, ends_with_exec,
    extend, find_from, is_ascii_alnum, lit, lower, lower_char, lower_seq, lower_vec, match_at, push_dec, rfind,
    rfind_exec, slice_of, string_of, utf8_len, utf8_len_capped, vec_eq,
};

verus! {

/// Lower-cased model name with separators removed, so "gemma-3-12b-it"
/// and "Gemma_3_12B_IT" compare equal.
pub open spec fn name_key(name: Seq<char>) -> Seq<char> {
    lower_seq(name).filter(|c: char| is_ascii_alnum(c))
}

pub fn name_key_exec(name: &Vec<char>) -> (out: Vec<char>)
    ensures
        out@ == name_key(name@),
{
    let low = lower_vec(name);
    let mut out: Vec<char> = Vec::new();
    let mut i: usize = 0;
    while i < low.len()
        invariant
            i <= low.len(),
            low@ == lower_seq(name@),
            out@ == low@.take(i as int).filter(|c: char| is_ascii_alnum(c)),
        decreases low.len() - i,
    {
        let c = low[i];
        proof {
            assert(low@.take(i + 1).drop_last() =~= low@.take(i as int));
            assert(low@.take(i + 1).last() == c);
            reveal(Seq::filter);
        }
        if ('0' <= c && c <= '9') || ('a' <= c && c <= 'z') || ('A' <= c && c <= 'Z') {
            out.push(c);
        }
        proof {
            assert(low@.take(i as int).push(c) =~= low@.take(i + 1));
        }
        i += 1;
    }
    assert(low@.take(low.len() as int) =~= low@);
    out
}

/// Vision projectors are conventionally named `mmproj-*.gguf` or
/// `*-mmproj-*.gguf`; they pair with a model via `--mmproj` and cannot be
/// launched on their own.
pub open spec fn mmproj_name(filename: Seq<char>) -> bool {
    contains(lower_seq(filename), "mmproj"@)
}

pub fn is_mmproj_filename(filename: &str) -> (b: bool)
    ensures
        b == mmproj_name(filename@),
{
    contains_exec(&lower_vec(&chars_of(filename)), &lit("mmproj"))
}

/// `filename` without a `.gguf` extension.
pub open spec fn gguf_stem(filename: Seq<char>) -> Seq<char> {
    if ends_with(filename, ".gguf"@) {
        filename.take(filename.len() - 5)
    } else {
        filename
    }
}

/// Five ASCII digits.
pub open spec fn five_digits(s: Seq<char>) -> bool {
    all_digits(s) && s.len() == 5
}

/// `-NNNNN-of-NNNNN` at the end of the stem.
pub open spec fn split_shard(filename: Seq<char>) -> bool {
    let stem = gguf_stem(filename);
    match rfind(stem, "-of-"@) {
        None => false,
        Some(of) => {
            let after = stem.skip(of + 4);
            let before = stem.take(of);
            if five_digits(after) {
                match rfind(before, "-"@) {
                    Some(dash) => five_digits(before.skip(dash + 1)),
                    None => false,
                }
            } else {
                false
            }
        },
    }
}

pub open spec fn first_shard(filename: Seq<char>) -> bool {
    contains(filename, "-00001-of-"@)
}

/// The stem without a `-NNNNN-of-...` split suffix.
pub open spec fn without_split_suffix(stem: Seq<char>) -> Seq<char> {
    match rfind(stem, "-of-"@) {
        None => stem,
        Some(of) => match rfind(stem.take(of), "-"@) {
            None => stem,
            Some(dash) => if five_digits(stem.take(of).skip(dash + 1)) {
                stem.take(dash)
            } else {
                stem
            },
        },
    }
}

fn five_digits_exec(v: &Vec<char>) -> (b: bool)
    ensures
        b == five_digits(v@),
{
    if v.len() != 5 {
        return false;
    }
    let mut i: usize = 0;
    while i < v.len()
        invariant
            i <= v.len(),
            forall|j: int| 0 <= j < i ==> crate::text::is_digit(#[trigger] v@[j]),
        decreases v.len() - i,
    {
        if !('0' <= v[i] && v[i] <= '9') {
            assert(!crate::text::is_digit(v@[i as int]));
            return false;
        }
        i += 1;
    }
    true
}

fn gguf_stem_exec(v: &Vec<char>) -> (out: Vec<char>)
    ensures
        out@ == gguf_stem(v@),
{
    proof {
        reveal_strlit(".gguf");
    }
    if ends_with_exec(v, &lit(".gguf")) {
        slice_of(v, 0, v.len() - 5)
    } else {
        copy_vec(v)
    }
}

pub fn is_split_shard(filename: &str) -> (b: bool)
    ensures
        b == split_shard(filename@),
{
    let stem = gguf_stem_exec(&chars_of(filename));
    proof {
        reveal_strlit("-of-");
        reveal_strlit("-");
    }
    let of = match rfind_exec(&stem, &lit("-of-")) {
        Some(of) => of,
        None => {
            return false;
        },
    };
    assert(of + 4 <= stem.len());
    let after = slice_of(&stem, of + 4, stem.len());
    let before = slice_of(&stem, 0, of);
    assert(after@ =~= stem@.skip(of + 4));
    assert(before@ =~= stem@.take(of as int));
    if !five_digits_exec(&after) {
        return false;
    }
    match rfind_exec(&before, &lit("-")) {
        Some(dash) => {
            assert(dash + 1 <= before.len());
            let shard = slice_of(&before, dash + 1, before.len());
            assert(shard@ =~= before@.skip(dash + 1));
            five_digits_exec(&shard)
        },
        None => false,
    }
}

pub fn is_first_shard(filename: &str) -> (b: bool)
    ensures
        b == first_shard(filename@),
{
    contains_exec(&chars_of(filename), &lit("-00001-of-"))
}

fn strip_split_suffix(stem: &Vec<char>) -> (out: Vec<char>)
    ensures
        out@ == without_split_suffix(stem@),
{
    proof {
        reveal_strlit("-of-");
        reveal_strlit("-");
    }
    let of = match rfind_exec(stem, &lit("-of-")) {
        Some(of) => of,
        None => {
            return copy_vec(stem);
        },
    };
    assert(of <= stem.len());
    let before = slice_of(stem, 0, of);
    assert(before@ =~= stem@.take(of as int));
    match rfind_exec(&before, &lit("-")) {
        Some(dash) => {
            assert(dash + 1 <= before.len());
            let shard = slice_of(&before, dash + 1, before.len());
            assert(shard@ =~= before@.skip(dash + 1));
            if five_digits_exec(&shard) {
                slice_of(stem, 0, dash)
            } else {
                copy_vec(stem)
            }
        },
        None => copy_vec(stem),
    }
}

/// Model name and quant type split at the last `pattern`: the quant type
/// starts right after the separator and needs at least 3 bytes.
pub open spec fn quant_split(stem: Seq<char>, pattern: Seq<char>) -> Option<(Seq<char>, Seq<char>)> {
    match rfind(stem, pattern) {
        None => None,
        Some(pos) => {
            let name = stem.take(pos);
            let quant = stem.skip(pos + 1);
            if name.len() > 0 && utf8_len(quant) >= 3 {
                Some((name, quant))
            } else {
                None
            }
        },
    }
}

/// Model name and quant type of a GGUF filename, e.g.
/// "Qwen3.5-27B-Q4_0.gguf" -> ("Qwen3.5-27B", "Q4_0"),
/// "Qwen3-Coder-Next-Q4_1-00001-of-00003.gguf" -> ("Qwen3-Coder-Next", "Q4_1"),
/// "model.gguf" -> ("model", none). The separators are tried in the order
/// "-UD-Q", "-UD-IQ", "-Q", "-IQ", "_Q", "_IQ", each at its last
/// occurrence.
pub open spec fn gguf_name(filename: Seq<char>) -> (Option<Seq<char>>, Option<Seq<char>>) {
    let stem = without_split_suffix(gguf_stem(filename));
    let found = match quant_split(stem, "-UD-Q"@) {
        Some(r) => Some(r),
        None => match quant_split(stem, "-UD-IQ"@) {
            Some(r) => Some(r),
            None => match quant_split(stem, "-Q"@) {
                Some(r) => Some(r),
                None => match quant_split(stem, "-IQ"@) {
                    Some(r) => Some(r),
                    None => match quant_split(stem, "_Q"@) {
                        Some(r) => Some(r),
                        None => quant_split(stem, "_IQ"@),
                    },
                },
            },
        },
    };
    match found {
        Some(r) => (Some(r.0), Some(r.1)),
        None => if stem.len() > 0 {
            (Some(stem), None)
        } else {
            (None, None)
        },
    }
}

fn quant_split_exec(stem: &Vec<char>, pattern: &str) -> (r: Option<(Vec<char>, Vec<char>)>)
    requires
        pattern@.len() > 0,
    ensures
        r matches Some(nq) ==> quant_split(stem@, pattern@) == Some((nq.0@, nq.1@)),
        r is None ==> quant_split(stem@, pattern@) is None,
{
    match rfind_exec(stem, &lit(pattern)) {
        None => None,
        Some(pos) => {
            assert(crate::text::match_at(stem@, pattern@, pos as int));
            assert(pos + 1 <= stem.len());
            let name = slice_of(stem, 0, pos);
            let quant = slice_of(stem, pos + 1, stem.len());
            assert(name@ =~= stem@.take(pos as int));
            assert(quant@ =~= stem@.skip(pos + 1));
            if name.len() > 0 && utf8_len_capped(&quant, 3) >= 3 {
                Some((name, quant))
            } else {
                None
            }
        },
    }
}

/// Parse a GGUF filename to extract model name and quantization type.
pub fn parse_gguf_filename(filename: &str) -> (r: (Option<String>, Option<String>))
    ensures
        (match r.0 {
            Some(s) => Some(s@),
            None => None,
        }, match r.1 {
            Some(s) => Some(s@),
            None => None,
        }) == gguf_name(filename@),
{
    let stem = strip_split_suffix(&gguf_stem_exec(&chars_of(filename)));
    proof {
        reveal_strlit("-UD-Q");
        reveal_strlit("-UD-IQ");
        reveal_strlit("-Q");
        reveal_strlit("-IQ");
        reveal_strlit("_Q");
        reveal_strlit("_IQ");
    }
    let mut found = quant_split_exec(&stem, "-UD-Q");
    if found.is_none() {
        found = quant_split_exec(&stem, "-UD-IQ");
    }
    if found.is_none() {
        found = quant_split_exec(&stem, "-Q");
    }
    if found.is_none() {
        found = quant_split_exec(&stem, "-IQ");
    }
    if found.is_none() {
        found = quant_split_exec(&stem, "_Q");
    }
    if found.is_none() {
        found = quant_split_exec(&stem, "_IQ");
    }
    match found {
        Some(nq) => (Some(string_of(&nq.0)), Some(string_of(&nq.1))),
        None => if stem.len() > 0 {
            (Some(string_of(&stem)), None)
        } else {
            (None, None)
        },
    }
}


/// The rounding step of `n as f64`: 1 below 2^53, else twice that of n / 2.
pub open spec fn f64_unit(n: nat) -> nat
    decreases n,
{
    if n < 0x20_0000_0000_0000 {
        1
    } else {
        2 * f64_unit(n / 2)
    }
}

/// `n as f64`: `n` rounded to 53 significant bits, ties to even.
pub open spec fn as_f64(n: nat) -> nat {
    let u = f64_unit(n);
    let q = n / u;
    let r = n % u;
    if 2 * r > u || (2 * r == u && q % 2 == 1) {
        (q + 1) * u
    } else {
        q * u
    }
}

/// `v / d` in tenths, rounded half to even (what `{:.1}` prints for a
/// value that is exactly `v / d`).
pub open spec fn tenths(v: nat, d: nat) -> nat {
    let t = v * 10;
    let q = t / d;
    let r = t % d;
    if 2 * r > d || (2 * r == d && q % 2 == 1) {
        q + 1
    } else {
        q
    }
}

pub open spec fn one_decimal(t: nat) -> Seq<char> {
    dec(t / 10) + "."@ + seq![crate::text::digit_char(t % 10)]
}

/// A size as the models list shows it: "1.4 GB", "47.7 MB", "488 KB".
pub open spec fn size_display(bytes: nat) -> Seq<char> {
    if bytes >= 1_073_741_824 {
        one_decimal(tenths(as_f64(bytes), 1_073_741_824)) + " GB"@
    } else if bytes >= 1_048_576 {
        one_decimal(tenths(as_f64(bytes), 1_048_576)) + " MB"@
    } else {
        dec(bytes / 1024) + " KB"@
    }
}

pub(crate) fn as_f64_exec(n: u64) -> (r: u128)
    ensures
        r == as_f64(n as nat),
        r <= 0x1_0000_0000_0000_1000,
{
    let mut m: u64 = n;
    let mut unit: u64 = 1;
    while m >= 0x20_0000_0000_0000
        invariant
            unit > 0,
            unit <= 0x1000,
            m == n / unit,
            unit * f64_unit(m as nat) == f64_unit(n as nat),
        decreases m,
    {
        proof {
            vstd::arithmetic::div_mod::lemma_div_denominator(n as int, unit as int, 2);
            assert(unit * 0x20_0000_0000_0000 <= unit * m) by (nonlinear_arith)
                requires
                    m >= 0x20_0000_0000_0000,
                    unit > 0,
            ;
            assert(unit * m <= n) by (nonlinear_arith)
                requires
                    m == n / unit,
                    unit > 0,
            ;
            assert(unit < 0x800) by (nonlinear_arith)
                requires
                    unit * 0x20_0000_0000_0000 <= n,
                    n < 0x1_0000_0000_0000_0000,
            ;
            assert(f64_unit(m as nat) == 2 * f64_unit((m / 2) as nat));
            assert(unit * (2 * f64_unit((m / 2) as nat)) == (unit * 2) * f64_unit((m / 2) as nat))
                by (nonlinear_arith);
        }
        m = m / 2;
        unit = unit * 2;
    }
    assert(f64_unit(m as nat) == 1);
    assert(unit == f64_unit(n as nat)) by (nonlinear_arith)
        requires
            unit * f64_unit(m as nat) == f64_unit(n as nat),
            f64_unit(m as nat) == 1,
    ;
    let q = n / unit;
    let r = n % unit;
    proof {
        assert(q * unit <= n) by (nonlinear_arith)
            requires
                q == n / unit,
                unit > 0,
        ;
        assert((q + 1) * unit <= n + unit) by (nonlinear_arith)
            requires
                q * unit <= n,
        ;
    }
    if 2 * (r as u128) > unit as u128 || (2 * (r as u128) == unit as u128 && q % 2 == 1) {
        (q as u128 + 1) * (unit as u128)
    } else {
        (q as u128) * (unit as u128)
    }
}

fn tenths_exec(v: u128, d: u128) -> (t: u128)
    requires
        v <= 0x1_0000_0000_0000_1000,
        1_048_576 <= d <= 1_073_741_824,
    ensures
        t == tenths(v as nat, d as nat),
        t <= 0x10_0000_0000_0000,
{
    let t = v * 10;
    let q = t / d;
    let r = t % d;
    proof {
        assert(q <= t / 1_048_576) by (nonlinear_arith)
            requires
                q == t / d,
                d >= 1_048_576,
                t >= 0,
        ;
    }
    if 2 * r > d || (2 * r == d && q % 2 == 1) {
        q + 1
    } else {
        q
    }
}

fn push_one_decimal(out: &mut Vec<char>, t: u128)
    requires
        t <= 0x10_0000_0000_0000,
    ensures
        final(out)@ == old(out)@ + one_decimal(t as nat),
{
    proof {
        reveal_strlit(".");
    }
    push_dec(out, (t / 10) as u64);
    out.push('.');
    let d = (t % 10) as u8;
    let c = (48u8 + d) as char;
    proof {
        assert(c == crate::text::digit_char((t % 10) as nat));
    }
    out.push(c);
    assert(out@ =~= old(out)@ + one_decimal(t as nat));
}

/// "1.4 GB" / "47.7 MB" / "488 KB".
pub fn format_size(bytes: u64) -> (s: String)
    ensures
        s@ == size_display(bytes as nat),
{
    let mut out: Vec<char> = Vec::new();
    if bytes >= 1_073_741_824 {
        let t = tenths_exec(as_f64_exec(bytes), 1_073_741_824);
        push_one_decimal(&mut out, t);
        extend(&mut out, &lit(" GB"));
    } else if bytes >= 1_048_576 {
        let t = tenths_exec(as_f64_exec(bytes), 1_048_576);
        push_one_decimal(&mut out, t);
        extend(&mut out, &lit(" MB"));
    } else {
        push_dec(&mut out, bytes / 1024);
        extend(&mut out, &lit(" KB"));
    }
    assert(out@ =~= size_display(bytes as nat));
    string_of(&out)
}


/// What a `.meta.json` sidecar records about a downloaded file.
#[derive(Debug, Clone, PartialEq)]
pub struct ModelMetadata {
    pub repo: String,
    pub filename: String,
    pub downloaded_at: u64,
    pub hf_downloads: Option<u64>,
    pub hf_last_modified: Option<String>,
}

/// A model file found in the models directory.
#[derive(Debug, Clone, PartialEq)]
pub struct DiscoveredModel {
    pub path: String,
    pub filename: String,
    pub size_bytes: u64,
    pub size_display: String,
    pub quant_type: Option<String>,
    pub model_name: Option<String>,
    pub is_split: bool,
    /// A multimodal projector (mmproj) rather than a language model.
    pub is_mmproj: bool,
    /// For a model: the projector file in the same directory that belongs to
    /// it, if one was found. For a projector: the models it belongs to.
    /// See `pair_projectors`.
    pub projector: Option<String>,
    pub pairs_with: Vec<String>,
    pub hf_repo: Option<String>,
    pub downloaded_at: Option<u64>,
    pub hf_downloads: Option<u64>,
    pub hf_last_modified: Option<String>,
}

pub struct ModelView {
    pub path: Seq<char>,
    pub filename: Seq<char>,
    pub size_bytes: u64,
    pub size_display: Seq<char>,
    pub quant_type: Option<Seq<char>>,
    pub model_name: Option<Seq<char>>,
    pub is_split: bool,
    pub is_mmproj: bool,
    pub projector: Option<Seq<char>>,
    pub pairs_with: Seq<Seq<char>>,
    pub hf_repo: Option<Seq<char>>,
    pub downloaded_at: Option<u64>,
    pub hf_downloads: Option<u64>,
    pub hf_last_modified: Option<Seq<char>>,
}

pub open spec fn opt_str(o: Option<String>) -> Option<Seq<char>> {
    match o {
        Some(s) => Some(s@),
        None => None,
    }
}

pub open spec fn strs(v: Seq<String>) -> Seq<Seq<char>> {
    v.map_values(|s: String| s@)
}

impl DiscoveredModel {
    pub open spec fn view(&self) -> ModelView {
        ModelView {
            path: self.path@,
            filename: self.filename@,
            size_bytes: self.size_bytes,
            size_display: self.size_display@,
            quant_type: opt_str(self.quant_type),
            model_name: opt_str(self.model_name),
            is_split: self.is_split,
            is_mmproj: self.is_mmproj,
            projector: opt_str(self.projector),
            pairs_with: strs(self.pairs_with@),
            hf_repo: opt_str(self.hf_repo),
            downloaded_at: self.downloaded_at,
            hf_downloads: self.hf_downloads,
            hf_last_modified: opt_str(self.hf_last_modified),
        }
    }
}

pub open spec fn models_view(v: Seq<DiscoveredModel>) -> Seq<ModelView> {
    v.map_values(|m: DiscoveredModel| m.view())
}

fn copy_opt(o: &Option<String>) -> (r: Option<String>)
    ensures
        opt_str(r) == opt_str(*o),
{
    match o {
        Some(s) => Some(s.clone()),
        None => None,
    }
}

fn copy_strings(v: &Vec<String>) -> (r: Vec<String>)
    ensures
        strs(r@) == strs(v@),
{
    let mut r: Vec<String> = Vec::new();
    let mut i: usize = 0;
    while i < v.len()
        invariant
            i <= v.len(),
            strs(r@) == strs(v@).take(i as int),
        decreases v.len() - i,
    {
        let ghost before = r@;
        r.push(v[i].clone());
        assert(strs(r@) =~= strs(before).push(v@[i as int]@));
        assert(strs(v@).take(i + 1) =~= strs(v@).take(i as int).push(v@[i as int]@));
        i += 1;
    }
    assert(strs(v@).take(v.len() as int) =~= strs(v@));
    r
}

impl DiscoveredModel {
    /// A deep copy.
    pub fn duplicate(&self) -> (m: DiscoveredModel)
        ensures
            m.view() == self.view(),
    {
        DiscoveredModel {
            path: self.path.clone(),
            filename: self.filename.clone(),
            size_bytes: self.size_bytes,
            size_display: self.size_display.clone(),
            quant_type: copy_opt(&self.quant_type),
            model_name: copy_opt(&self.model_name),
            is_split: self.is_split,
            is_mmproj: self.is_mmproj,
            projector: copy_opt(&self.projector),
            pairs_with: copy_strings(&self.pairs_with),
            hf_repo: copy_opt(&self.hf_repo),
            downloaded_at: self.downloaded_at,
            hf_downloads: self.hf_downloads,
            hf_last_modified: copy_opt(&self.hf_last_modified),
        }
    }
}

/// The first projector at or after `i` downloaded from `repo`.
pub open spec fn first_proj_by_repo(ms: Seq<ModelView>, repo: Seq<char>, i: nat) -> Option<int>
    decreases ms.len() - i,
{
    if i >= ms.len() {
        None
    } else if ms[i as int].is_mmproj && ms[i as int].hf_repo == Some(repo) {
        Some(i as int)
    } else {
        first_proj_by_repo(ms, repo, i + 1)
    }
}

/// The first projector at or after `i` whose name key contains `key`.
pub open spec fn first_proj_by_key(ms: Seq<ModelView>, key: Seq<char>, i: nat) -> Option<int>
    decreases ms.len() - i,
{
    if i >= ms.len() {
        None
    } else if ms[i as int].is_mmproj && contains(name_key(ms[i as int].filename), key) {
        Some(i as int)
    } else {
        first_proj_by_key(ms, key, i + 1)
    }
}

/// The projector of model `k`: the first one from the same Hugging Face
/// repo, else the first whose filename holds the model's name (a name key
/// of at least 4 characters). Projectors themselves link to nothing.
pub open spec fn link(ms: Seq<ModelView>, k: int) -> Option<int> {
    let m = ms[k];
    if m.is_mmproj {
        None
    } else {
        let by_repo = match m.hf_repo {
            Some(r) => first_proj_by_repo(ms, r, 0),
            None => None,
        };
        match by_repo {
            Some(p) => Some(p),
            None => match m.model_name {
                Some(n) => if name_key(n).len() < 4 {
                    None
                } else {
                    first_proj_by_key(ms, name_key(n), 0)
                },
                None => None,
            },
        }
    }
}

/// The filenames of the models before `n` that link to projector `p`.
pub open spec fn linked_names(ms: Seq<ModelView>, p: int, n: nat) -> Seq<Seq<char>>
    decreases n,
{
    if n == 0 {
        seq![]
    } else {
        let before = linked_names(ms, p, (n - 1) as nat);
        if link(ms, n - 1) == Some(p) {
            before.push(ms[n - 1].filename)
        } else {
            before
        }
    }
}

/// Model `k` once the first `n` models have been linked: a linked model
/// names its projector, and a projector lists, in order, the models before
/// `n` that link to it.
pub open spec fn paired_at(old: Seq<ModelView>, k: int, n: nat) -> ModelView {
    ModelView {
        projector: if k < n {
            match link(old, k) {
                Some(p) => Some(old[p].filename),
                None => old[k].projector,
            }
        } else {
            old[k].projector
        },
        pairs_with: old[k].pairs_with + linked_names(old, k, n),
        ..old[k]
    }
}

/// `new` is `old` with projectors paired: each model that links to a
/// projector names it, and each projector lists, in order, the models that
/// link to it. Nothing else changes.
pub open spec fn paired(old: Seq<ModelView>, new: Seq<ModelView>) -> bool {
    &&& new.len() == old.len()
    &&& forall|k: int| 0 <= k < old.len() ==> #[trigger] new[k] == paired_at(old, k, old.len())
}

pub proof fn lemma_first_proj_by_repo(ms: Seq<ModelView>, repo: Seq<char>, i: nat)
    ensures
        first_proj_by_repo(ms, repo, i) matches Some(p) ==> i <= p < ms.len() && ms[p].is_mmproj,
    decreases ms.len() - i,
{
    if i < ms.len() && !(ms[i as int].is_mmproj && ms[i as int].hf_repo == Some(repo)) {
        lemma_first_proj_by_repo(ms, repo, i + 1);
    }
}

pub proof fn lemma_first_proj_by_key(ms: Seq<ModelView>, key: Seq<char>, i: nat)
    ensures
        first_proj_by_key(ms, key, i) matches Some(p) ==> i <= p < ms.len() && ms[p].is_mmproj,
    decreases ms.len() - i,
{
    if i < ms.len() && !(ms[i as int].is_mmproj && contains(name_key(ms[i as int].filename), key)) {
        lemma_first_proj_by_key(ms, key, i + 1);
    }
}

pub proof fn lemma_link(ms: Seq<ModelView>, k: int)
    requires
        0 <= k < ms.len(),
    ensures
        link(ms, k) matches Some(p) ==> 0 <= p < ms.len() && ms[p].is_mmproj && !ms[k].is_mmproj,
{
    match ms[k].hf_repo {
        Some(r) => lemma_first_proj_by_repo(ms, r, 0),
        None => {},
    }
    match ms[k].model_name {
        Some(n) => lemma_first_proj_by_key(ms, name_key(n), 0),
        None => {},
    }
}

/// Model `k`'s projector, as `link` says.
fn link_exec(models: &[DiscoveredModel], k: usize) -> (r: Option<usize>)
    requires
        k < models.len(),
    ensures
        match r {
            Some(p) => link(models_view(models@), k as int) == Some(p as int),
            None => link(models_view(models@), k as int) is None,
        },
{
    let ghost ms = models_view(models@);
    assert(ms[k as int] == models@[k as int].view());
    if models[k].is_mmproj {
        return None;
    }
    match &models[k].hf_repo {
        Some(repo) => {
            let mut j: usize = 0;
            while j < models.len()
                invariant
                    j <= models.len(),
                    k < models.len(),
                    ms == models_view(models@),
                    !ms[k as int].is_mmproj,
                    ms[k as int].hf_repo == Some(repo@),
                    first_proj_by_repo(ms, repo@, 0) == first_proj_by_repo(ms, repo@, j as nat),
                decreases models.len() - j,
            {
                assert(ms[j as int] == models@[j as int].view());
                let hit = models[j].is_mmproj && match &models[j].hf_repo {
                    Some(r) => *r == *repo,
                    None => false,
                };
                if hit {
                    return Some(j);
                }
                j += 1;
            }
        },
        None => {},
    }
    match &models[k].model_name {
        Some(name) => {
            let key = name_key_exec(&chars_of(name.as_str()));
            if key.len() < 4 {
                return None;
            }
            let mut j: usize = 0;
            while j < models.len()
                invariant
                    j <= models.len(),
                    k < models.len(),
                    ms == models_view(models@),
                    !ms[k as int].is_mmproj,
                    ms[k as int].model_name == Some(name@),
                    key@.len() >= 4,
                    match ms[k as int].hf_repo {
                        Some(r) => first_proj_by_repo(ms, r, 0) is None,
                        None => true,
                    },
                    key@ == name_key(name@),
                    first_proj_by_key(ms, key@, 0) == first_proj_by_key(ms, key@, j as nat),
                decreases models.len() - j,
            {
                assert(ms[j as int] == models@[j as int].view());
                if models[j].is_mmproj && contains_exec(
                    &name_key_exec(&chars_of(models[j].filename.as_str())),
                    &key,
                ) {
                    return Some(j);
                }
                j += 1;
            }
            None
        },
        None => None,
    }
}

/// Links projector files to the models they belong to. Two signals, in
/// order: both files were downloaded from the same Hugging Face repo (the
/// `.meta.json` sidecars record it), or the projector's filename contains
/// the model's name (`mmproj-gemma-3-12b-it-f16.gguf` for
/// `gemma-3-12b-it-Q6_K.gguf`). A model keeps the first projector that
/// matches by repo, else by name; a projector lists every model it fits.
pub fn pair_projectors(models: &mut [DiscoveredModel])
    ensures
        paired(models_view(old(models)@), models_view(final(models)@)),
{
    let ghost orig = models_view(models@);
    let n = models.len();
    let mut links: Vec<Option<usize>> = Vec::new();
    let mut k: usize = 0;
    while k < n
        invariant
            k <= n,
            n == models.len(),
            orig == models_view(models@),
            links.len() == k,
            forall|j: int|
                0 <= j < k ==> match #[trigger] links@[j] {
                    Some(p) => link(orig, j) == Some(p as int),
                    None => link(orig, j) is None,
                },
        decreases n - k,
    {
        let l = link_exec(models, k);
        links.push(l);
        k += 1;
    }
    let mut k: usize = 0;
    while k < n
        invariant
            k <= n,
            n == models.len(),
            orig.len() == n,
            links.len() == n,
            forall|j: int|
                0 <= j < n ==> match #[trigger] links@[j] {
                    Some(p) => link(orig, j) == Some(p as int),
                    None => link(orig, j) is None,
                },
            forall|j: int| 0 <= j < n ==> #[trigger] models_view(models@)[j] == paired_at(orig, j, k as nat),
        decreases n - k,
    {
        proof {
            lemma_link(orig, k as int);
        }
        let ghost before = models_view(models@);
        match links[k] {
            Some(p) => {
                assert(link(orig, k as int) == Some(p as int));
                assert(p != k);
                assert(before[k as int] == models@[k as int].view());
                assert(before[p as int] == models@[p as int].view());
                let pname = models[p].filename.clone();
                let kname = models[k].filename.clone();
                let mut mk = models[k].duplicate();
                mk.projector = Some(pname);
                models[k] = mk;
                let mut mp = models[p].duplicate();
                let ghost pw = mp.pairs_with@;
                mp.pairs_with.push(kname);
                assert(strs(mp.pairs_with@) =~= strs(pw).push(orig[k as int].filename));
                models[p] = mp;
                proof {
                    assert forall|j: int| 0 <= j < n implies #[trigger] models_view(models@)[j]
                        == paired_at(orig, j, (k + 1) as nat) by {
                        assert(models_view(models@)[j] == models@[j].view());
                        if j == p as int {
                            assert(linked_names(orig, j, (k + 1) as nat) =~= linked_names(
                                orig,
                                j,
                                k as nat,
                            ).push(orig[k as int].filename));
                            assert(orig[j].pairs_with + linked_names(orig, j, (k + 1) as nat)
                                =~= (orig[j].pairs_with + linked_names(orig, j, k as nat)).push(
                                orig[k as int].filename,
                            ));
                        } else {
                            assert(linked_names(orig, j, (k + 1) as nat) == linked_names(
                                orig,
                                j,
                                k as nat,
                            ));
                            if j != k as int {
                                assert(models_view(models@)[j] == before[j]);
                            }
                        }
                    }
                }
            },
            None => {
                proof {
                    assert forall|j: int| 0 <= j < n implies #[trigger] models_view(models@)[j]
                        == paired_at(orig, j, (k + 1) as nat) by {
                        assert(linked_names(orig, j, (k + 1) as nat) == linked_names(
                            orig,
                            j,
                            k as nat,
                        ));
                        assert(before[j] == models_view(models@)[j]);
                    }
                }
            },
        }
        k += 1;
    }
}


/// The first model (not a projector) in a scan that is the preset's
/// model: the same path, or the same filename.
pub open spec fn first_model_match(ms: Seq<ModelView>, path: Seq<char>, filename: Seq<char>, i: nat) -> Option<int>
    decreases ms.len() - i,
{
    if i >= ms.len() {
        None
    } else if !ms[i as int].is_mmproj && (ms[i as int].path == path || (filename.len() > 0
        && ms[i as int].filename == filename)) {
        Some(i as int)
    } else {
        first_model_match(ms, path, filename, i + 1)
    }
}

/// The projector one directory's scan offers for the model, by the same
/// signals as `pair_projectors`: the same HF repo first, then the model's
/// name in the projector's filename.
pub open spec fn mmproj_in(ms: Seq<ModelView>, path: Seq<char>, filename: Seq<char>) -> Option<Seq<char>> {
    match first_model_match(ms, path, filename, 0) {
        None => None,
        Some(mi) => {
            let m = ms[mi];
            let by_repo = match m.hf_repo {
                Some(r) => first_proj_by_repo(ms, r, 0),
                None => None,
            };
            match by_repo {
                Some(c) => Some(ms[c].path),
                None => match m.model_name {
                    Some(n) => if name_key(n).len() >= 4 {
                        match first_proj_by_key(ms, name_key(n), 0) {
                            Some(c) => Some(ms[c].path),
                            None => None,
                        }
                    } else {
                        None
                    },
                    None => None,
                },
            }
        },
    }
}

/// The first scan, in order, that offers a projector.
pub open spec fn mmproj_in_scans(scans: Seq<Seq<ModelView>>, path: Seq<char>, filename: Seq<char>) -> Option<Seq<char>>
    decreases scans.len(),
{
    if scans.len() == 0 {
        None
    } else {
        match mmproj_in(scans[0], path, filename) {
            Some(p) => Some(p),
            None => mmproj_in_scans(scans.drop_first(), path, filename),
        }
    }
}

fn mmproj_in_exec(ms: &Vec<DiscoveredModel>, path: &str, filename: &str) -> (r: Option<String>)
    ensures
        opt_str(r) == mmproj_in(models_view(ms@), path@, filename@),
{
    let ghost mv = models_view(ms@);
    let fname = chars_of(filename);
    let mut mi: usize = 0;
    assert(first_model_match(mv, path@, filename@, 0) == first_model_match(mv, path@, filename@, 0));
    loop
        invariant
            mi <= ms.len(),
            mv == models_view(ms@),
            fname@ == filename@,
            first_model_match(mv, path@, filename@, 0) == first_model_match(
                mv,
                path@,
                filename@,
                mi as nat,
            ),
        ensures
            mi < ms.len(),
            mv == models_view(ms@),
            first_model_match(mv, path@, filename@, 0) == Some(mi as int),
        decreases ms.len() - mi,
    {
        if mi >= ms.len() {
            return None;
        }
        assert(mv[mi as int] == ms@[mi as int].view());
        let same_path = crate::text::vec_eq(&chars_of(ms[mi].path.as_str()), &chars_of(path));
        let same_name = fname.len() > 0 && crate::text::vec_eq(
            &chars_of(ms[mi].filename.as_str()),
            &fname,
        );
        if !ms[mi].is_mmproj && (same_path || same_name) {
            break;
        }
        mi += 1;
    }
    assert(first_model_match(mv, path@, filename@, 0) == Some(mi as int));
    assert(mv[mi as int] == ms@[mi as int].view());
    match &ms[mi].hf_repo {
        Some(repo) => {
            let mut j: usize = 0;
            while j < ms.len()
                invariant
                    j <= ms.len(),
                    mi < ms.len(),
                    mv == models_view(ms@),
                    first_model_match(mv, path@, filename@, 0) == Some(mi as int),
                    mv[mi as int].hf_repo == Some(repo@),
                    first_proj_by_repo(mv, repo@, 0) == first_proj_by_repo(mv, repo@, j as nat),
                decreases ms.len() - j,
            {
                assert(mv[j as int] == ms@[j as int].view());
                let hit = ms[j].is_mmproj && match &ms[j].hf_repo {
                    Some(r) => *r == *repo,
                    None => false,
                };
                if hit {
                    assert(first_proj_by_repo(mv, repo@, j as nat) == Some(j as int));
                    return Some(ms[j].path.clone());
                }
                j += 1;
            }
        },
        None => {},
    }
    match &ms[mi].model_name {
        Some(name) => {
            let key = name_key_exec(&chars_of(name.as_str()));
            if key.len() < 4 {
                return None;
            }
            let mut j: usize = 0;
            while j < ms.len()
                invariant
                    j <= ms.len(),
                    mi < ms.len(),
                    mv == models_view(ms@),
                    first_model_match(mv, path@, filename@, 0) == Some(mi as int),
                    mv[mi as int].model_name == Some(name@),
                    match mv[mi as int].hf_repo {
                        Some(r) => first_proj_by_repo(mv, r, 0) is None,
                        None => true,
                    },
                    key@.len() >= 4,
                    key@ == name_key(name@),
                    first_proj_by_key(mv, key@, 0) == first_proj_by_key(mv, key@, j as nat),
                decreases ms.len() - j,
            {
                assert(mv[j as int] == ms@[j as int].view());
                if ms[j].is_mmproj && contains_exec(
                    &name_key_exec(&chars_of(ms[j].filename.as_str())),
                    &key,
                ) {
                    return Some(ms[j].path.clone());
                }
                j += 1;
            }
            None
        },
        None => None,
    }
}

pub open spec fn scans_view(scans: Seq<Vec<DiscoveredModel>>) -> Seq<Seq<ModelView>> {
    scans.map_values(|v: Vec<DiscoveredModel>| models_view(v@))
}

/// Fallback projector for when a preset's `--mmproj` file is no longer on
/// disk (renamed, re-downloaded, moved). `scans` are the scans of the
/// directory the preset's projector path points into and then of the
/// model's own directory; in each, the model is found by path or filename
/// and a projector that pairs with it is looked for with the same signals
/// as `pair_projectors` (same HF repo, else the model's name in the
/// projector's filename), first match in scan order winning.
pub fn find_mmproj_for(
    scans: &[Vec<DiscoveredModel>],
    model_path: &str,
    model_filename: &str,
) -> (r: Option<String>)
    ensures
        opt_str(r) == mmproj_in_scans(scans_view(scans@), model_path@, model_filename@),
{
    let ghost sv = scans_view(scans@);
    let mut i: usize = 0;
    assert(sv.skip(0) =~= sv);
    while i < scans.len()
        invariant
            i <= scans.len(),
            sv == scans_view(scans@),
            mmproj_in_scans(sv, model_path@, model_filename@) == mmproj_in_scans(
                sv.skip(i as int),
                model_path@,
                model_filename@,
            ),
        decreases scans.len() - i,
    {
        assert(sv.skip(i as int)[0] == models_view(scans@[i as int]@));
        match mmproj_in_exec(&scans[i], model_path, model_filename) {
            Some(p) => {
                return Some(p);
            },
            None => {},
        }
        assert(sv.skip(i as int).drop_first() =~= sv.skip(i + 1));
        i += 1;
    }
    None
}


/// A directory entry is listed when it is a `.gguf` file and not a split
/// shard beyond the first.
pub open spec fn listed(filename: Seq<char>) -> bool {
    ends_with(filename, ".gguf"@) && (!split_shard(filename) || first_shard(filename))
}

/// Of a split model only the first shard is listed: a later shard never
/// is, and the first shard of a `.gguf` split is.
pub proof fn law_only_first_shard_listed(filename: Seq<char>)
    ensures
        split_shard(filename) && !first_shard(filename) ==> !listed(filename),
        split_shard(filename) && first_shard(filename) && ends_with(filename, ".gguf"@) ==> listed(
            filename,
        ),
{
}

pub open spec fn meta_view(m: ModelMetadata) -> (Seq<char>, u64, Option<u64>, Option<Seq<char>>) {
    (m.repo@, m.downloaded_at, m.hf_downloads, opt_str(m.hf_last_modified))
}

/// What the models list shows for a file, before projector pairing.
pub open spec fn discovered(
    path: Seq<char>,
    filename: Seq<char>,
    size: u64,
    meta: Option<(Seq<char>, u64, Option<u64>, Option<Seq<char>>)>,
) -> ModelView {
    ModelView {
        path: path,
        filename: filename,
        size_bytes: size,
        size_display: size_display(size as nat),
        quant_type: gguf_name(filename).1,
        model_name: gguf_name(filename).0,
        is_split: split_shard(filename),
        is_mmproj: mmproj_name(filename),
        projector: None,
        pairs_with: seq![],
        hf_repo: match meta {
            Some(m) => Some(m.0),
            None => None,
        },
        downloaded_at: match meta {
            Some(m) => Some(m.1),
            None => None,
        },
        hf_downloads: match meta {
            Some(m) => m.2,
            None => None,
        },
        hf_last_modified: match meta {
            Some(m) => m.3,
            None => None,
        },
    }
}

/// The models-list entry for a regular file `filename` at `path` with
/// `size` bytes and its `.meta.json` sidecar, if any; nothing for files the
/// list skips (not `.gguf`, or a split shard after the first).
pub fn discover_model(
    path: &str,
    filename: &str,
    size: u64,
    meta: Option<ModelMetadata>,
) -> (r: Option<DiscoveredModel>)
    ensures
        r is Some <==> listed(filename@),
        r matches Some(m) ==> m.view() == discovered(
            path@,
            filename@,
            size,
            match meta {
                Some(x) => Some(meta_view(x)),
                None => None,
            },
        ),
{
    if !ends_with_exec(&chars_of(filename), &lit(".gguf")) {
        return None;
    }
    let is_split = is_split_shard(filename);
    if is_split && !is_first_shard(filename) {
        return None;
    }
    let (model_name, quant_type) = parse_gguf_filename(filename);
    let (hf_repo, downloaded_at, hf_downloads, hf_last_modified) = match meta {
        Some(m) => (Some(m.repo), Some(m.downloaded_at), m.hf_downloads, m.hf_last_modified),
        None => (None, None, None, None),
    };
    let m = DiscoveredModel {
        path: string_of(&chars_of(path)),
        filename: string_of(&chars_of(filename)),
        size_bytes: size,
        size_display: format_size(size),
        quant_type,
        model_name,
        is_split,
        is_mmproj: is_mmproj_filename(filename),
        projector: None,
        pairs_with: Vec::new(),
        hf_repo,
        downloaded_at,
        hf_downloads,
        hf_last_modified,
    };
    assert(strs(m.pairs_with@) =~= seq![]);
    Some(m)
}


pub open spec fn filenames(ms: Seq<ModelView>) -> Seq<Seq<char>> {
    ms.map_values(|m: ModelView| m.filename)
}

/// `ms` in the order `order` lists them.
pub open spec fn reordered(ms: Seq<ModelView>, order: Seq<usize>) -> Seq<ModelView> {
    order.map_values(|i: usize| ms[i as int])
}

/// The models list from the entries of a directory scan: sorted by
/// filename (a stable sort), then with projectors paired.
pub fn finish_scan(found: Vec<DiscoveredModel>) -> (out: Vec<DiscoveredModel>)
    ensures
        exists|order: Seq<usize>|
            #![trigger crate::order::stable_order(filenames(models_view(found@)), order)]
            crate::order::stable_order(filenames(models_view(found@)), order) && paired(
                reordered(models_view(found@), order),
                models_view(out@),
            ),
{
    let ghost fv = models_view(found@);
    let mut keys: Vec<Vec<char>> = Vec::new();
    let mut k: usize = 0;
    while k < found.len()
        invariant
            k <= found.len(),
            fv == models_view(found@),
            views(keys@) == filenames(fv.take(k as int)),
        decreases found.len() - k,
    {
        let ghost before = keys@;
        keys.push(chars_of(found[k].filename.as_str()));
        assert(fv[k as int] == found@[k as int].view());
        assert(views(keys@) =~= views(before).push(fv[k as int].filename));
        assert(filenames(fv.take(k + 1)) =~= filenames(fv.take(k as int)).push(fv[k as int].filename));
        k += 1;
    }
    assert(fv.take(found.len() as int) =~= fv);
    let order = crate::order::sorted_order(&keys);
    let mut out: Vec<DiscoveredModel> = Vec::new();
    let mut j: usize = 0;
    while j < order.len()
        invariant
            j <= order.len(),
            order.len() == found.len(),
            fv == models_view(found@),
            crate::order::stable_order(views(keys@), order@),
            views(keys@) == filenames(fv),
            out@.len() == j,
            forall|a: int| 0 <= a < j ==> (#[trigger] out@[a]).view() == fv[order@[a] as int],
        decreases order.len() - j,
    {
        assert(order@[j as int] < found.len());
        assert(fv[order@[j as int] as int] == found@[order@[j as int] as int].view());
        out.push(found[order[j]].duplicate());
        j += 1;
    }
    let ghost sorted = reordered(fv, order@);
    assert(models_view(out@) =~= sorted);
    pair_projectors(out.as_mut_slice());
    proof {
        assert(crate::order::stable_order(filenames(fv), order@));
    }
    out
}


pub proof fn lemma_linked_names_contains(ms: Seq<ModelView>, p: int, n: nat, k: int)
    requires
        0 <= k < n,
        link(ms, k) == Some(p),
    ensures
        linked_names(ms, p, n).contains(ms[k].filename),
    decreases n,
{
    if k < n - 1 {
        lemma_linked_names_contains(ms, p, (n - 1) as nat, k);
        let before = linked_names(ms, p, (n - 1) as nat);
        let w = choose|w: int| 0 <= w < before.len() && before[w] == ms[k].filename;
        if link(ms, n - 1) == Some(p) {
            assert(linked_names(ms, p, n)[w] == ms[k].filename);
        }
    } else {
        let l = linked_names(ms, p, n);
        assert(l[l.len() - 1] == ms[k].filename);
    }
}

/// Pairing is mutual: a model that names a projector is listed by that
/// projector.
pub proof fn law_pairing_is_mutual(old: Seq<ModelView>, new: Seq<ModelView>, k: int, p: int)
    requires
        paired(old, new),
        0 <= k < old.len(),
        link(old, k) == Some(p),
    ensures
        0 <= p < new.len(),
        new[k].projector == Some(new[p].filename),
        new[p].pairs_with.contains(new[k].filename),
{
    lemma_link(old, k);
    assert(new[k] == paired_at(old, k, old.len()));
    assert(new[p] == paired_at(old, p, old.len()));
    lemma_linked_names_contains(old, p, old.len(), k);
    let l = linked_names(old, p, old.len());
    let w = choose|w: int| 0 <= w < l.len() && l[w] == old[k].filename;
    assert(new[p].pairs_with[old[p].pairs_with.len() + w] == old[k].filename);
}


/// Entry `p` is a projector downloaded from `repo`.
pub open spec fn proj_from_repo(ms: Seq<ModelView>, repo: Seq<char>, p: int) -> bool {
    ms[p].is_mmproj && ms[p].hf_repo == Some(repo)
}

/// Entry `p` is a projector whose name key holds `key`.
pub open spec fn proj_with_key(ms: Seq<ModelView>, key: Seq<char>, p: int) -> bool {
    ms[p].is_mmproj && contains(name_key(ms[p].filename), key)
}

pub proof fn lemma_first_proj_by_repo_is_first(ms: Seq<ModelView>, repo: Seq<char>, i: nat)
    ensures
        match first_proj_by_repo(ms, repo, i) {
            Some(p) => i <= p < ms.len() && proj_from_repo(ms, repo, p) && forall|q: int|
                i <= q < p ==> !#[trigger] proj_from_repo(ms, repo, q),
            None => forall|q: int| i <= q < ms.len() ==> !#[trigger] proj_from_repo(ms, repo, q),
        },
    decreases ms.len() - i,
{
    if i < ms.len() && !proj_from_repo(ms, repo, i as int) {
        lemma_first_proj_by_repo_is_first(ms, repo, i + 1);
    }
}

pub proof fn lemma_first_proj_by_key_is_first(ms: Seq<ModelView>, key: Seq<char>, i: nat)
    ensures
        match first_proj_by_key(ms, key, i) {
            Some(p) => i <= p < ms.len() && proj_with_key(ms, key, p) && forall|q: int|
                i <= q < p ==> !#[trigger] proj_with_key(ms, key, q),
            None => forall|q: int| i <= q < ms.len() ==> !#[trigger] proj_with_key(ms, key, q),
        },
    decreases ms.len() - i,
{
    if i < ms.len() && !proj_with_key(ms, key, i as int) {
        lemma_first_proj_by_key_is_first(ms, key, i + 1);
    }
}

/// Model `k` has a projector from its own Hugging Face repo.
pub open spec fn repo_projector_exists(ms: Seq<ModelView>, k: int) -> bool {
    ms[k].hf_repo is Some && exists|p: int|
        0 <= p < ms.len() && #[trigger] proj_from_repo(ms, ms[k].hf_repo->0, p)
}

/// Model `k` has a usable name key (at least 4 characters) that some
/// projector's name holds.
pub open spec fn key_projector_exists(ms: Seq<ModelView>, k: int) -> bool {
    ms[k].model_name is Some && name_key(ms[k].model_name->0).len() >= 4 && exists|p: int|
        0 <= p < ms.len() && #[trigger] proj_with_key(ms, name_key(ms[k].model_name->0), p)
}

/// How a model's projector is chosen: the first projector from the model's
/// own Hugging Face repo; failing that, the first projector whose name
/// holds the model's name (a name key of at least 4 characters); failing
/// that, none. Projectors get no projector.
pub proof fn law_projector_choice(old: Seq<ModelView>, new: Seq<ModelView>, k: int)
    requires
        paired(old, new),
        0 <= k < old.len(),
        old[k].projector is None,
    ensures
        old[k].is_mmproj ==> new[k].projector is None,
        !old[k].is_mmproj && repo_projector_exists(old, k) ==> exists|p: int|
            0 <= p < old.len() && proj_from_repo(old, old[k].hf_repo->0, p) && new[k].projector
                == Some(old[p].filename) && forall|q: int|
                0 <= q < p ==> !#[trigger] proj_from_repo(old, old[k].hf_repo->0, q),
        !old[k].is_mmproj && !repo_projector_exists(old, k) && key_projector_exists(old, k)
            ==> exists|p: int|
            0 <= p < old.len() && proj_with_key(old, name_key(old[k].model_name->0), p)
                && new[k].projector == Some(old[p].filename) && forall|q: int|
                0 <= q < p ==> !#[trigger] proj_with_key(old, name_key(old[k].model_name->0), q),
        !repo_projector_exists(old, k) && !key_projector_exists(old, k) ==> new[k].projector is None,
{
    assert(new[k] == paired_at(old, k, old.len()));
    match old[k].hf_repo {
        Some(r) => lemma_first_proj_by_repo_is_first(old, r, 0),
        None => {},
    }
    match old[k].model_name {
        Some(n) => lemma_first_proj_by_key_is_first(old, name_key(n), 0),
        None => {},
    }
}


/// How one directory's scan offers a projector for a preset's model
/// (found there as model `mi`): the first projector from the model's own
/// Hugging Face repo wins; failing that, the first whose name holds the
/// model's name (a name key of at least 4 characters); failing that, none.
/// A directory without the model offers none.
pub proof fn law_fallback_projector_choice(ms: Seq<ModelView>, path: Seq<char>, filename: Seq<char>, mi: int)
    requires
        first_model_match(ms, path, filename, 0) == Some(mi),
    ensures
        repo_projector_exists(ms, mi) ==> exists|c: int|
            0 <= c < ms.len() && proj_from_repo(ms, ms[mi].hf_repo->0, c) && mmproj_in(
                ms,
                path,
                filename,
            ) == Some(ms[c].path) && forall|q: int|
                0 <= q < c ==> !#[trigger] proj_from_repo(ms, ms[mi].hf_repo->0, q),
        !repo_projector_exists(ms, mi) && key_projector_exists(ms, mi) ==> exists|c: int|
            0 <= c < ms.len() && proj_with_key(ms, name_key(ms[mi].model_name->0), c) && mmproj_in(
                ms,
                path,
                filename,
            ) == Some(ms[c].path) && forall|q: int|
                0 <= q < c ==> !#[trigger] proj_with_key(ms, name_key(ms[mi].model_name->0), q),
        !repo_projector_exists(ms, mi) && !key_projector_exists(ms, mi) ==> mmproj_in(
            ms,
            path,
            filename,
        ) is None,
{
    match ms[mi].hf_repo {
        Some(r) => lemma_first_proj_by_repo_is_first(ms, r, 0),
        None => {},
    }
    match ms[mi].model_name {
        Some(n) => lemma_first_proj_by_key_is_first(ms, name_key(n), 0),
        None => {},
    }
}

/// The fallback projector comes from the first directory, in order, that
/// offers one for the model.
pub proof fn law_fallback_projector_first_scan(scans: Seq<Seq<ModelView>>, path: Seq<char>, filename: Seq<char>)
    ensures
        mmproj_in_scans(scans, path, filename) matches Some(p) ==> exists|d: int|
            0 <= d < scans.len() && #[trigger] mmproj_in(scans[d], path, filename) == Some(p) && forall|
                e: int,
            |
                0 <= e < d ==> (#[trigger] mmproj_in(scans[e], path, filename)) is None,
        mmproj_in_scans(scans, path, filename) is None ==> forall|d: int|
            0 <= d < scans.len() ==> (#[trigger] mmproj_in(scans[d], path, filename)) is None,
    decreases scans.len(),
{
    if scans.len() > 0 {
        let rest = scans.drop_first();
        law_fallback_projector_first_scan(rest, path, filename);
        match mmproj_in(scans[0], path, filename) {
            Some(p) => {
                assert(mmproj_in(scans[0], path, filename) == Some(p));
            },
            None => {
                if let Some(p) = mmproj_in_scans(scans, path, filename) {
                    let d = choose|d: int|
                        0 <= d < rest.len() && #[trigger] mmproj_in(rest[d], path, filename) == Some(p)
                            && forall|e: int|
                            0 <= e < d ==> (#[trigger] mmproj_in(rest[e], path, filename)) is None;
                    assert(scans[d + 1] == rest[d]);
                    assert forall|e: int| 0 <= e < d + 1 implies (#[trigger] mmproj_in(
                        scans[e],
                        path,
                        filename,
                    )) is None by {
                        if e > 0 {
                            assert(scans[e] == rest[e - 1]);
                        }
                    }
                    assert(mmproj_in(scans[d + 1], path, filename) == Some(p));
                } else {
                    assert forall|d: int| 0 <= d < scans.len() implies (#[trigger] mmproj_in(
                        scans[d],
                        path,
                        filename,
                    )) is None by {
                        if d > 0 {
                            assert(scans[d] == rest[d - 1]);
                        }
                    }
                }
            },
        }
    }
}


/// `name` is the filename of a model before `n` that links to `p`.
pub open spec fn name_linked(ms: Seq<ModelView>, p: int, n: nat, name: Seq<char>) -> bool {
    exists|k: int| 0 <= k < n && #[trigger] link(ms, k) == Some(p) && ms[k].filename == name
}

/// Every name a projector lists is the filename of a model that links to
/// it.
pub proof fn lemma_linked_names_from(ms: Seq<ModelView>, p: int, n: nat)
    requires
        n <= ms.len(),
    ensures
        forall|w: int|
            0 <= w < linked_names(ms, p, n).len() ==> name_linked(
                ms,
                p,
                n,
                #[trigger] linked_names(ms, p, n)[w],
            ),
    decreases n,
{
    if n > 0 {
        lemma_linked_names_from(ms, p, (n - 1) as nat);
        let before = linked_names(ms, p, (n - 1) as nat);
        let l = linked_names(ms, p, n);
        assert forall|w: int| 0 <= w < l.len() implies name_linked(ms, p, n, #[trigger] l[w]) by {
            if w < before.len() {
                assert(l[w] == before[w]);
                assert(name_linked(ms, p, (n - 1) as nat, before[w]));
                let k = choose|k: int|
                    0 <= k < n - 1 && #[trigger] link(ms, k) == Some(p) && ms[k].filename == before[w];
                assert(0 <= k < n && link(ms, k) == Some(p) && ms[k].filename == l[w]);
            } else {
                assert(l[w] == ms[n - 1].filename);
                assert(link(ms, n - 1) == Some(p));
            }
        }
    }
}

/// Only projectors are linked to.
pub proof fn lemma_linked_names_of_model(ms: Seq<ModelView>, p: int, n: nat)
    requires
        n <= ms.len(),
        0 <= p < ms.len(),
        !ms[p].is_mmproj,
    ensures
        linked_names(ms, p, n).len() == 0,
    decreases n,
{
    if n > 0 {
        lemma_linked_names_of_model(ms, p, (n - 1) as nat);
        lemma_link(ms, n - 1);
    }
}

/// No two models share a filename.
pub open spec fn distinct_filenames(ms: Seq<ModelView>) -> bool {
    forall|i: int, j: int| 0 <= i < j < ms.len() ==> #[trigger] ms[i].filename != #[trigger] ms[j].filename
}

/// The models as scanned: no projector named and none listed yet.
pub open spec fn unpaired(ms: Seq<ModelView>) -> bool {
    forall|k: int| 0 <= k < ms.len() ==> (#[trigger] ms[k]).projector is None && ms[k].pairs_with.len() == 0
}

/// Pairing touches only the projector and pairs-with fields: projectors
/// name no projector, and models list no model.
pub proof fn law_pairing_shape(old: Seq<ModelView>, new: Seq<ModelView>, k: int)
    requires
        paired(old, new),
        unpaired(old),
        0 <= k < old.len(),
    ensures
        new[k] == (ModelView { projector: new[k].projector, pairs_with: new[k].pairs_with, ..old[k] }),
        old[k].is_mmproj ==> new[k].projector is None,
        !old[k].is_mmproj ==> new[k].pairs_with.len() == 0,
{
    assert(new[k] == paired_at(old, k, old.len()));
    assert(old[k].projector is None && old[k].pairs_with.len() == 0);
    if !old[k].is_mmproj {
        lemma_linked_names_of_model(old, k, old.len());
        assert(new[k].pairs_with =~= old[k].pairs_with + linked_names(old, k, old.len()));
    }
}

/// With distinct filenames, pairing is mutual both ways: a model names a
/// projector exactly when that projector lists the model.
pub proof fn law_pairing_both_ways(old: Seq<ModelView>, new: Seq<ModelView>, m: int, p: int)
    requires
        paired(old, new),
        unpaired(old),
        distinct_filenames(old),
        0 <= m < old.len(),
        0 <= p < old.len(),
        !old[m].is_mmproj,
        old[p].is_mmproj,
    ensures
        new[m].projector == Some(new[p].filename) <==> new[p].pairs_with.contains(new[m].filename),
{
    let n = old.len();
    assert(new[m] == paired_at(old, m, n));
    assert(new[p] == paired_at(old, p, n));
    assert(old[p].projector is None && old[p].pairs_with.len() == 0);
    assert(old[m].projector is None);
    lemma_link(old, m);
    if new[m].projector == Some(new[p].filename) {
        let q = link(old, m)->0;
        if q != p {
            if q < p {
                assert(old[q].filename != old[p].filename);
            } else {
                assert(old[p].filename != old[q].filename);
            }
        }
        law_pairing_is_mutual(old, new, m, p);
    }
    if new[p].pairs_with.contains(new[m].filename) {
        let l = linked_names(old, p, n);
        assert(new[p].pairs_with =~= l);
        lemma_linked_names_from(old, p, n);
        let w = choose|w: int| 0 <= w < l.len() && l[w] == old[m].filename;
        assert(name_linked(old, p, n, l[w]));
        let k = choose|k: int| 0 <= k < n && #[trigger] link(old, k) == Some(p) && old[k].filename == l[w];
        if k != m {
            if k < m {
                assert(old[k].filename != old[m].filename);
            } else {
                assert(old[m].filename != old[k].filename);
            }
        }
    }
}


/// A directory's offer is one of its projectors.
pub proof fn lemma_mmproj_in_is_projector(ms: Seq<ModelView>, path: Seq<char>, filename: Seq<char>)
    ensures
        mmproj_in(ms, path, filename) matches Some(p) ==> exists|c: int|
            0 <= c < ms.len() && (#[trigger] ms[c]).is_mmproj && ms[c].path == p,
{
    if let Some(mi) = first_model_match(ms, path, filename, 0) {
        match ms[mi].hf_repo {
            Some(r) => lemma_first_proj_by_repo(ms, r, 0),
            None => {},
        }
        match ms[mi].model_name {
            Some(n) => lemma_first_proj_by_key(ms, name_key(n), 0),
            None => {},
        }
    }
}

/// The fallback projector, when there is one, is a projector file found in
/// one of the directories scanned (by path: a `.gguf` whose name marks it
/// as a projector).
pub proof fn law_fallback_is_a_scanned_projector(scans: Seq<Seq<ModelView>>, path: Seq<char>, filename: Seq<char>)
    ensures
        mmproj_in_scans(scans, path, filename) matches Some(p) ==> exists|d: int, c: int|
            0 <= d < scans.len() && 0 <= c < scans[d].len() && (#[trigger] scans[d][c]).is_mmproj
                && scans[d][c].path == p,
{
    law_fallback_projector_first_scan(scans, path, filename);
    if let Some(p) = mmproj_in_scans(scans, path, filename) {
        let d = choose|d: int|
            0 <= d < scans.len() && #[trigger] mmproj_in(scans[d], path, filename) == Some(p)
                && forall|e: int| 0 <= e < d ==> (#[trigger] mmproj_in(scans[e], path, filename)) is None;
        lemma_mmproj_in_is_projector(scans[d], path, filename);
        let c = choose|c: int| 0 <= c < scans[d].len() && (#[trigger] scans[d][c]).is_mmproj && scans[d][c].path == p;
        assert(scans[d][c].is_mmproj);
    }
}


/// The rounding step of `n as f64` is at most `n` (for `n >= 1`).
pub proof fn lemma_f64_unit_le(n: nat)
    requires
        n >= 1,
    ensures
        1 <= f64_unit(n) <= n,
    decreases n,
{
    if n >= 0x20_0000_0000_0000 {
        lemma_f64_unit_le(n / 2);
    }
}

/// `n as f64` is positive for positive `n`.
pub proof fn lemma_as_f64_positive(n: nat)
    requires
        n >= 1,
    ensures
        as_f64(n) >= 1,
{
    lemma_f64_unit_le(n);
    let u = f64_unit(n);
    assert(n / u >= 1) by (nonlinear_arith)
        requires
            1 <= u <= n,
    ;
    assert((n / u) * u >= u) by (nonlinear_arith)
        requires
            n / u >= 1,
            u >= 1,
    ;
    assert((n / u + 1) * u >= u) by (nonlinear_arith)
        requires
            n / u >= 1,
            u >= 1,
    ;
}


proof fn lemma_find_none(s: Seq<char>, p: Seq<char>, i: nat, j: int)
    requires
        find_from(s, p, i) is None,
        j >= i,
    ensures
        !match_at(s, p, j),
    decreases s.len() - i,
{
    if i + p.len() > s.len() {
    } else if match_at(s, p, i as int) {
    } else {
        if p.len() == 0 {
            assert(s.subrange(i as int, i as int) =~= p);
        }
        if j > i {
            lemma_find_none(s, p, i + 1, j);
        }
    }
}

/// A pattern that `s` does not contain matches nowhere in it.
proof fn lemma_no_match(s: Seq<char>, p: Seq<char>, j: int)
    requires
        !contains(s, p),
    ensures
        !match_at(s, p, j),
{
    if j >= 0 {
        lemma_find_none(s, p, 0, j);
    }
}

proof fn lemma_utf8_len_at_least_len(s: Seq<char>)
    ensures
        utf8_len(s) >= s.len(),
    decreases s.len(),
{
    if s.len() > 0 {
        lemma_utf8_len_at_least_len(s.drop_last());
    }
}

/// No proper suffix of `p` starts like `p` does (over its first two
/// characters), so an occurrence cannot begin inside another one.
pub open spec fn no_self_overlap(p: Seq<char>) -> bool {
    p.len() >= 2 && forall|k: int| 1 <= k < p.len() ==> #[trigger] p[k] != p[0] || (k + 1 < p.len()
        && p[k + 1] != p[1])
}

/// Splitting `name + p + rest` at its last `p` gives back `name` and the
/// quant type after the separator, when `rest` holds no `p`.
proof fn lemma_split_at(name: Seq<char>, p: Seq<char>, rest: Seq<char>)
    requires
        name.len() > 0,
        no_self_overlap(p),
        !contains(rest, p),
        p.len() - 1 + rest.len() >= 3,
    ensures
        quant_split(name + p + rest, p) == Some((name, p.skip(1) + rest)),
{
    let s = name + p + rest;
    let n = name.len() as int;
    let pl = p.len() as int;
    assert(s.subrange(n, n + pl) =~= p);
    assert forall|j: int| j <= s.len() - pl && j > n implies !match_at(s, p, j) by {
        if match_at(s, p, j) {
            if j >= n + pl {
                assert(rest.subrange(j - n - pl, j - n - pl + pl) =~= s.subrange(j, j + pl));
                lemma_no_match(rest, p, j - n - pl);
            } else {
                let k = j - n;
                assert(s[j] == p[k]);
                assert(s.subrange(j, j + pl)[0] == s[j]);
                assert(p[k] == p[0]);
                assert(k + 1 < pl && p[k + 1] != p[1]);
                assert(s[j + 1] == p[k + 1]);
                assert(s.subrange(j, j + pl)[1] == s[j + 1]);
            }
        }
    }
    crate::text::lemma_rfind_from_char(s, p, s.len() - pl, Some(n));
    assert(s.take(n) =~= name);
    assert(s.skip(n + 1) =~= p.skip(1) + rest);
    lemma_utf8_len_at_least_len(p.skip(1) + rest);
}

/// A stem without `-of-` has no shard suffix to drop.
proof fn lemma_no_shard(stem: Seq<char>)
    requires
        !contains(stem, "-of-"@),
    ensures
        without_split_suffix(stem) == stem,
{
    assert forall|j: int| j <= stem.len() - "-of-"@.len() implies !match_at(stem, "-of-"@, j) by {
        lemma_no_match(stem, "-of-"@, j);
    }
    crate::text::lemma_rfind_from_char(stem, "-of-"@, stem.len() - "-of-"@.len(), None);
}

/// The separators a quant type is split off at, in the order they are tried.
pub open spec fn quant_separators() -> Seq<Seq<char>> {
    seq!["-UD-Q"@, "-UD-IQ"@, "-Q"@, "-IQ"@, "_Q"@, "_IQ"@]
}

proof fn lemma_separators_shape(k: int)
    requires
        0 <= k < 6,
    ensures
        no_self_overlap(quant_separators()[k]),
        quant_separators()[k].len() >= 2,
{
    reveal_strlit("-UD-Q");
    reveal_strlit("-UD-IQ");
    reveal_strlit("-Q");
    reveal_strlit("-IQ");
    reveal_strlit("_Q");
    reveal_strlit("_IQ");
    let p = quant_separators()[k];
    assert forall|i: int| 1 <= i < p.len() implies #[trigger] p[i] != p[0] || (i + 1 < p.len() && p[i
        + 1] != p[1]) by {
        assert(i == 1 || i == 2 || i == 3 || i == 4 || i == 5);
    }
}

/// How a GGUF filename splits into model name and quant type: for
/// `NAME<sep>REST.gguf`, where `<sep>` is one of "-UD-Q", "-UD-IQ", "-Q",
/// "-IQ", "_Q", "_IQ", none of the separators tried before it occurs in
/// the name, REST holds no further `<sep>`, and the file is not a shard,
/// the model name is NAME and the quant type is `<sep>` without its
/// leading dash or underscore, followed by REST ("UD-IQ2_XXS" stays whole);
/// quant types shorter than three characters do not count.
pub proof fn law_gguf_name_split(name: Seq<char>, k: int, rest: Seq<char>)
    requires
        0 <= k < 6,
        name.len() > 0,
        forall|m: int| 0 <= m < k ==> !contains(name + quant_separators()[k] + rest, #[trigger] quant_separators()[m]),
        !contains(rest, quant_separators()[k]),
        !contains(name + quant_separators()[k] + rest, "-of-"@),
        quant_separators()[k].len() - 1 + rest.len() >= 3,
    ensures
        gguf_name(name + quant_separators()[k] + rest + ".gguf"@) == (
            Some(name),
            Some(quant_separators()[k].skip(1) + rest),
        ),
{
    let p = quant_separators()[k];
    let stem = name + p + rest;
    let f = stem + ".gguf"@;
    reveal_strlit(".gguf");
    assert(f.skip(f.len() - 5) =~= ".gguf"@);
    assert(f.take(f.len() - 5) =~= stem);
    assert(gguf_stem(f) == stem);
    lemma_no_shard(stem);
    lemma_separators_shape(k);
    lemma_split_at(name, p, rest);
    assert forall|m: int| 0 <= m < k implies quant_split(stem, #[trigger] quant_separators()[m]) is None by {
        let q = quant_separators()[m];
        lemma_separators_shape(m);
        assert forall|j: int| j <= stem.len() - q.len() implies !match_at(stem, q, j) by {
            lemma_no_match(stem, q, j);
        }
        crate::text::lemma_rfind_from_char(stem, q, stem.len() - q.len(), None);
    }
    let seps = quant_separators();
    if k >= 1 {
        assert(quant_split(stem, seps[0]) is None);
    }
    if k >= 2 {
        assert(quant_split(stem, seps[1]) is None);
    }
    if k >= 3 {
        assert(quant_split(stem, seps[2]) is None);
    }
    if k >= 4 {
        assert(quant_split(stem, seps[3]) is None);
    }
    if k >= 5 {
        assert(quant_split(stem, seps[4]) is None);
    }
}

} // verus!
