//! Prebuilt llama.cpp installs from ggml-org's GitHub releases: release
//! tags, asset names, the Atom feed, and the bookkeeping of installed
//! builds. Presets pick a build with `backend = "build:<id>"`.
use vstd::prelude::*;
use crate::launch::{DeviceView, GgmlDevice, devices_view};
use crate::text::{
    all_digits, chars_of, contains, contains_exec, copy_vec, digits_val, extend, find, find_exec,
    join_path, joined, lit, match_at, parse_uint, parse_uint_exec, slice_of, split_str,
    split_str_exec, starts_with, starts_with_exec, string_of, trim, trim_vec, views,
};

verus! {

pub const REPO: &'static str = "ggml-org/llama.cpp";

/// One installable backend for a platform.
#[derive(Debug, Clone, Copy, PartialEq)]
pub struct BackendOption {
    pub id: &'static str,
    pub label: &'static str,
    /// The part between `llama-<tag>-bin-` and `.tar.gz` in the asset name.
    pub suffix: &'static str,
    /// True when a `cudart-…` bundle with the CUDA runtime libraries exists
    /// for this backend; it is installed alongside so the build runs on a
    /// machine without the toolkit.
    pub has_cudart: bool,
    pub requires: &'static str,
}

#[derive(Debug, Clone, PartialEq)]
pub struct UpstreamRelease {
    pub tag: String,
    pub published_at: String,
}

/// Metadata kept next to an installed build.
#[derive(Debug, Clone, PartialEq)]
pub struct InstalledBuild {
    pub id: String,
    pub backend: String,
    pub tag: String,
    pub installed_at: u64,
    pub server_path: String,
    pub dir: String,
    pub devices: Vec<GgmlDevice>,
    pub device_check_error: Option<String>,
}

/// Progress of an install in flight.
#[derive(Debug, Clone, Default)]
pub struct InstallProgress {
    pub id: String,
    pub backend: String,
    pub tag: String,
    pub phase: String,
    pub downloaded_bytes: u64,
    pub total_bytes: u64,
    pub done: bool,
    pub error: Option<String>,
}

/// Directory name for a backend + tag, also the build's id in presets.
pub open spec fn build_id_of(backend: Seq<char>, tag: Seq<char>) -> Seq<char> {
    backend + "-"@ + tag
}

pub fn build_id(backend: &str, tag: &str) -> (id: String)
    ensures
        id@ == build_id_of(backend@, tag@),
{
    let mut v = chars_of(backend);
    extend(&mut v, &lit("-"));
    extend(&mut v, &lit(tag));
    string_of(&v)
}

/// Upstream tags look like `b11050`; anything else (the occasional
/// `v0.4.1` marker release) carries no binaries.
pub open spec fn build_tag(tag: Seq<char>) -> bool {
    tag.len() >= 2 && tag[0] == 'b' && all_digits(tag.skip(1))
}

pub fn is_build_tag(tag: &str) -> (b: bool)
    ensures
        b == build_tag(tag@),
{
    let v = chars_of(tag);
    if v.len() < 2 || v[0] != 'b' {
        return false;
    }
    let mut i: usize = 1;
    while i < v.len()
        invariant
            1 <= i <= v.len(),
            v@ == tag@,
            forall|j: int| 1 <= j < i ==> crate::text::is_digit(#[trigger] v@[j]),
        decreases v.len() - i,
    {
        if !('0' <= v[i] && v[i] <= '9') {
            assert(v@.skip(1)[i - 1] == v@[i as int]);
            assert(!crate::text::is_digit(v@.skip(1)[i - 1]));
            return false;
        }
        i += 1;
    }
    assert forall|j: int| 0 <= j < v@.skip(1).len() implies crate::text::is_digit(
        #[trigger] v@.skip(1)[j],
    ) by {
        assert(v@.skip(1)[j] == v@[j + 1]);
    }
    true
}

/// The number in a build tag, for "is this newer" comparisons.
pub open spec fn tag_num(tag: Seq<char>) -> Option<nat> {
    if !build_tag(tag) {
        None
    } else {
        parse_uint(tag.skip(1), u64::MAX as nat)
    }
}

pub fn tag_number(tag: &str) -> (r: Option<u64>)
    ensures
        r matches Some(n) ==> tag_num(tag@) == Some(n as nat),
        r is None ==> tag_num(tag@) is None,
{
    if !is_build_tag(tag) {
        return None;
    }
    let v = chars_of(tag);
    let rest = slice_of(&v, 1, v.len());
    assert(rest@ =~= tag@.skip(1));
    parse_uint_exec(&rest, u64::MAX)
}

/// The trimmed text between `<tag>` and the next `</tag>` in `block`.
pub open spec fn tag_text(block: Seq<char>, tag: Seq<char>) -> Option<Seq<char>> {
    let open = "<"@ + tag + ">"@;
    let close = "</"@ + tag + ">"@;
    match find(block, open) {
        None => None,
        Some(a) => {
            let start = a + open.len();
            match find(block.skip(start), close) {
                None => None,
                Some(e) => Some(trim(block.subrange(start, start + e))),
            }
        },
    }
}

pub open spec fn releases_of(entries: Seq<Seq<char>>) -> Seq<(Seq<char>, Seq<char>)>
    decreases entries.len(),
{
    if entries.len() == 0 {
        seq![]
    } else {
        let before = releases_of(entries.drop_last());
        let e = entries.last();
        match tag_text(e, "title"@) {
            Some(t) => if build_tag(t) {
                before.push(
                    (
                        t,
                        match tag_text(e, "updated"@) {
                            Some(u) => u,
                            None => seq![],
                        },
                    ),
                )
            } else {
                before
            },
            None => before,
        }
    }
}

/// (tag, published) of each build release in the feed, in feed order;
/// marker releases are skipped.
pub open spec fn atom_releases(xml: Seq<char>) -> Seq<(Seq<char>, Seq<char>)> {
    releases_of(split_str(xml, "<entry>"@).drop_first())
}

pub open spec fn release_view(r: UpstreamRelease) -> (Seq<char>, Seq<char>) {
    (r.tag@, r.published_at@)
}

fn tag_text_exec(block: &Vec<char>, tag: &str) -> (r: Option<Vec<char>>)
    ensures
        r matches Some(t) ==> tag_text(block@, tag@) == Some(t@),
        r is None ==> tag_text(block@, tag@) is None,
{
    let mut open = lit("<");
    extend(&mut open, &lit(tag));
    extend(&mut open, &lit(">"));
    let mut close = lit("</");
    extend(&mut close, &lit(tag));
    extend(&mut close, &lit(">"));
    assert(open@ =~= "<"@ + tag@ + ">"@);
    assert(close@ =~= "</"@ + tag@ + ">"@);
    let a = match find_exec(block, &open) {
        Some(a) => a,
        None => {
            return None;
        },
    };
    assert(match_at(block@, open@, a as int));
    assert(a + open.len() <= block.len());
    let start = a + open.len();
    let rest = slice_of(block, start, block.len());
    assert(rest@ =~= block@.skip(start as int));
    let e = match find_exec(&rest, &close) {
        Some(e) => e,
        None => {
            return None;
        },
    };
    let t = trim_vec(&slice_of(block, start, start + e));
    Some(t)
}

pub fn parse_releases_atom(xml: &str) -> (out: Vec<UpstreamRelease>)
    ensures
        out@.map_values(|r: UpstreamRelease| release_view(r)) == atom_releases(xml@),
{
    let v = chars_of(xml);
    let sep = lit("<entry>");
    proof {
        reveal_strlit("<entry>");
    }
    let pieces = split_str_exec(&v, &sep);
    let ghost entries = views(pieces@).drop_first();
    let mut out: Vec<UpstreamRelease> = Vec::new();
    let mut i: usize = 1;
    assert(entries.take(0) =~= seq![]);
    while i < pieces.len()
        invariant
            1 <= i <= pieces.len(),
            entries == views(pieces@).drop_first(),
            out@.map_values(|r: UpstreamRelease| release_view(r)) == releases_of(
                entries.take(i - 1),
            ),
        decreases pieces.len() - i,
    {
        let ghost t = entries.take(i as int);
        assert(t.drop_last() =~= entries.take(i - 1));
        assert(t.last() == pieces@[i as int]@);
        let e = &pieces[i];
        let ghost before = out@;
        match tag_text_exec(e, "title") {
            Some(title) => {
                let ts = string_of(&title);
                if is_build_tag(ts.as_str()) {
                    let published = match tag_text_exec(e, "updated") {
                        Some(u) => string_of(&u),
                        None => String::new(),
                    };
                    let r = UpstreamRelease { tag: ts, published_at: published };
                    out.push(r);
                    assert(out@.map_values(|r: UpstreamRelease| release_view(r)) =~= before.map_values(
                        |r: UpstreamRelease| release_view(r),
                    ).push(release_view(r)));
                }
            },
            None => {},
        }
        i += 1;
    }
    assert(entries.take(pieces.len() - 1) =~= entries);
    out
}

/// The download URL of a release asset (or of its CUDA runtime bundle).
pub open spec fn asset_url_of(tag: Seq<char>, suffix: Seq<char>, cudart: bool) -> Seq<char> {
    let name = (if cudart {
        "cudart-"@
    } else {
        seq![]
    }) + "llama-"@ + tag + "-bin-"@ + suffix + ".tar.gz"@;
    "https://github.com/"@ + REPO@ + "/releases/download/"@ + tag + "/"@ + name
}

pub fn asset_url(tag: &str, suffix: &str, cudart: bool) -> (url: String)
    ensures
        url@ == asset_url_of(tag@, suffix@, cudart),
{
    let mut v = lit("https://github.com/");
    extend(&mut v, &lit(REPO));
    extend(&mut v, &lit("/releases/download/"));
    extend(&mut v, &lit(tag));
    extend(&mut v, &lit("/"));
    if cudart {
        extend(&mut v, &lit("cudart-"));
    }
    extend(&mut v, &lit("llama-"));
    extend(&mut v, &lit(tag));
    extend(&mut v, &lit("-bin-"));
    extend(&mut v, &lit(suffix));
    extend(&mut v, &lit(".tar.gz"));
    assert(v@ =~= asset_url_of(tag@, suffix@, cudart));
    string_of(&v)
}

/// Ids that could climb out of the builds directory are never looked up.
pub open spec fn safe_build_id(id: Seq<char>) -> bool {
    !contains(id, "/"@) && !contains(id, ".."@)
}

/// The first build in `builds` with id `id`.
pub open spec fn first_build(builds: Seq<InstalledBuild>, id: Seq<char>) -> Option<int>
    decreases builds.len(),
{
    if builds.len() == 0 {
        None
    } else if builds[0].id@ == id {
        Some(0)
    } else {
        match first_build(builds.drop_first(), id) {
            Some(k) => Some(k + 1),
            None => None,
        }
    }
}

/// The installed build with id `id` among `builds` (the builds found on
/// disk, newest first); none for an id that contains `/` or `..`.
pub fn installed_build<'a>(builds: &'a [InstalledBuild], id: &str) -> (r: Option<&'a InstalledBuild>)
    ensures
        r is None <==> !safe_build_id(id@) || first_build(builds@, id@) is None,
        r matches Some(b) ==> safe_build_id(id@) && (first_build(builds@, id@) matches Some(k)
            && *b == builds@[k]),
{
    let v = chars_of(id);
    if contains_exec(&v, &lit("/")) || contains_exec(&v, &lit("..")) {
        return None;
    }
    let target = string_of(&v);
    let mut i: usize = 0;
    assert(builds@.skip(0) =~= builds@);
    while i < builds.len()
        invariant
            i <= builds.len(),
            target@ == id@,
            safe_build_id(id@),
            first_build(builds@, id@) == match first_build(builds@.skip(i as int), id@) {
                Some(k) => Some(k + i),
                None => None::<int>,
            },
        decreases builds.len() - i,
    {
        assert(builds@.skip(i as int)[0] == builds@[i as int]);
        if builds[i].id == target {
            assert(first_build(builds@.skip(i as int), id@) == Some(0int));
            return Some(&builds[i]);
        }
        assert(builds@.skip(i as int).drop_first() =~= builds@.skip(i + 1));
        i += 1;
    }
    None
}

/// `backends` with every `old_ref` replaced by `new_ref`.
pub open spec fn repointed(backends: Seq<Seq<char>>, old_ref: Seq<char>, new_ref: Seq<char>) -> Seq<
    Seq<char>,
> {
    backends.map_values(|b: Seq<char>| if b == old_ref { new_ref } else { b })
}

/// How many of `backends` equal `r`.
pub open spec fn count_eq(backends: Seq<Seq<char>>, r: Seq<char>) -> nat
    decreases backends.len(),
{
    if backends.len() == 0 {
        0
    } else {
        count_eq(backends.drop_last(), r) + if backends.last() == r {
            1nat
        } else {
            0nat
        }
    }
}

pub open spec fn strings_view(v: Seq<String>) -> Seq<Seq<char>> {
    v.map_values(|s: String| s@)
}

/// Moves everything that referenced build `from` to build `to`: the preset
/// backends on `build:<from>` and, when Settings points at its binary,
/// the Settings binary and working directory too. Returns how many
/// presets changed.
pub fn repoint(
    backends: &mut Vec<String>,
    server_path: &mut String,
    server_cwd: &mut String,
    from: &InstalledBuild,
    to: &InstalledBuild,
) -> (changed: usize)
    ensures
        strings_view(final(backends)@) == repointed(
            strings_view(old(backends)@),
            "build:"@ + from.id@,
            "build:"@ + to.id@,
        ),
        changed == count_eq(strings_view(old(backends)@), "build:"@ + from.id@),
        old(server_path)@ == from.server_path@ ==> final(server_path)@ == to.server_path@
            && final(server_cwd)@ == to.dir@,
        old(server_path)@ != from.server_path@ ==> final(server_path)@ == old(server_path)@
            && final(server_cwd)@ == old(server_cwd)@,
{
    let mut o = lit("build:");
    extend(&mut o, &lit(from.id.as_str()));
    let old_ref = string_of(&o);
    let mut n = lit("build:");
    extend(&mut n, &lit(to.id.as_str()));
    let new_ref = string_of(&n);
    let ghost orig = strings_view(backends@);
    let mut out: Vec<String> = Vec::new();
    let mut changed: usize = 0;
    let mut i: usize = 0;
    while i < backends.len()
        invariant
            i <= backends.len(),
            orig == strings_view(backends@),
            old_ref@ == "build:"@ + from.id@,
            new_ref@ == "build:"@ + to.id@,
            strings_view(out@) == repointed(orig.take(i as int), old_ref@, new_ref@),
            changed == count_eq(orig.take(i as int), old_ref@),
            changed <= i,
        decreases backends.len() - i,
    {
        let ghost t = orig.take(i + 1);
        assert(t.drop_last() =~= orig.take(i as int));
        assert(t.last() == backends@[i as int]@);
        let ghost before = out@;
        if backends[i] == old_ref {
            out.push(new_ref.clone());
            changed = changed + 1;
        } else {
            out.push(backends[i].clone());
        }
        proof {
            let r1 = repointed(orig.take(i + 1), old_ref@, new_ref@);
            let r0 = repointed(orig.take(i as int), old_ref@, new_ref@);
            let x = orig[i as int];
            assert(r1 =~= r0.push(
                if x == old_ref@ {
                    new_ref@
                } else {
                    x
                },
            ));
            assert(strings_view(out@) =~= strings_view(before).push(out@[i as int]@));
        }
        i += 1;
    }
    assert(orig.take(backends.len() as int) =~= orig);
    *backends = out;
    if *server_path == from.server_path {
        *server_path = to.server_path.clone();
        *server_cwd = to.dir.clone();
    }
    changed
}

/// (id, label, suffix, has_cudart, requires) of a backend option.
pub type BackendRow = (Seq<char>, Seq<char>, Seq<char>, bool, Seq<char>);

pub open spec fn option_row(b: BackendOption) -> BackendRow {
    (b.id@, b.label@, b.suffix@, b.has_cudart, b.requires@)
}

/// Backends upstream publishes for an OS and CPU (`std::env::consts`
/// names), most generally useful first.
pub open spec fn backend_table(os: Seq<char>, arch: Seq<char>) -> Seq<BackendRow> {
    if os == "linux"@ && arch == "x86_64"@ {
        seq![
            ("vulkan"@, "Vulkan"@, "ubuntu-vulkan-x64"@, false, "A Vulkan driver (Mesa radv/amdvlk for AMD, NVIDIA's driver). Works with AMD and NVIDIA cards, and across both at once."@),
            ("cuda-12.8"@, "CUDA 12.8"@, "ubuntu-cuda-12.8-x64"@, true, "NVIDIA driver 570 or newer. The CUDA runtime libraries are bundled."@),
            ("cuda-13.3"@, "CUDA 13.3"@, "ubuntu-cuda-13.3-x64"@, true, "NVIDIA driver 580 or newer. The CUDA runtime libraries are bundled."@),
            ("rocm-10.0"@, "ROCm 10.0"@, "ubuntu-rocm-10.0-x64"@, false, "ROCm 10.0 runtime installed system-wide; other ROCm versions will not load it."@),
            ("cpu"@, "CPU only"@, "ubuntu-x64"@, false, "Nothing. Slow for large models."@),
        ]
    } else if os == "linux"@ && arch == "aarch64"@ {
        seq![
            ("vulkan"@, "Vulkan"@, "ubuntu-vulkan-arm64"@, false, "A Vulkan driver."@),
            ("cuda-13.3"@, "CUDA 13.3"@, "ubuntu-cuda-13.3-arm64"@, true, "NVIDIA driver 580 or newer (Jetson/Grace). CUDA runtime bundled."@),
            ("cpu"@, "CPU only"@, "ubuntu-arm64"@, false, "Nothing."@),
        ]
    } else if os == "macos"@ && arch == "aarch64"@ {
        seq![
            ("metal"@, "Metal (Apple Silicon)"@, "macos-arm64"@, false, "Nothing; uses the built-in GPU."@),
        ]
    } else if os == "macos"@ && arch == "x86_64"@ {
        seq![
            ("cpu"@, "CPU (Intel Mac)"@, "macos-x64"@, false, "Nothing."@),
        ]
    } else {
        seq![]
    }
}

fn option(
    id: &'static str,
    label: &'static str,
    suffix: &'static str,
    has_cudart: bool,
    requires: &'static str,
) -> (b: BackendOption)
    ensures
        option_row(b) == (id@, label@, suffix@, has_cudart, requires@),
{
    BackendOption { id, label, suffix, has_cudart, requires }
}

/// Backends upstream publishes for `os` and `arch` (as
/// `std::env::consts` names them), most generally useful first. ROCm is
/// offered but its runtime must match the build exactly.
pub fn backend_options_for(os: &str, arch: &str) -> (v: Vec<BackendOption>)
    ensures
        v@.map_values(|b: BackendOption| option_row(b)) == backend_table(os@, arch@),
{
    let o = chars_of(os);
    let a = chars_of(arch);
    if crate::text::vec_eq(&o, &lit("linux")) && crate::text::vec_eq(&a, &lit("x86_64")) {
        let v = vec![
            option("vulkan", "Vulkan", "ubuntu-vulkan-x64", false, "A Vulkan driver (Mesa radv/amdvlk for AMD, NVIDIA's driver). Works with AMD and NVIDIA cards, and across both at once."),
            option("cuda-12.8", "CUDA 12.8", "ubuntu-cuda-12.8-x64", true, "NVIDIA driver 570 or newer. The CUDA runtime libraries are bundled."),
            option("cuda-13.3", "CUDA 13.3", "ubuntu-cuda-13.3-x64", true, "NVIDIA driver 580 or newer. The CUDA runtime libraries are bundled."),
            option("rocm-10.0", "ROCm 10.0", "ubuntu-rocm-10.0-x64", false, "ROCm 10.0 runtime installed system-wide; other ROCm versions will not load it."),
            option("cpu", "CPU only", "ubuntu-x64", false, "Nothing. Slow for large models."),
        ];
        assert(v@.map_values(|b: BackendOption| option_row(b)) =~= backend_table(os@, arch@));
        v
    } else if crate::text::vec_eq(&o, &lit("linux")) && crate::text::vec_eq(&a, &lit("aarch64")) {
        let v = vec![
            option("vulkan", "Vulkan", "ubuntu-vulkan-arm64", false, "A Vulkan driver."),
            option("cuda-13.3", "CUDA 13.3", "ubuntu-cuda-13.3-arm64", true, "NVIDIA driver 580 or newer (Jetson/Grace). CUDA runtime bundled."),
            option("cpu", "CPU only", "ubuntu-arm64", false, "Nothing."),
        ];
        assert(v@.map_values(|b: BackendOption| option_row(b)) =~= backend_table(os@, arch@));
        v
    } else if crate::text::vec_eq(&o, &lit("macos")) && crate::text::vec_eq(&a, &lit("aarch64")) {
        let v = vec![
            option("metal", "Metal (Apple Silicon)", "macos-arm64", false, "Nothing; uses the built-in GPU."),
        ];
        assert(v@.map_values(|b: BackendOption| option_row(b)) =~= backend_table(os@, arch@));
        v
    } else if crate::text::vec_eq(&o, &lit("macos")) && crate::text::vec_eq(&a, &lit("x86_64")) {
        let v = vec![
            option("cpu", "CPU (Intel Mac)", "macos-x64", false, "Nothing."),
        ];
        assert(v@.map_values(|b: BackendOption| option_row(b)) =~= backend_table(os@, arch@));
        v
    } else {
        let v: Vec<BackendOption> = Vec::new();
        assert(v@.map_values(|b: BackendOption| option_row(b)) =~= backend_table(os@, arch@));
        v
    }
}

/// The first row of `t` with id `id`.
pub open spec fn row_by_id(t: Seq<BackendRow>, id: Seq<char>) -> Option<BackendRow>
    decreases t.len(),
{
    if t.len() == 0 {
        None
    } else if t[0].0 == id {
        Some(t[0])
    } else {
        row_by_id(t.drop_first(), id)
    }
}

/// The backend option with id `id` for `os` and `arch`.
pub fn option_by_id(os: &str, arch: &str, id: &str) -> (r: Option<BackendOption>)
    ensures
        r matches Some(b) ==> row_by_id(backend_table(os@, arch@), id@) == Some(option_row(b)),
        r is None ==> row_by_id(backend_table(os@, arch@), id@) is None,
{
    let opts = backend_options_for(os, arch);
    let ghost t = opts@.map_values(|b: BackendOption| option_row(b));
    let want = chars_of(id);
    let mut i: usize = 0;
    assert(t.skip(0) =~= t);
    while i < opts.len()
        invariant
            i <= opts.len(),
            t == opts@.map_values(|b: BackendOption| option_row(b)),
            t == backend_table(os@, arch@),
            want@ == id@,
            row_by_id(t, id@) == row_by_id(t.skip(i as int), id@),
        decreases opts.len() - i,
    {
        assert(t.skip(i as int)[0] == option_row(opts@[i as int]));
        if crate::text::vec_eq(&chars_of(opts[i].id), &want) {
            return Some(opts[i]);
        }
        assert(t.skip(i as int).drop_first() =~= t.skip(i + 1));
        i += 1;
    }
    None
}


pub proof fn lemma_repointed_drop_last(b: Seq<Seq<char>>, o: Seq<char>, n: Seq<char>)
    requires
        b.len() > 0,
    ensures
        repointed(b, o, n).drop_last() == repointed(b.drop_last(), o, n),
        repointed(b, o, n).last() == (if b.last() == o {
            n
        } else {
            b.last()
        }),
{
    assert(repointed(b, o, n).drop_last() =~= repointed(b.drop_last(), o, n));
}

/// After moving presets from one build to another, none still uses the
/// old build, and every preset that did now uses the new one.
pub proof fn law_repoint_moves_every_preset(backends: Seq<Seq<char>>, from_id: Seq<char>, to_id: Seq<char>)
    requires
        from_id != to_id,
    ensures
        count_eq(repointed(backends, "build:"@ + from_id, "build:"@ + to_id), "build:"@ + from_id)
            == 0,
        count_eq(repointed(backends, "build:"@ + from_id, "build:"@ + to_id), "build:"@ + to_id)
            == count_eq(backends, "build:"@ + to_id) + count_eq(backends, "build:"@ + from_id),
    decreases backends.len(),
{
    let o = "build:"@ + from_id;
    let n = "build:"@ + to_id;
    reveal_strlit("build:");
    assert(o != n) by {
        if o == n {
            assert(o.skip(6) =~= from_id);
            assert(n.skip(6) =~= to_id);
        }
    }
    if backends.len() > 0 {
        law_repoint_moves_every_preset(backends.drop_last(), from_id, to_id);
        lemma_repointed_drop_last(backends, o, n);
    } else {
        assert(repointed(backends, o, n).len() == 0);
    }
}

/// A build's tag parses back to its number.
pub proof fn law_tag_number_roundtrip(n: u64)
    ensures
        build_tag(seq!['b'] + crate::text::dec(n as nat)),
        tag_num(seq!['b'] + crate::text::dec(n as nat)) == Some(n as nat),
{
    let d = crate::text::dec(n as nat);
    let t = seq!['b'] + d;
    crate::text::lemma_dec_len(n as nat);
    assert(t.skip(1) =~= d);
    lemma_digits_of_dec(n as nat);
    assert(crate::text::unsigned_body(d) == d);
}

pub proof fn lemma_digits_of_dec(n: nat)
    ensures
        crate::text::digits_val(crate::text::dec(n)) == n,
    decreases n,
{
    let d = crate::text::dec(n);
    let c = crate::text::digit_char(n % 10);
    assert(c as u32 == 48 + n % 10);
    assert(crate::text::digit_val(c) == n % 10);
    crate::text::lemma_dec_len(n);
    assert(d.last() == c);
    assert(crate::text::digits_val(d) == crate::text::digits_val(d.drop_last()) * 10
        + crate::text::digit_val(c));
    if n < 10 {
        assert(d.drop_last() =~= Seq::<char>::empty());
        assert(crate::text::digits_val(d.drop_last()) == 0);
    } else {
        lemma_digits_of_dec(n / 10);
        assert(d.drop_last() =~= crate::text::dec(n / 10));
        assert(crate::text::digits_val(d.drop_last()) == n / 10);
        assert(n == (n / 10) * 10 + n % 10);
    }
}


/// The build as found in directory `dir`: its paths follow the directory
/// (`dir` itself and `llama-server` inside it), even if it was moved.
pub fn relocated(build: InstalledBuild, dir: &str) -> (b: InstalledBuild)
    ensures
        b.dir@ == dir@,
        b.server_path@ == joined(dir@, "llama-server"@),
        b.id == build.id,
        b.backend == build.backend,
        b.tag == build.tag,
        b.installed_at == build.installed_at,
        b.devices == build.devices,
        b.device_check_error == build.device_check_error,
{
    let d = chars_of(dir);
    let server = join_path(&d, "llama-server");
    InstalledBuild {
        id: build.id,
        backend: build.backend,
        tag: build.tag,
        installed_at: build.installed_at,
        server_path: string_of(&server),
        dir: string_of(&d),
        devices: build.devices,
        device_check_error: build.device_check_error,
    }
}

/// `order` lists every build once, newest first; builds installed at the
/// same moment keep the order they came in.
pub open spec fn newest_first_order(builds: Seq<InstalledBuild>, order: Seq<usize>) -> bool {
    &&& order.len() == builds.len()
    &&& forall|i: int| 0 <= i < order.len() ==> #[trigger] order[i] < builds.len()
    &&& forall|i: int, j: int| 0 <= i < j < order.len() ==> #[trigger] order[i] != #[trigger] order[j]
    &&& forall|i: int, j: int|
        0 <= i < j < order.len() ==> #[trigger] builds[order[i] as int].installed_at
            >= #[trigger] builds[order[j] as int].installed_at
    &&& forall|i: int, j: int|
        0 <= i < j < order.len() && #[trigger] builds[order[i] as int].installed_at
            == #[trigger] builds[order[j] as int].installed_at ==> order[i] < order[j]
}

/// The installed builds newest first (a stable sort by install time).
pub fn newest_first(builds: Vec<InstalledBuild>) -> (out: Vec<InstalledBuild>)
    ensures
        exists|order: Seq<usize>|
            #[trigger] newest_first_order(builds@, order) && out@ == order.map_values(
                |i: usize| builds@[i as int],
            ),
{
    let ghost b0 = builds@;
    let total = builds.len();
    assert(b0.len() == total);
    let mut rest = builds;
    let mut out: Vec<InstalledBuild> = Vec::new();
    let ghost mut order: Seq<usize> = seq![];
    let mut n: usize = 0;
    while rest.len() > 0
        invariant
            n + rest.len() == b0.len(),
            b0.len() <= usize::MAX,
            rest@ == b0.skip(n as int),
            out.len() == n,
            order.len() == n,
            forall|a: int| 0 <= a < n ==> #[trigger] order[a] < n,
            forall|a: int| 0 <= a < n ==> #[trigger] out@[a] == b0[order[a] as int],
            forall|i: int, j: int| 0 <= i < j < n ==> #[trigger] order[i] != #[trigger] order[j],
            forall|i: int, j: int|
                0 <= i < j < n ==> #[trigger] b0[order[i] as int].installed_at
                    >= #[trigger] b0[order[j] as int].installed_at,
            forall|i: int, j: int|
                0 <= i < j < n && #[trigger] b0[order[i] as int].installed_at
                    == #[trigger] b0[order[j] as int].installed_at ==> order[i] < order[j],
        decreases rest.len(),
    {
        assert(rest@[0] == b0[n as int]);
        let item = rest.remove(0);
        assert(rest@ =~= b0.skip(n + 1));
        let key = item.installed_at;
        // The first position holding an older build.
        let mut p: usize = 0;
        while p < out.len() && out[p].installed_at >= key
            invariant
                p <= out.len(),
                out.len() == n,
                forall|a: int| 0 <= a < p ==> (#[trigger] out@[a]).installed_at >= key,
            decreases out.len() - p,
        {
            p += 1;
        }
        let ghost old_out = out@;
        let ghost old_order = order;
        out.insert(p, item);
        proof {
            order = old_order.insert(p as int, n);
            assert(out@ == old_out.insert(p as int, item));
            assert forall|a: int| 0 <= a < n + 1 implies #[trigger] order[a] < n + 1 by {
                if a < p {
                    assert(order[a] == old_order[a]);
                } else if a > p {
                    assert(order[a] == old_order[a - 1]);
                }
            }
            assert forall|a: int| 0 <= a < n + 1 implies #[trigger] out@[a] == b0[order[a] as int] by {
                if a < p {
                    assert(out@[a] == old_out[a]);
                    assert(order[a] == old_order[a]);
                } else if a > p {
                    assert(out@[a] == old_out[a - 1]);
                    assert(order[a] == old_order[a - 1]);
                }
            }
            assert forall|i: int, j: int| 0 <= i < j < n + 1 implies #[trigger] order[i]
                != #[trigger] order[j] by {
                let i0 = if i < p { i } else { i - 1 };
                let j0 = if j < p { j } else { j - 1 };
                if i != p as int && j != p as int {
                    assert(order[i] == old_order[i0]);
                    assert(order[j] == old_order[j0]);
                } else if i == p as int {
                    assert(order[j] == old_order[j0]);
                } else {
                    assert(order[i] == old_order[i0]);
                }
            }
            assert forall|i: int, j: int| 0 <= i < j < n + 1 implies #[trigger] b0[order[i] as int].installed_at
                >= #[trigger] b0[order[j] as int].installed_at && (b0[order[i] as int].installed_at
                == b0[order[j] as int].installed_at ==> order[i] < order[j]) by {
                let i0 = if i < p { i } else { i - 1 };
                let j0 = if j < p { j } else { j - 1 };
                if i != p as int && j != p as int {
                    assert(order[i] == old_order[i0]);
                    assert(order[j] == old_order[j0]);
                    assert(i0 < j0);
                } else if i == p as int {
                    // The new build, before an older one.
                    assert(order[j] == old_order[j0]);
                    assert(old_out[p as int] == b0[old_order[p as int] as int]);
                    assert(old_out[p as int].installed_at < key);
                    assert(old_out[j0] == b0[old_order[j0] as int]);
                    if j0 > p {
                        assert(b0[old_order[p as int] as int].installed_at >= b0[old_order[j0] as int].installed_at);
                    }
                } else {
                    assert(order[i] == old_order[i0]);
                    assert(old_out[i0] == b0[old_order[i0] as int]);
                    assert(old_out[i0].installed_at >= key);
                }
            }
        }
        n += 1;
    }
    proof {
        assert(newest_first_order(b0, order));
        assert(out@ =~= order.map_values(|i: usize| b0[i as int]));
    }
    out
}


/// An install is in flight: one was started and has not finished.
pub open spec fn install_running(current: Option<InstallProgress>) -> bool {
    current matches Some(p) && !p.done
}

/// The progress an install of `backend` at `tag` starts from.
pub open spec fn starting_progress(p: InstallProgress, backend: Seq<char>, tag: Seq<char>) -> bool {
    &&& p.id@ == build_id_of(backend, tag)
    &&& p.backend@ == backend
    &&& p.tag@ == tag
    &&& p.phase@ == "Starting"@
    &&& p.downloaded_bytes == 0
    &&& p.total_bytes == 0
    &&& !p.done
    &&& p.error is None
}

/// Starts the bookkeeping of an install of `backend` at `tag`; refused
/// while another install is still running.
pub fn begin_install(current: &Option<InstallProgress>, backend: &str, tag: &str) -> (r: Result<
    InstallProgress,
    String,
>)
    ensures
        match r {
            Ok(p) => !install_running(*current) && starting_progress(p, backend@, tag@),
            Err(e) => install_running(*current) && e@ == "an install is already running"@,
        },
{
    let running = match current {
        Some(p) => !p.done,
        None => false,
    };
    if running {
        return Err(string_of(&lit("an install is already running")));
    }
    Ok(
        InstallProgress {
            id: build_id(backend, tag),
            backend: string_of(&chars_of(backend)),
            tag: string_of(&chars_of(tag)),
            phase: string_of(&lit("Starting")),
            downloaded_bytes: 0,
            total_bytes: 0,
            done: false,
            error: None,
        },
    )
}

/// An install request for `backend` at `tag`: both are needed, and no
/// other install may be running.
pub fn install_request(current: &Option<InstallProgress>, backend: &str, tag: &str) -> (r: Result<
    InstallProgress,
    String,
>)
    ensures
        match r {
            Ok(p) => backend@.len() > 0 && tag@.len() > 0 && !install_running(*current)
                && starting_progress(p, backend@, tag@),
            Err(e) => if backend@.len() == 0 || tag@.len() == 0 {
                e@ == "backend and tag required"@
            } else {
                install_running(*current) && e@ == "an install is already running"@
            },
        },
{
    if chars_of(backend).len() == 0 || chars_of(tag).len() == 0 {
        return Err(string_of(&lit("backend and tag required")));
    }
    begin_install(current, backend, tag)
}

/// `latest` is a newer build tag than `old` (tags without a number count
/// as oldest).
pub open spec fn tag_newer(latest: Seq<char>, old: Seq<char>) -> bool {
    match (tag_num(latest), tag_num(old)) {
        (Some(a), Some(b)) => a > b,
        (Some(_), None) => true,
        (None, _) => false,
    }
}

/// Why a build at `old_tag` is not updated to `latest`: nothing when
/// `latest` is newer.
pub fn update_refusal(old_tag: &str, latest: &str) -> (r: Option<String>)
    ensures
        r is None <==> tag_newer(latest@, old_tag@),
        r matches Some(e) ==> e@ == old_tag@ + " is already the newest release ("@ + latest@ + ")"@,
{
    let newer = match (tag_number(latest), tag_number(old_tag)) {
        (Some(a), Some(b)) => a > b,
        (Some(_), None) => true,
        (None, _) => false,
    };
    if newer {
        return None;
    }
    let mut v = chars_of(old_tag);
    extend(&mut v, &lit(" is already the newest release ("));
    extend(&mut v, &lit(latest));
    extend(&mut v, &lit(")"));
    Some(string_of(&v))
}

/// Records how an install ended: the id of the build it installed (when
/// it replaced the build `replaced`, the update), or its error.
pub fn finish_install(progress: &mut InstallProgress, outcome: Result<String, String>, replaced: Option<
    &str,
>)
    ensures
        final(progress).done,
        final(progress).id == old(progress).id,
        final(progress).backend == old(progress).backend,
        final(progress).tag == old(progress).tag,
        final(progress).downloaded_bytes == old(progress).downloaded_bytes,
        final(progress).total_bytes == old(progress).total_bytes,
        match outcome {
            Ok(id) => final(progress).error == old(progress).error && final(progress).phase@ == match replaced {
                Some(o) => "Updated "@ + o@ + " to "@ + id@,
                None => "Installed "@ + id@,
            },
            Err(e) => final(progress).phase == old(progress).phase && final(progress).error == Some(e),
        },
{
    progress.done = true;
    match outcome {
        Ok(id) => {
            let mut v = match replaced {
                Some(o) => {
                    let mut t = lit("Updated ");
                    extend(&mut t, &lit(o));
                    extend(&mut t, &lit(" to "));
                    t
                },
                None => lit("Installed "),
            };
            extend(&mut v, &chars_of(id.as_str()));
            progress.phase = string_of(&v);
        },
        Err(e) => {
            progress.error = Some(e);
        },
    }
}


/// What an install downloads: the build's id, the backend's label, the
/// release archive and, for backends that have one, the CUDA runtime
/// bundle.
#[derive(Debug, Clone, PartialEq)]
pub struct InstallPlan {
    pub id: String,
    pub label: &'static str,
    pub archive_url: String,
    pub cudart_url: Option<String>,
}

/// Why `backend` at `tag` cannot be installed on `os`/`arch`.
pub open spec fn install_refusal(os: Seq<char>, arch: Seq<char>, backend: Seq<char>, tag: Seq<char>) -> Option<
    Seq<char>,
> {
    if row_by_id(backend_table(os, arch), backend) is None {
        Some("backend "@ + backend + " is not available on this platform"@)
    } else if !build_tag(tag) {
        Some(tag + " is not a llama.cpp build tag"@)
    } else {
        None
    }
}

/// The downloads of an install of `backend` at `tag` on `os`/`arch`.
pub fn install_plan(os: &str, arch: &str, backend: &str, tag: &str) -> (r: Result<InstallPlan, String>)
    ensures
        match r {
            Err(e) => install_refusal(os@, arch@, backend@, tag@) == Some(e@),
            Ok(p) => install_refusal(os@, arch@, backend@, tag@) is None && (row_by_id(
                backend_table(os@, arch@),
                backend@,
            ) matches Some(row) && p.id@ == build_id_of(backend@, tag@) && p.label@ == row.1
                && p.archive_url@ == asset_url_of(tag@, row.2, false) && match p.cudart_url {
                Some(u) => row.3 && u@ == asset_url_of(tag@, row.2, true),
                None => !row.3,
            }),
        },
{
    let option = match option_by_id(os, arch, backend) {
        Some(o) => o,
        None => {
            let mut v = lit("backend ");
            extend(&mut v, &lit(backend));
            extend(&mut v, &lit(" is not available on this platform"));
            return Err(string_of(&v));
        },
    };
    if !is_build_tag(tag) {
        let mut v = lit(tag);
        extend(&mut v, &lit(" is not a llama.cpp build tag"));
        return Err(string_of(&v));
    }
    let cudart_url = if option.has_cudart {
        Some(asset_url(tag, option.suffix, true))
    } else {
        None
    };
    Ok(
        InstallPlan {
            id: build_id(backend, tag),
            label: option.label,
            archive_url: asset_url(tag, option.suffix, false),
            cudart_url,
        },
    )
}

/// The files of an unpacked build that get the executable bit: the
/// `llama-*` programs (names without a dot).
pub open spec fn marked_executable(name: Seq<char>) -> bool {
    starts_with(name, "llama-"@) && !contains(name, "."@)
}

pub fn is_build_program(name: &str) -> (b: bool)
    ensures
        b == marked_executable(name@),
{
    let v = chars_of(name);
    starts_with_exec(&v, &lit("llama-")) && !contains_exec(&v, &lit("."))
}


/// Why an install of `backend` at `tag` does not start, checked in order:
/// the backend is not offered here, the tag is not a build tag, or the
/// build is already installed (`installed`: its marker file exists).
pub open spec fn install_start_refusal(
    os: Seq<char>,
    arch: Seq<char>,
    backend: Seq<char>,
    tag: Seq<char>,
    installed: bool,
) -> Option<Seq<char>> {
    match install_refusal(os, arch, backend, tag) {
        Some(e) => Some(e),
        None => if installed {
            Some(build_id_of(backend, tag) + " is already installed"@)
        } else {
            None
        },
    }
}

/// The downloads of an install, or why it does not start; `installed`
/// says whether the marker file of `build_id(backend, tag)` exists.
pub fn install_start(os: &str, arch: &str, backend: &str, tag: &str, installed: bool) -> (r: Result<
    InstallPlan,
    String,
>)
    ensures
        match r {
            Err(e) => install_start_refusal(os@, arch@, backend@, tag@, installed) == Some(e@),
            Ok(p) => install_start_refusal(os@, arch@, backend@, tag@, installed) is None && (row_by_id(
                backend_table(os@, arch@),
                backend@,
            ) matches Some(row) && p.id@ == build_id_of(backend@, tag@) && p.label@ == row.1
                && p.archive_url@ == asset_url_of(tag@, row.2, false) && match p.cudart_url {
                Some(u) => row.3 && u@ == asset_url_of(tag@, row.2, true),
                None => !row.3,
            }),
        },
{
    let plan = install_plan(os, arch, backend, tag)?;
    if installed {
        let mut v = lit(plan.id.as_str());
        extend(&mut v, &lit(" is already installed"));
        return Err(string_of(&v));
    }
    Ok(plan)
}

/// The install refusals come in order: an unavailable backend is reported
/// whatever the tag and the installed builds; then a tag that is not a
/// build tag, whatever is installed; only then an existing install.
pub proof fn law_install_refusals_in_order(
    os: Seq<char>,
    arch: Seq<char>,
    backend: Seq<char>,
    tag: Seq<char>,
    installed: bool,
)
    ensures
        row_by_id(backend_table(os, arch), backend) is None ==> install_start_refusal(
            os,
            arch,
            backend,
            tag,
            installed,
        ) == Some("backend "@ + backend + " is not available on this platform"@),
        row_by_id(backend_table(os, arch), backend) is Some && !build_tag(tag) ==> install_start_refusal(
            os,
            arch,
            backend,
            tag,
            installed,
        ) == Some(tag + " is not a llama.cpp build tag"@),
        row_by_id(backend_table(os, arch), backend) is Some && build_tag(tag) ==> install_start_refusal(
            os,
            arch,
            backend,
            tag,
            installed,
        ) == (if installed {
            Some(build_id_of(backend, tag) + " is already installed"@)
        } else {
            None
        }),
{
}


/// The platform word of upstream's archive names.
pub open spec fn os_tag(os: Seq<char>) -> Seq<char> {
    if os == "linux"@ {
        "ubuntu"@
    } else {
        "macos"@
    }
}

/// The CPU word of upstream's archive names.
pub open spec fn arch_tag(arch: Seq<char>) -> Seq<char> {
    if arch == "x86_64"@ {
        "x64"@
    } else {
        "arm64"@
    }
}

/// Each backend option installs its own archive: the suffix is the
/// platform, the backend's id (left out for the plain CPU and Metal
/// builds, which upstream names by platform alone) and the CPU, joined by
/// dashes; the CUDA builds, and only they, come with a runtime bundle; no
/// two options for a platform share an id or a suffix; and every Linux
/// platform offers a CPU-only build.
pub proof fn law_backend_archives(os: Seq<char>, arch: Seq<char>)
    ensures
        forall|i: int|
            0 <= i < backend_table(os, arch).len() ==> #[trigger] backend_table(os, arch)[i].2 == os_tag(os)
                + "-"@ + (if backend_table(os, arch)[i].0 == "cpu"@ || backend_table(os, arch)[i].0
                == "metal"@ {
                Seq::<char>::empty()
            } else {
                backend_table(os, arch)[i].0 + "-"@
            }) + arch_tag(arch),
        forall|i: int|
            0 <= i < backend_table(os, arch).len() ==> #[trigger] backend_table(os, arch)[i].3
                == starts_with(backend_table(os, arch)[i].0, "cuda"@),
        forall|i: int, j: int|
            0 <= i < j < backend_table(os, arch).len() ==> backend_table(os, arch)[i].0 != backend_table(
                os,
                arch,
            )[j].0 && backend_table(os, arch)[i].2 != backend_table(os, arch)[j].2,
        (os == "linux"@ && backend_table(os, arch).len() > 0) ==> (row_by_id(
            backend_table(os, arch),
            "cpu"@,
        ) matches Some(r) && r.2 == "ubuntu-"@ + arch_tag(arch)),
{
    reveal_strlit("linux");
    reveal_strlit("macos");
    reveal_strlit("x86_64");
    reveal_strlit("aarch64");
    reveal_strlit("ubuntu");
    reveal_strlit("ubuntu-");
    reveal_strlit("-");
    reveal_strlit("x64");
    reveal_strlit("arm64");
    reveal_strlit("cpu");
    reveal_strlit("metal");
    reveal_strlit("cuda");
    reveal_strlit("vulkan");
    reveal_strlit("cuda-12.8");
    reveal_strlit("cuda-13.3");
    reveal_strlit("rocm-10.0");
    reveal_strlit("ubuntu-vulkan-x64");
    reveal_strlit("ubuntu-cuda-12.8-x64");
    reveal_strlit("ubuntu-cuda-13.3-x64");
    reveal_strlit("ubuntu-rocm-10.0-x64");
    reveal_strlit("ubuntu-x64");
    reveal_strlit("ubuntu-vulkan-arm64");
    reveal_strlit("ubuntu-cuda-13.3-arm64");
    reveal_strlit("ubuntu-arm64");
    reveal_strlit("macos-arm64");
    reveal_strlit("macos-x64");
    let t = backend_table(os, arch);
    let e = Seq::<char>::empty();
    assert("macos"@[0] != "linux"@[0]);
    assert("aarch64"@.len() != "x86_64"@.len());
    if os == "linux"@ && arch == "x86_64"@ {
        assert("ubuntu-vulkan-x64"@ =~= "ubuntu"@ + "-"@ + ("vulkan"@ + "-"@) + "x64"@);
        assert("ubuntu-cuda-12.8-x64"@ =~= "ubuntu"@ + "-"@ + ("cuda-12.8"@ + "-"@) + "x64"@);
        assert("ubuntu-cuda-13.3-x64"@ =~= "ubuntu"@ + "-"@ + ("cuda-13.3"@ + "-"@) + "x64"@);
        assert("ubuntu-rocm-10.0-x64"@ =~= "ubuntu"@ + "-"@ + ("rocm-10.0"@ + "-"@) + "x64"@);
        assert("ubuntu-x64"@ =~= "ubuntu"@ + "-"@ + e + "x64"@);
        assert("ubuntu-x64"@ =~= "ubuntu-"@ + "x64"@);
        assert(starts_with("cuda-12.8"@, "cuda"@)) by {
            assert("cuda-12.8"@.take(4) =~= "cuda"@);
        }
        assert(starts_with("cuda-13.3"@, "cuda"@)) by {
            assert("cuda-13.3"@.take(4) =~= "cuda"@);
        }
        assert(!starts_with("vulkan"@, "cuda"@)) by {
            assert("vulkan"@.take(4)[0] != "cuda"@[0]);
        }
        assert(!starts_with("rocm-10.0"@, "cuda"@)) by {
            assert("rocm-10.0"@.take(4)[0] != "cuda"@[0]);
        }
        assert(!starts_with("cpu"@, "cuda"@));
        assert("vulkan"@ != "cpu"@ && "vulkan"@ != "metal"@);
        assert("cuda-12.8"@ != "cpu"@ && "cuda-12.8"@ != "metal"@);
        assert("cuda-13.3"@ != "cpu"@ && "cuda-13.3"@ != "metal"@);
        assert("rocm-10.0"@ != "cpu"@ && "rocm-10.0"@ != "metal"@);
        assert("cuda-12.8"@[6] != "cuda-13.3"@[6]);
        assert("ubuntu-cuda-12.8-x64"@[13] != "ubuntu-cuda-13.3-x64"@[13]);
        assert("vulkan"@[0] != "cuda-12.8"@[0] && "vulkan"@[0] != "rocm-10.0"@[0]);
        assert("cuda-12.8"@[0] != "rocm-10.0"@[0] && "cuda-13.3"@[0] != "rocm-10.0"@[0]);
        assert("ubuntu-vulkan-x64"@[7] != "ubuntu-cuda-12.8-x64"@[7]);
        assert("ubuntu-vulkan-x64"@[7] != "ubuntu-rocm-10.0-x64"@[7]);
        assert("ubuntu-cuda-12.8-x64"@[7] != "ubuntu-rocm-10.0-x64"@[7]);
        assert("ubuntu-cuda-13.3-x64"@[7] != "ubuntu-rocm-10.0-x64"@[7]);
        let t1 = t.drop_first();
        let t2 = t1.drop_first();
        let t3 = t2.drop_first();
        let t4 = t3.drop_first();
        assert(t4[0] == t[4] && t3[0] == t[3] && t2[0] == t[2] && t1[0] == t[1]);
        assert(row_by_id(t4, "cpu"@) == Some(t[4]));
        assert(row_by_id(t3, "cpu"@) == Some(t[4]));
        assert(row_by_id(t2, "cpu"@) == Some(t[4]));
        assert(row_by_id(t1, "cpu"@) == Some(t[4]));
        assert(row_by_id(t, "cpu"@) == Some(t[4]));
        assert forall|i: int| 0 <= i < t.len() implies #[trigger] t[i].2 == os_tag(os) + "-"@ + (if t[i].0
            == "cpu"@ || t[i].0 == "metal"@ {
            Seq::<char>::empty()
        } else {
            t[i].0 + "-"@
        }) + arch_tag(arch) by {
            assert(i == 0 || i == 1 || i == 2 || i == 3 || i == 4);
        }
    } else if os == "linux"@ && arch == "aarch64"@ {
        assert("ubuntu-vulkan-arm64"@ =~= "ubuntu"@ + "-"@ + ("vulkan"@ + "-"@) + "arm64"@);
        assert("ubuntu-cuda-13.3-arm64"@ =~= "ubuntu"@ + "-"@ + ("cuda-13.3"@ + "-"@) + "arm64"@);
        assert("ubuntu-arm64"@ =~= "ubuntu"@ + "-"@ + e + "arm64"@);
        assert("ubuntu-arm64"@ =~= "ubuntu-"@ + "arm64"@);
        assert(starts_with("cuda-13.3"@, "cuda"@)) by {
            assert("cuda-13.3"@.take(4) =~= "cuda"@);
        }
        assert(!starts_with("vulkan"@, "cuda"@)) by {
            assert("vulkan"@.take(4)[0] != "cuda"@[0]);
        }
        assert(!starts_with("cpu"@, "cuda"@));
        assert("vulkan"@ != "cpu"@ && "vulkan"@ != "metal"@);
        assert("cuda-13.3"@ != "cpu"@ && "cuda-13.3"@ != "metal"@);
        assert("vulkan"@[0] != "cuda-13.3"@[0]);
        assert("ubuntu-vulkan-arm64"@[7] != "ubuntu-cuda-13.3-arm64"@[7]);
        let t1 = t.drop_first();
        let t2 = t1.drop_first();
        assert(t2[0] == t[2] && t1[0] == t[1]);
        assert(row_by_id(t2, "cpu"@) == Some(t[2]));
        assert(row_by_id(t1, "cpu"@) == Some(t[2]));
        assert(row_by_id(t, "cpu"@) == Some(t[2]));
        assert forall|i: int| 0 <= i < t.len() implies #[trigger] t[i].2 == os_tag(os) + "-"@ + (if t[i].0
            == "cpu"@ || t[i].0 == "metal"@ {
            Seq::<char>::empty()
        } else {
            t[i].0 + "-"@
        }) + arch_tag(arch) by {
            assert(i == 0 || i == 1 || i == 2);
        }
    } else if os == "macos"@ && arch == "aarch64"@ {
        assert("macos-arm64"@ =~= "macos"@ + "-"@ + e + "arm64"@);
        assert(!starts_with("metal"@, "cuda"@)) by {
            assert("metal"@.take(4)[0] != "cuda"@[0]);
        }
    } else if os == "macos"@ && arch == "x86_64"@ {
        assert("macos-x64"@ =~= "macos"@ + "-"@ + e + "x64"@);
        assert(!starts_with("cpu"@, "cuda"@));
    }
}

} // verus!
