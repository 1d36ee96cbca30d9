//! In-app updates from GitHub Releases: which release each track offers,
//! which asset this platform downloads, and whether a download looks like
//! a build of this app.
use vstd::prelude::*;
use crate::text::{chars_of, dec, extend, lit, push_dec, string_of, vec_eq};

verus! {

pub const REPO: &'static str = "ViriatusOG/llama-admin-monitor";

/// Anything smaller than this is an error page, not a build of this app.
pub const MIN_BINARY_BYTES: u64 = 1_000_000;

/// One downloadable file of a release, as the GitHub API lists it.
#[derive(Debug, Clone)]
pub struct GhAsset {
    pub name: String,
    pub browser_download_url: String,
}

/// A release as the GitHub API lists it.
#[derive(Debug, Clone)]
pub struct GhRelease {
    pub tag_name: String,
    pub prerelease: bool,
    pub draft: bool,
    pub published_at: Option<String>,
    pub html_url: String,
    pub assets: Vec<GhAsset>,
}

#[derive(Debug, Clone, PartialEq)]
pub struct ReleaseInfo {
    pub tag: String,
    pub version: String,
    pub prerelease: bool,
    pub published_at: String,
    pub url: String,
    /// Download URL of this platform's asset, when the release ships one.
    pub asset_url: Option<String>,
}

#[derive(Debug, Clone)]
pub struct UpdateStatus {
    pub current_track: &'static str,
    pub current_version: String,
    pub platform_asset: Option<String>,
    pub stable: Option<ReleaseInfo>,
    pub beta: Option<ReleaseInfo>,
    /// True when the current track has a release newer than this build.
    pub update_available: bool,
}

pub open spec fn opt_str(o: Option<String>) -> Option<Seq<char>> {
    match o {
        Some(s) => Some(s@),
        None => None,
    }
}

/// `s` without its leading `c` characters.
pub open spec fn trim_start_char(s: Seq<char>, c: char) -> Seq<char>
    decreases s.len(),
{
    if s.len() > 0 && s[0] == c {
        trim_start_char(s.drop_first(), c)
    } else {
        s
    }
}

fn trim_start_char_exec(v: &Vec<char>, c: char) -> (out: Vec<char>)
    ensures
        out@ == trim_start_char(v@, c),
{
    let mut k: usize = 0;
    assert(v@.skip(0) =~= v@);
    while k < v.len() && v[k] == c
        invariant
            k <= v.len(),
            trim_start_char(v@, c) == trim_start_char(v@.skip(k as int), c),
        decreases v.len() - k,
    {
        assert(v@.skip(k as int).drop_first() =~= v@.skip(k + 1));
        k += 1;
    }
    crate::text::slice_of(v, k, v.len())
}

/// A version as shown to users: the tag without its leading `v`s.
pub fn version_from_tag(tag: &str) -> (v: String)
    ensures
        v@ == trim_start_char(tag@, 'v'),
{
    let out = trim_start_char_exec(&chars_of(tag), 'v');
    assert(out@ =~= trim_start_char(tag@, 'v'));
    string_of(&out)
}

/// Release track this binary was built for: the one baked in by the
/// release workflow ("main" or "beta"), or "dev" for a local build (which
/// never offers updates to itself).
pub fn current_track(baked: Option<&'static str>) -> (t: &'static str)
    ensures
        t@ == match baked {
            Some(b) => b@,
            None => "dev"@,
        },
{
    match baked {
        Some(b) => b,
        None => "dev",
    }
}

/// The version this binary was built as: the baked-in release tag without
/// its `v`, else the crate version of a local build.
pub fn current_version(baked_tag: Option<&str>, crate_version: &str) -> (v: String)
    ensures
        v@ == match baked_tag {
            Some(t) => trim_start_char(t@, 'v'),
            None => crate_version@,
        },
{
    match baked_tag {
        Some(t) => version_from_tag(t),
        None => string_of(&chars_of(crate_version)),
    }
}

/// Name of the release asset for an OS and CPU (as `std::env::consts`
/// names them), matching the release workflow.
pub open spec fn platform_asset_of(os: Seq<char>, arch: Seq<char>) -> Option<Seq<char>> {
    if (os == "linux"@ || os == "macos"@) && (arch == "x86_64"@ || arch == "aarch64"@) {
        Some("llama-admin-monitor-"@ + os + "-"@ + arch)
    } else {
        None
    }
}

pub fn platform_asset(os: &str, arch: &str) -> (r: Option<String>)
    ensures
        opt_str(r) == platform_asset_of(os@, arch@),
{
    let o = chars_of(os);
    let a = chars_of(arch);
    if (vec_eq(&o, &lit("linux")) || vec_eq(&o, &lit("macos"))) && (vec_eq(&a, &lit("x86_64"))
        || vec_eq(&a, &lit("aarch64"))) {
        let mut v = lit("llama-admin-monitor-");
        extend(&mut v, &o);
        extend(&mut v, &lit("-"));
        extend(&mut v, &a);
        Some(string_of(&v))
    } else {
        None
    }
}

/// The download URL of the first asset named `name`.
pub open spec fn asset_url_in(assets: Seq<GhAsset>, name: Seq<char>) -> Option<Seq<char>>
    decreases assets.len(),
{
    if assets.len() == 0 {
        None
    } else if assets[0].name@ == name {
        Some(assets[0].browser_download_url@)
    } else {
        asset_url_in(assets.drop_first(), name)
    }
}

/// (tag, version, prerelease, published_at, url, asset_url) of a release.
pub type InfoView = (Seq<char>, Seq<char>, bool, Seq<char>, Seq<char>, Option<Seq<char>>);

pub open spec fn info_view(i: ReleaseInfo) -> InfoView {
    (i.tag@, i.version@, i.prerelease, i.published_at@, i.url@, opt_str(i.asset_url))
}

/// What the UI shows of a release; the asset URL is that of `asset`.
pub open spec fn to_info_spec(r: GhRelease, asset: Option<Seq<char>>) -> InfoView {
    (
        r.tag_name@,
        trim_start_char(r.tag_name@, 'v'),
        r.prerelease,
        match r.published_at {
            Some(p) => p@,
            None => seq![],
        },
        r.html_url@,
        match asset {
            Some(name) => asset_url_in(r.assets@, name),
            None => None,
        },
    )
}

fn find_asset_url(assets: &Vec<GhAsset>, name: &str) -> (u: Option<String>)
    ensures
        opt_str(u) == asset_url_in(assets@, name@),
{
    let want = chars_of(name);
    let mut k: usize = 0;
    assert(assets@.skip(0) =~= assets@);
    while k < assets.len()
        invariant
            k <= assets.len(),
            want@ == name@,
            asset_url_in(assets@, name@) == asset_url_in(assets@.skip(k as int), name@),
        decreases assets.len() - k,
    {
        assert(assets@.skip(k as int)[0] == assets@[k as int]);
        if vec_eq(&chars_of(assets[k].name.as_str()), &want) {
            return Some(assets[k].browser_download_url.clone());
        }
        assert(assets@.skip(k as int).drop_first() =~= assets@.skip(k + 1));
        k += 1;
    }
    None
}

fn to_info(r: &GhRelease, asset: Option<&str>) -> (i: ReleaseInfo)
    ensures
        info_view(i) == to_info_spec(
            *r,
            match asset {
                Some(a) => Some(a@),
                None => None,
            },
        ),
{
    let asset_url = match asset {
        Some(name) => find_asset_url(&r.assets, name),
        None => None,
    };
    ReleaseInfo {
        tag: r.tag_name.clone(),
        version: version_from_tag(r.tag_name.as_str()),
        prerelease: r.prerelease,
        published_at: match &r.published_at {
            Some(p) => p.clone(),
            None => String::new(),
        },
        url: r.html_url.clone(),
        asset_url,
    }
}

/// The first published (not draft) release whose prerelease flag is
/// `pre`.
pub open spec fn first_on_track(rs: Seq<GhRelease>, pre: bool) -> Option<GhRelease>
    decreases rs.len(),
{
    if rs.len() == 0 {
        None
    } else if !rs[0].draft && rs[0].prerelease == pre {
        Some(rs[0])
    } else {
        first_on_track(rs.drop_first(), pre)
    }
}

pub open spec fn track_info(rs: Seq<GhRelease>, pre: bool, asset: Option<Seq<char>>) -> Option<InfoView> {
    match first_on_track(rs, pre) {
        Some(r) => Some(to_info_spec(r, asset)),
        None => None,
    }
}

pub open spec fn opt_info(i: Option<ReleaseInfo>) -> Option<InfoView> {
    match i {
        Some(x) => Some(info_view(x)),
        None => None,
    }
}

/// Each track follows its own kind of release: the stable track never
/// picks a pre-release and the beta track only pre-releases, neither picks
/// a draft, and the pick is the first such release listed (GitHub lists the
/// newest first).
pub proof fn law_tracks_pick_their_kind(rs: Seq<GhRelease>, pre: bool)
    ensures
        first_on_track(rs, pre) matches Some(r) ==> exists|k: int|
            #![trigger rs[k]]
            0 <= k < rs.len() && rs[k] == r && !r.draft && r.prerelease == pre && forall|j: int|
                0 <= j < k ==> (#[trigger] rs[j]).draft || rs[j].prerelease != pre,
        first_on_track(rs, pre) is None ==> forall|j: int|
            0 <= j < rs.len() ==> (#[trigger] rs[j]).draft || rs[j].prerelease != pre,
    decreases rs.len(),
{
    if rs.len() > 0 {
        let rest = rs.drop_first();
        law_tracks_pick_their_kind(rest, pre);
        if !rs[0].draft && rs[0].prerelease == pre {
            assert(rs[0] == first_on_track(rs, pre)->0);
        } else {
            match first_on_track(rest, pre) {
                Some(r) => {
                    let k = choose|k: int|
                        #![trigger rest[k]]
                        0 <= k < rest.len() && rest[k] == r && !r.draft && r.prerelease == pre
                            && forall|j: int|
                            0 <= j < k ==> (#[trigger] rest[j]).draft || rest[j].prerelease != pre;
                    assert(rs[k + 1] == r);
                    assert forall|j: int| 0 <= j < k + 1 implies (#[trigger] rs[j]).draft
                        || rs[j].prerelease != pre by {
                        if j > 0 {
                            assert(rs[j] == rest[j - 1]);
                        }
                    }
                },
                None => {
                    assert forall|j: int| 0 <= j < rs.len() implies (#[trigger] rs[j]).draft
                        || rs[j].prerelease != pre by {
                        if j > 0 {
                            assert(rs[j] == rest[j - 1]);
                        }
                    }
                },
            }
        }
    }
}

fn first_on_track_exec(releases: &[GhRelease], pre: bool, asset: Option<&str>) -> (r: Option<ReleaseInfo>)
    ensures
        opt_info(r) == track_info(
            releases@,
            pre,
            match asset {
                Some(a) => Some(a@),
                None => None,
            },
        ),
{
    let mut k: usize = 0;
    assert(releases@.skip(0) =~= releases@);
    while k < releases.len()
        invariant
            k <= releases.len(),
            first_on_track(releases@, pre) == first_on_track(releases@.skip(k as int), pre),
        decreases releases.len() - k,
    {
        assert(releases@.skip(k as int)[0] == releases@[k as int]);
        if !releases[k].draft && releases[k].prerelease == pre {
            return Some(to_info(&releases[k], asset));
        }
        assert(releases@.skip(k as int).drop_first() =~= releases@.skip(k + 1));
        k += 1;
    }
    None
}

/// Latest stable (non-prerelease) and latest beta (prerelease) releases.
/// GitHub lists releases newest first, so the first match of each kind
/// wins; drafts are skipped.
pub fn latest_per_track(releases: &[GhRelease], asset: Option<&str>) -> (r: (
    Option<ReleaseInfo>,
    Option<ReleaseInfo>,
))
    ensures
        opt_info(r.0) == track_info(
            releases@,
            false,
            match asset {
                Some(a) => Some(a@),
                None => None,
            },
        ),
        opt_info(r.1) == track_info(
            releases@,
            true,
            match asset {
                Some(a) => Some(a@),
                None => None,
            },
        ),
{
    (first_on_track_exec(releases, false, asset), first_on_track_exec(releases, true, asset))
}

/// Whether the running build's track has a release other than the running
/// version: "main" follows stable, "beta" follows beta, anything else
/// never updates.
pub open spec fn update_available_spec(
    track: Seq<char>,
    stable: Option<InfoView>,
    beta: Option<InfoView>,
    version: Seq<char>,
) -> bool {
    let latest = if track == "beta"@ {
        beta
    } else if track == "main"@ {
        stable
    } else {
        None
    };
    match latest {
        Some(r) => r.1 != version,
        None => false,
    }
}

pub fn update_available(
    track: &str,
    stable: &Option<ReleaseInfo>,
    beta: &Option<ReleaseInfo>,
    version: &str,
) -> (b: bool)
    ensures
        b == update_available_spec(track@, opt_info(*stable), opt_info(*beta), version@),
{
    let t = chars_of(track);
    let latest = if vec_eq(&t, &lit("beta")) {
        beta
    } else if vec_eq(&t, &lit("main")) {
        stable
    } else {
        return false;
    };
    match latest {
        Some(r) => !vec_eq(&chars_of(r.version.as_str()), &chars_of(version)),
        None => false,
    }
}

/// True when `bytes` starts like a native executable (ELF, or one of the
/// Mach-O magics), so an HTML error page or a truncated download is never
/// swapped in.
pub open spec fn executable_magic(b: Seq<u8>) -> bool {
    b.len() >= 4 && {
        let m = b.subrange(0, 4);
        m == seq![0x7fu8, 0x45u8, 0x4cu8, 0x46u8] || m == seq![0xfeu8, 0xedu8, 0xfau8, 0xceu8]
            || m == seq![0xfeu8, 0xedu8, 0xfau8, 0xcfu8] || m == seq![0xceu8, 0xfau8, 0xedu8, 0xfeu8]
            || m == seq![0xcfu8, 0xfau8, 0xedu8, 0xfeu8] || m == seq![0xcau8, 0xfeu8, 0xbau8, 0xbeu8]
    }
}

fn magic_is(b: &[u8], m: [u8; 4]) -> (r: bool)
    requires
        b@.len() >= 4,
    ensures
        r == (b@.subrange(0, 4) == m@),
{
    let r = b[0] == m[0] && b[1] == m[1] && b[2] == m[2] && b[3] == m[3];
    proof {
        if r {
            assert(b@.subrange(0, 4) =~= m@);
        } else {
            if b@.subrange(0, 4) == m@ {
                assert(b@.subrange(0, 4)[0] == m@[0]);
                assert(b@.subrange(0, 4)[1] == m@[1]);
                assert(b@.subrange(0, 4)[2] == m@[2]);
                assert(b@.subrange(0, 4)[3] == m@[3]);
            }
        }
    }
    r
}

pub fn looks_like_executable(bytes: &[u8]) -> (b: bool)
    ensures
        b == executable_magic(bytes@),
{
    if bytes.len() < 4 {
        return false;
    }
    let r = magic_is(bytes, [0x7f, 0x45, 0x4c, 0x46]) || magic_is(bytes, [0xfe, 0xed, 0xfa, 0xce])
        || magic_is(bytes, [0xfe, 0xed, 0xfa, 0xcf]) || magic_is(bytes, [0xce, 0xfa, 0xed, 0xfe])
        || magic_is(bytes, [0xcf, 0xfa, 0xed, 0xfe]) || magic_is(bytes, [0xca, 0xfe, 0xba, 0xbe]);
    proof {
        assert([0x7fu8, 0x45u8, 0x4cu8, 0x46u8]@ =~= seq![0x7fu8, 0x45u8, 0x4cu8, 0x46u8]);
        assert([0xfeu8, 0xedu8, 0xfau8, 0xceu8]@ =~= seq![0xfeu8, 0xedu8, 0xfau8, 0xceu8]);
        assert([0xfeu8, 0xedu8, 0xfau8, 0xcfu8]@ =~= seq![0xfeu8, 0xedu8, 0xfau8, 0xcfu8]);
        assert([0xceu8, 0xfau8, 0xedu8, 0xfeu8]@ =~= seq![0xceu8, 0xfau8, 0xedu8, 0xfeu8]);
        assert([0xcfu8, 0xfau8, 0xedu8, 0xfeu8]@ =~= seq![0xcfu8, 0xfau8, 0xedu8, 0xfeu8]);
        assert([0xcau8, 0xfeu8, 0xbau8, 0xbeu8]@ =~= seq![0xcau8, 0xfeu8, 0xbau8, 0xbeu8]);
    }
    r
}


/// Why a finished download is not swapped in: it is shorter or longer
/// than the server announced, too small to be a build, or does not start
/// like an executable (`head` is its first bytes).
pub open spec fn download_refusal(expected: Option<u64>, written: u64, head: Seq<u8>) -> Option<
    Seq<char>,
> {
    if expected matches Some(e) && e != written {
        Some(
            "download incomplete: "@ + dec(written as nat) + " of "@ + dec(expected->0 as nat)
                + " bytes"@,
        )
    } else if written < MIN_BINARY_BYTES {
        Some("downloaded file is too small to be a build ("@ + dec(written as nat) + " bytes)"@)
    } else if !executable_magic(head) {
        Some("downloaded file is not an executable for this platform"@)
    } else {
        None
    }
}

pub fn check_download(expected: Option<u64>, written: u64, head: &[u8]) -> (r: Result<(), String>)
    ensures
        match r {
            Ok(()) => download_refusal(expected, written, head@) is None,
            Err(e) => download_refusal(expected, written, head@) == Some(e@),
        },
{
    match expected {
        Some(e) => if e != written {
            let mut v = lit("download incomplete: ");
            push_dec(&mut v, written);
            extend(&mut v, &lit(" of "));
            push_dec(&mut v, e);
            extend(&mut v, &lit(" bytes"));
            return Err(string_of(&v));
        },
        None => {},
    }
    if written < MIN_BINARY_BYTES {
        let mut v = lit("downloaded file is too small to be a build (");
        push_dec(&mut v, written);
        extend(&mut v, &lit(" bytes)"));
        return Err(string_of(&v));
    }
    if !looks_like_executable(head) {
        return Err(string_of(&lit("downloaded file is not an executable for this platform")));
    }
    Ok(())
}

/// The download URL an update to `track` fetches, given the newest
/// stable and beta releases (as `latest_per_track` gives them, with the
/// URLs of `asset`); the error says what is missing.
pub open spec fn update_url_of(
    track: Seq<char>,
    stable: Option<InfoView>,
    beta: Option<InfoView>,
    asset: Seq<char>,
) -> Result<Seq<char>, Seq<char>> {
    let target = if track == "main"@ {
        Ok(stable)
    } else if track == "beta"@ {
        Ok(beta)
    } else {
        Err("unknown track "@ + track)
    };
    match target {
        Err(e) => Err(e),
        Ok(None) => Err("no published release on the "@ + track + " track yet"@),
        Ok(Some(r)) => match r.5 {
            Some(u) => Ok(u),
            None => Err("release "@ + r.0 + " has no "@ + asset + " asset"@),
        },
    }
}

pub fn update_url(
    track: &str,
    stable: &Option<ReleaseInfo>,
    beta: &Option<ReleaseInfo>,
    asset: &str,
) -> (r: Result<String, String>)
    ensures
        match (r, update_url_of(track@, opt_info(*stable), opt_info(*beta), asset@)) {
            (Ok(u), Ok(w)) => u@ == w,
            (Err(e), Err(f)) => e@ == f,
            _ => false,
        },
{
    let t = chars_of(track);
    let target = if vec_eq(&t, &lit("main")) {
        stable
    } else if vec_eq(&t, &lit("beta")) {
        beta
    } else {
        let mut v = lit("unknown track ");
        extend(&mut v, &t);
        return Err(string_of(&v));
    };
    match target {
        None => {
            let mut v = lit("no published release on the ");
            extend(&mut v, &t);
            extend(&mut v, &lit(" track yet"));
            Err(string_of(&v))
        },
        Some(r) => match &r.asset_url {
            Some(u) => Ok(u.clone()),
            None => {
                let mut v = lit("release ");
                extend(&mut v, &chars_of(r.tag.as_str()));
                extend(&mut v, &lit(" has no "));
                extend(&mut v, &lit(asset));
                extend(&mut v, &lit(" asset"));
                Err(string_of(&v))
            },
        },
    }
}


/// Nothing that `trim_start_char` leaves starts with `c`.
pub proof fn lemma_trim_start_char(s: Seq<char>, c: char)
    ensures
        trim_start_char(s, c).len() == 0 || trim_start_char(s, c)[0] != c,
    decreases s.len(),
{
    if s.len() > 0 && s[0] == c {
        lemma_trim_start_char(s.drop_first(), c);
    }
}

/// The version shown never starts with `v`: a baked-in tag loses all its
/// leading `v`s, and a crate version (which Cargo requires to start with a
/// digit) has none.
pub proof fn law_version_has_no_v(baked_tag: Option<Seq<char>>, crate_version: Seq<char>)
    requires
        crate_version.len() == 0 || crate_version[0] != 'v',
    ensures
        ({
            let v = match baked_tag {
                Some(t) => trim_start_char(t, 'v'),
                None => crate_version,
            };
            v.len() == 0 || v[0] != 'v'
        }),
{
    if let Some(t) = baked_tag {
        lemma_trim_start_char(t, 'v');
    }
}

/// The track is one of "main", "beta" and "dev" whenever the release
/// workflow baked in "main" or "beta" (or nothing).
pub proof fn law_track_is_known(baked: Option<Seq<char>>)
    requires
        baked matches Some(b) ==> (b == "main"@ || b == "beta"@),
    ensures
        ({
            let t = match baked {
                Some(b) => b,
                None => "dev"@,
            };
            t == "main"@ || t == "beta"@ || t == "dev"@
        }),
{
}

} // verus!
