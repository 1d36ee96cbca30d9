//! The HTTP side's own rules: which proxied headers belong to one hop of
//! a connection rather than to the message, where the `/v1` proxy sends a
//! request and what it answers when the server is unreachable, and the
//! dashboard page stamped with the build, and the file browser's listing.
use vstd::prelude::*;
use crate::order::{sorted_order, stable_order, text_le};
use crate::text::{
    chars_of, contains, contains_exec, dec, ends_with, ends_with_exec, eq_ignore_case, extend, lit,
    lower_vec, push_dec, replace_all, replace_all_exec, starts_with, starts_with_exec, string_of,
    vec_eq, views,
};

verus! {

/// Headers that describe one hop of a connection rather than the message,
/// plus `host`. Forwarding them from the upstream reply would let hyper
/// re-frame a body that already carries a length or chunking declaration.
pub open spec fn hop_by_hop(name: Seq<char>) -> bool {
    eq_ignore_case("connection"@, name) || eq_ignore_case("keep-alive"@, name) || eq_ignore_case(
        "proxy-authenticate"@,
        name,
    ) || eq_ignore_case("proxy-authorization"@, name) || eq_ignore_case("te"@, name)
        || eq_ignore_case("trailer"@, name) || eq_ignore_case("transfer-encoding"@, name)
        || eq_ignore_case("upgrade"@, name) || eq_ignore_case("content-length"@, name)
        || eq_ignore_case(name, "host"@)
}

pub fn is_hop_by_hop(name: &str) -> (b: bool)
    ensures
        b == hop_by_hop(name@),
{
    let n = lower_vec(&chars_of(name));
    vec_eq(&lower_vec(&lit("connection")), &n) || vec_eq(&lower_vec(&lit("keep-alive")), &n)
        || vec_eq(&lower_vec(&lit("proxy-authenticate")), &n) || vec_eq(
        &lower_vec(&lit("proxy-authorization")),
        &n,
    ) || vec_eq(&lower_vec(&lit("te")), &n) || vec_eq(&lower_vec(&lit("trailer")), &n) || vec_eq(
        &lower_vec(&lit("transfer-encoding")),
        &n,
    ) || vec_eq(&lower_vec(&lit("upgrade")), &n) || vec_eq(&lower_vec(&lit("content-length")), &n)
        || vec_eq(&n, &lower_vec(&lit("host")))
}


/// The headers a proxied message keeps: all but the hop-by-hop ones, in
/// their order.
pub open spec fn forwarded<V>(headers: Seq<(String, V)>) -> Seq<(String, V)>
    decreases headers.len(),
{
    if headers.len() == 0 {
        seq![]
    } else {
        let before = forwarded(headers.drop_last());
        if hop_by_hop(headers.last().0@) {
            before
        } else {
            before.push(headers.last())
        }
    }
}

/// The proxy strips exactly the hop-by-hop headers, in both directions:
/// none of them is forwarded, and every other header is.
pub proof fn law_proxy_strips_only_hop_by_hop<V>(headers: Seq<(String, V)>)
    ensures
        forall|i: int|
            0 <= i < forwarded(headers).len() ==> !hop_by_hop(#[trigger] forwarded(headers)[i].0@),
        forall|i: int|
            0 <= i < headers.len() && !hop_by_hop(#[trigger] headers[i].0@) ==> forwarded(
                headers,
            ).contains(headers[i]),
    decreases headers.len(),
{
    if headers.len() > 0 {
        let init = headers.drop_last();
        law_proxy_strips_only_hop_by_hop(init);
        let before = forwarded(init);
        assert forall|i: int| 0 <= i < forwarded(headers).len() implies !hop_by_hop(
            #[trigger] forwarded(headers)[i].0@,
        ) by {
            if i < before.len() {
                assert(forwarded(headers)[i] == before[i]);
            }
        }
        assert forall|i: int| 0 <= i < headers.len() && !hop_by_hop(#[trigger] headers[i].0@) implies forwarded(
            headers,
        ).contains(headers[i]) by {
            if i < headers.len() - 1 {
                assert(init[i] == headers[i]);
                let w = choose|w: int| 0 <= w < before.len() && before[w] == init[i];
                if !hop_by_hop(headers.last().0@) {
                    assert(forwarded(headers)[w] == headers[i]);
                }
            } else {
                assert(forwarded(headers).last() == headers[i]);
            }
        }
    }
}

/// Strips the hop-by-hop headers from a proxied request or reply.
pub fn forwarded_headers<V>(headers: Vec<(String, V)>) -> (out: Vec<(String, V)>)
    ensures
        out@ == forwarded(headers@),
{
    let ghost h0 = headers@;
    let total = headers.len();
    let mut rest = headers;
    let mut kept: Vec<(String, V)> = Vec::new();
    let mut n: usize = 0;
    while rest.len() > 0
        invariant
            n + rest.len() == total,
            total == h0.len(),
            rest@ == h0.skip(n as int),
            kept@ == forwarded(h0.take(n as int)),
        decreases rest.len(),
    {
        assert(rest@[0] == h0[n as int]);
        let h = rest.remove(0);
        assert(rest@ =~= h0.skip(n + 1));
        assert(h0.take(n + 1).drop_last() =~= h0.take(n as int));
        assert(h0.take(n + 1).last() == h);
        if !is_hop_by_hop(h.0.as_str()) {
            kept.push(h);
        }
        n += 1;
    }
    assert(h0.take(n as int) =~= h0);
    kept
}

/// The running server's port, or llama-server's default 8080 when no
/// server was started.
pub open spec fn proxy_port(port: Option<u16>) -> nat {
    match port {
        Some(p) => p as nat,
        None => 8080,
    }
}

/// Where the `/v1` proxy sends a request for `path` (the part after
/// `/v1/`) with query string `query`.
pub open spec fn proxy_url_of(port: Option<u16>, path: Seq<char>, query: Option<Seq<char>>) -> Seq<
    char,
> {
    "http://127.0.0.1:"@ + dec(proxy_port(port)) + "/v1/"@ + path + match query {
        Some(q) => "?"@ + q,
        None => seq![],
    }
}

pub fn proxy_url(port: Option<u16>, path: &str, query: Option<&str>) -> (u: String)
    ensures
        u@ == proxy_url_of(
            port,
            path@,
            match query {
                Some(q) => Some(q@),
                None => None,
            },
        ),
{
    let mut v = lit("http://127.0.0.1:");
    let p: u16 = match port {
        Some(p) => p,
        None => 8080,
    };
    push_dec(&mut v, p as u64);
    extend(&mut v, &lit("/v1/"));
    extend(&mut v, &lit(path));
    match query {
        Some(q) => {
            extend(&mut v, &lit("?"));
            extend(&mut v, &lit(q));
        },
        None => {},
    }
    string_of(&v)
}

/// The JSON error the proxy answers (with status 502) when the server
/// cannot be reached; double quotes in the message become single quotes.
pub open spec fn proxy_error_of(message: Seq<char>) -> Seq<char> {
    "{\"error\":{\"message\":\""@ + replace_all(message, "\""@, "'"@) + "\",\"type\":\"proxy_error\"}}"@
}

pub fn proxy_error_body(message: &str) -> (b: String)
    ensures
        b@ == proxy_error_of(message@),
{
    proof {
        reveal_strlit("\"");
    }
    let mut v = lit("{\"error\":{\"message\":\"");
    extend(&mut v, &replace_all_exec(&lit(message), &lit("\""), &lit("'")));
    extend(&mut v, &lit("\",\"type\":\"proxy_error\"}}"));
    string_of(&v)
}

/// The badge the dashboard shows for a release track.
pub open spec fn track_badge_of(track: Seq<char>) -> Seq<char> {
    if track == "beta"@ {
        "<span class=\"badge badge-accent track-badge\">BETA</span>"@
    } else if track == "dev"@ {
        "<span class=\"badge badge-dim track-badge\">DEV</span>"@
    } else {
        seq![]
    }
}

pub fn track_badge(track: &str) -> (b: &'static str)
    ensures
        b@ == track_badge_of(track@),
{
    proof {
        reveal_strlit("");
    }
    if vec_eq(&lit(track), &lit("beta")) {
        "<span class=\"badge badge-accent track-badge\">BETA</span>"
    } else if vec_eq(&lit(track), &lit("dev")) {
        "<span class=\"badge badge-dim track-badge\">DEV</span>"
    } else {
        ""
    }
}

/// The dashboard page: the template with the build's version and the
/// track's badge filled in.
pub open spec fn rendered_index_of(template: Seq<char>, version: Seq<char>, track: Seq<char>) -> Seq<
    char,
> {
    replace_all(
        replace_all(template, "{{VERSION}}"@, version),
        "{{BETA_BADGE}}"@,
        track_badge_of(track),
    )
}

pub fn rendered_index(template: &str, version: &str, track: &str) -> (page: String)
    ensures
        page@ == rendered_index_of(template@, version@, track@),
{
    proof {
        reveal_strlit("{{VERSION}}");
        reveal_strlit("{{BETA_BADGE}}");
    }
    let stamped = replace_all_exec(&lit(template), &lit("{{VERSION}}"), &lit(version));
    let badge = track_badge(track);
    string_of(&replace_all_exec(&stamped, &lit("{{BETA_BADGE}}"), &lit(badge)))
}


/// What `str::to_lowercase` gives for `s` (full Unicode lower-casing).
pub uninterp spec fn lowercased(s: Seq<char>) -> Seq<char>;

/// `str::to_lowercase`. Its result is a function of `s` alone, named
/// `lowercased`; what the Unicode case tables map each character to is
/// not stated here.
#[verifier::external_body]
fn to_lowercase(s: &str) -> (r: String)
    ensures
        r@ == lowercased(s@),
{
    s.to_lowercase()
}

/// One entry of a directory as read from disk: whether it is a directory,
/// its size, and whether its permissions let someone execute it.
#[derive(Debug, Clone, PartialEq)]
pub struct BrowseEntry {
    pub name: String,
    pub path: String,
    pub is_dir: bool,
    pub size: u64,
    pub executable: bool,
}

impl BrowseEntry {
    /// A deep copy.
    pub fn duplicate(&self) -> (e: BrowseEntry)
        ensures
            e == *self,
    {
        BrowseEntry {
            name: self.name.clone(),
            path: self.path.clone(),
            is_dir: self.is_dir,
            size: self.size,
            executable: self.executable,
        }
    }
}

/// The browser lists an entry unless it is hidden (a dot file); files
/// must also pass the filter: `gguf` keeps `.gguf` files, `executable`
/// keeps executables, and an empty or unknown filter keeps everything.
pub open spec fn listed_entry(e: BrowseEntry, filter: Seq<char>) -> bool {
    !starts_with(e.name@, "."@) && (e.is_dir || filter.len() == 0 || if filter == "gguf"@ {
        ends_with(e.name@, ".gguf"@)
    } else if filter == "executable"@ {
        e.executable
    } else {
        true
    })
}

pub open spec fn listed_entries(es: Seq<BrowseEntry>, filter: Seq<char>) -> Seq<BrowseEntry>
    decreases es.len(),
{
    if es.len() == 0 {
        seq![]
    } else {
        let before = listed_entries(es.drop_last(), filter);
        if listed_entry(es.last(), filter) {
            before.push(es.last())
        } else {
            before
        }
    }
}

/// Directories first, then by lower-cased name.
pub open spec fn browse_key(e: BrowseEntry) -> Seq<char> {
    seq![if e.is_dir { '0' } else { '1' }] + lowercased(e.name@)
}

pub open spec fn browse_keys(es: Seq<BrowseEntry>) -> Seq<Seq<char>> {
    es.map_values(|e: BrowseEntry| browse_key(e))
}

fn listed_exec(e: &BrowseEntry, filter: &Vec<char>) -> (b: bool)
    ensures
        b == listed_entry(*e, filter@),
{
    let name = chars_of(e.name.as_str());
    if starts_with_exec(&name, &lit(".")) {
        return false;
    }
    if e.is_dir || filter.len() == 0 {
        return true;
    }
    if vec_eq(filter, &lit("gguf")) {
        ends_with_exec(&name, &lit(".gguf"))
    } else if vec_eq(filter, &lit("executable")) {
        e.executable
    } else {
        true
    }
}

/// The file browser's listing of a directory's entries: hidden entries
/// and files the filter rejects left out, directories first, then by
/// lower-cased name (a stable sort).
pub fn browse_listing(entries: Vec<BrowseEntry>, filter: &str) -> (out: Vec<BrowseEntry>)
    ensures
        exists|order: Seq<usize>|
            #[trigger] stable_order(browse_keys(listed_entries(entries@, filter@)), order) && out@
                == order.map_values(|i: usize| listed_entries(entries@, filter@)[i as int]),
{
    let f = lit(filter);
    let ghost e0 = entries@;
    let mut shown: Vec<BrowseEntry> = Vec::new();
    let mut i: usize = 0;
    while i < entries.len()
        invariant
            i <= entries.len(),
            e0 == entries@,
            f@ == filter@,
            shown@ == listed_entries(e0.take(i as int), filter@),
        decreases entries.len() - i,
    {
        assert(e0.take(i + 1).drop_last() =~= e0.take(i as int));
        assert(e0.take(i + 1).last() == entries@[i as int]);
        if listed_exec(&entries[i], &f) {
            shown.push(entries[i].duplicate());
        }
        i += 1;
    }
    assert(e0.take(entries.len() as int) =~= e0);
    let ghost sv = shown@;
    let mut keys: Vec<Vec<char>> = Vec::new();
    let mut k: usize = 0;
    while k < shown.len()
        invariant
            k <= shown.len(),
            sv == shown@,
            views(keys@) == browse_keys(sv.take(k as int)),
        decreases shown.len() - k,
    {
        let mut key = if shown[k].is_dir {
            vec!['0']
        } else {
            vec!['1']
        };
        let lower = to_lowercase(shown[k].name.as_str());
        extend(&mut key, &chars_of(lower.as_str()));
        let ghost before = keys@;
        keys.push(key);
        assert(key@ =~= browse_key(sv[k as int]));
        assert(views(keys@) =~= views(before).push(key@));
        assert(browse_keys(sv.take(k + 1)) =~= browse_keys(sv.take(k as int)).push(browse_key(sv[k as int])));
        k += 1;
    }
    assert(sv.take(shown.len() as int) =~= sv);
    let order = sorted_order(&keys);
    let mut out: Vec<BrowseEntry> = Vec::new();
    let mut j: usize = 0;
    while j < order.len()
        invariant
            j <= order.len(),
            order.len() == shown.len(),
            sv == shown@,
            stable_order(views(keys@), order@),
            out@.len() == j,
            forall|a: int| 0 <= a < j ==> #[trigger] out@[a] == sv[order@[a] as int],
        decreases order.len() - j,
    {
        assert(order@[j as int] < shown.len());
        out.push(shown[order[j]].duplicate());
        j += 1;
    }
    assert(out@ =~= order@.map_values(|i: usize| sv[i as int]));
    out
}


/// A model file the dashboard may delete: a bare `.gguf` file name, with
/// no path separator and no `..` anywhere (no way out of the models
/// directory).
pub open spec fn deletable_name(f: Seq<char>) -> bool {
    &&& f.len() > 0
    &&& !contains(f, "/"@)
    &&& !contains(f, ".."@)
    &&& ends_with(f, ".gguf"@)
}

pub fn is_deletable_name(filename: &str) -> (b: bool)
    ensures
        b == deletable_name(filename@),
{
    let f = chars_of(filename);
    f.len() > 0 && !contains_exec(&f, &lit("/")) && !contains_exec(&f, &lit(".."))
        && ends_with_exec(&f, &lit(".gguf"))
}

/// What a request to delete the model file `f` is answered when refused:
/// a name that is not a bare `.gguf` file, no models directory, or a path
/// that does not resolve inside the models directory (checked in that
/// order).
pub open spec fn delete_refusal_of(f: Seq<char>, dir_configured: bool, inside: bool) -> Option<
    Seq<char>,
> {
    if !deletable_name(f) {
        Some("invalid filename"@)
    } else if !dir_configured {
        Some("no models directory configured"@)
    } else if !inside {
        Some("file not found in models directory"@)
    } else {
        None
    }
}

pub fn delete_refusal(filename: &str, dir_configured: bool, inside: bool) -> (r: Option<
    &'static str,
>)
    ensures
        r is None <==> delete_refusal_of(filename@, dir_configured, inside) is None,
        r matches Some(m) ==> delete_refusal_of(filename@, dir_configured, inside) == Some(m@),
{
    if !is_deletable_name(filename) {
        Some("invalid filename")
    } else if !dir_configured {
        Some("no models directory configured")
    } else if !inside {
        Some("file not found in models directory")
    } else {
        None
    }
}

/// The files a download request fetches: the model, then its companion
/// projector when one is named; refused without a repository and a file
/// name, or without a models directory.
pub open spec fn download_files_of(
    repo: Seq<char>,
    filename: Seq<char>,
    companion: Seq<char>,
    dir_configured: bool,
) -> Result<Seq<Seq<char>>, Seq<char>> {
    if repo.len() == 0 || filename.len() == 0 {
        Err("repo and filename required"@)
    } else if !dir_configured {
        Err("models directory not configured"@)
    } else if companion.len() == 0 {
        Ok(seq![filename])
    } else {
        Ok(seq![filename, companion])
    }
}

pub fn download_files(repo: &str, filename: &str, companion: &str, dir_configured: bool) -> (r:
    Result<Vec<String>, &'static str>)
    ensures
        match (r, download_files_of(repo@, filename@, companion@, dir_configured)) {
            (Ok(v), Ok(w)) => views_of(v@) == w,
            (Err(m), Err(e)) => m@ == e,
            _ => false,
        },
{
    if chars_of(repo).len() == 0 || chars_of(filename).len() == 0 {
        return Err("repo and filename required");
    }
    if !dir_configured {
        return Err("models directory not configured");
    }
    let mut files: Vec<String> = Vec::new();
    files.push(string_of(&lit(filename)));
    if chars_of(companion).len() > 0 {
        files.push(string_of(&lit(companion)));
    }
    assert(views_of(files@) =~= download_files_of(repo@, filename@, companion@, dir_configured)->Ok_0);
    Ok(files)
}

pub open spec fn views_of(v: Seq<String>) -> Seq<Seq<char>> {
    v.map_values(|s: String| s@)
}


/// Whether a header is hop-by-hop does not depend on its case.
pub proof fn law_hop_by_hop_ignores_case(name: Seq<char>)
    ensures
        hop_by_hop(name) == hop_by_hop(crate::text::lower_seq(name)),
{
    crate::text::lemma_lower_seq_idempotent(name);
}


/// Every entry `listed_entries` keeps passes the listing rules and is one
/// of the entries read.
pub proof fn lemma_listed_entries(es: Seq<BrowseEntry>, filter: Seq<char>)
    ensures
        listed_entries(es, filter).len() <= es.len(),
        forall|k: int|
            0 <= k < listed_entries(es, filter).len() ==> listed_entry(
                #[trigger] listed_entries(es, filter)[k],
                filter,
            ) && es.contains(listed_entries(es, filter)[k]),
    decreases es.len(),
{
    if es.len() > 0 {
        lemma_listed_entries(es.drop_last(), filter);
        let before = listed_entries(es.drop_last(), filter);
        let now = listed_entries(es, filter);
        assert forall|k: int| 0 <= k < now.len() implies listed_entry(#[trigger] now[k], filter)
            && es.contains(now[k]) by {
            if k < before.len() {
                assert(now[k] == before[k]);
                let j = choose|j: int| 0 <= j < es.drop_last().len() && es.drop_last()[j] == before[k];
                assert(es[j] == before[k]);
            } else {
                assert(now[k] == es.last());
                assert(es[es.len() - 1] == es.last());
            }
        }
    }
}

/// The file browser's listing: only the entries read that are not hidden
/// and pass the filter, each once; directories before files; and within
/// each group, names in order of their lower-cased form.
pub proof fn law_browse_listing_order(entries: Seq<BrowseEntry>, filter: Seq<char>, order: Seq<usize>)
    requires
        stable_order(browse_keys(listed_entries(entries, filter)), order),
    ensures
        ({
            let l = listed_entries(entries, filter);
            let out = order.map_values(|i: usize| l[i as int]);
            &&& out.len() == l.len()
            &&& forall|i: int|
                0 <= i < out.len() ==> listed_entry(#[trigger] out[i], filter) && entries.contains(
                    out[i],
                )
            &&& forall|i: int, j: int|
                0 <= i < j < out.len() ==> order[i] != order[j]
            &&& forall|i: int, j: int|
                0 <= i < j < out.len() && (#[trigger] out[j]).is_dir ==> (#[trigger] out[i]).is_dir
            &&& forall|i: int, j: int|
                0 <= i < j < out.len() && (#[trigger] out[i]).is_dir == (#[trigger] out[j]).is_dir
                    ==> text_le(lowercased(out[i].name@), lowercased(out[j].name@))
        }),
{
    let l = listed_entries(entries, filter);
    let ks = browse_keys(l);
    let out = order.map_values(|i: usize| l[i as int]);
    lemma_listed_entries(entries, filter);
    assert forall|i: int| 0 <= i < out.len() implies listed_entry(#[trigger] out[i], filter)
        && entries.contains(out[i]) by {
        assert(order[i] < ks.len());
        assert(out[i] == l[order[i] as int]);
    }
    assert forall|i: int, j: int|
        0 <= i < j < out.len() && (#[trigger] out[j]).is_dir implies (#[trigger] out[i]).is_dir by {
        let a = ks[order[i] as int];
        let b = ks[order[j] as int];
        assert(text_le(a, b));
        assert(out[i] == l[order[i] as int] && out[j] == l[order[j] as int]);
        assert(a[0] == (if out[i].is_dir { '0' } else { '1' }));
        assert(b[0] == '0');
    }
    assert forall|i: int, j: int|
        0 <= i < j < out.len() && (#[trigger] out[i]).is_dir == (#[trigger] out[j]).is_dir implies text_le(
        lowercased(out[i].name@),
        lowercased(out[j].name@),
    ) by {
        let a = ks[order[i] as int];
        let b = ks[order[j] as int];
        assert(text_le(a, b));
        assert(out[i] == l[order[i] as int] && out[j] == l[order[j] as int]);
        assert(a[0] == b[0]);
        assert(a.drop_first() =~= lowercased(out[i].name@));
        assert(b.drop_first() =~= lowercased(out[j].name@));
    }
}

} // verus!
