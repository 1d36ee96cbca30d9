//! The DeepSeek Harness (`dsh`) web app next to the monitor: where its
//! settings live, the model limits written there, which hosts its
//! browser-trust fence accepts, and how it is started behind the
//! monitor's forwarding port.
use vstd::prelude::*;
use crate::text::{
    chars_of, copy_vec, dec, dec_string, extend, find, find_exec, join_path, joined, lit, push_dec,
    rsplit_once, rsplit_once_exec, slice_of, starts_with, starts_with_exec, string_of, trim,
    trim_vec,
};

verus! {

/// Provider id written to settings.yaml (lowercase, as dsh requires).
pub const PROVIDER: &'static str = "llama-admin-monitor";

/// Environment variable dsh reads the (dummy) API key from.
pub const API_KEY_ENV: &'static str = "LLAMA_ADMIN_MONITOR_API_KEY";

/// dsh's own listening port (loopback only).
pub const DSH_PORT: u16 = 3080;

/// What the dashboard shows about dsh.
#[derive(Debug, Clone, Default)]
pub struct Status {
    pub installed: bool,
    pub path: Option<String>,
    pub version: Option<String>,
    pub npm: Option<String>,
    pub running: bool,
    pub label: Option<String>,
    pub cwd: Option<String>,
    pub exit_code: Option<i32>,
    pub proxy_port: Option<u16>,
    pub settings_yaml: String,
    pub provider: &'static str,
}

/// dsh's home: `$DSH_HOME` when set and non-empty, else `.dsh` in the
/// user's home directory (or in `.` when there is none).
pub open spec fn dsh_home_of(env_home: Option<Seq<char>>, home_dir: Option<Seq<char>>) -> Seq<char> {
    match env_home {
        Some(h) if h.len() > 0 => h,
        _ => joined(
            match home_dir {
                Some(d) => d,
                None => "."@,
            },
            ".dsh"@,
        ),
    }
}


pub fn dsh_home(env_home: Option<&str>, home_dir: Option<&str>) -> (p: String)
    ensures
        p@ == dsh_home_of(
            match env_home {
                Some(h) => Some(h@),
                None => None,
            },
            match home_dir {
                Some(d) => Some(d@),
                None => None,
            },
        ),
{
    if let Some(h) = env_home {
        let hv = chars_of(h);
        if hv.len() > 0 {
            return string_of(&hv);
        }
    }
    let base = match home_dir {
        Some(d) => chars_of(d),
        None => lit("."),
    };
    string_of(&join_path(&base, ".dsh"))
}

/// `settings.yaml` in dsh's home.
pub fn settings_path(dsh_home: &str) -> (p: String)
    ensures
        p@ == joined(dsh_home@, "settings.yaml"@),
{
    string_of(&join_path(&chars_of(dsh_home), "settings.yaml"))
}

/// The output limit written for a model: a quarter of its context, at
/// most 32000 and at least 4096.
pub open spec fn max_tokens_for(context_window: nat) -> nat {
    let q = context_window / 4;
    let m = if q < 32000 {
        q
    } else {
        32000
    };
    if m > 4096 {
        m
    } else {
        4096
    }
}

pub fn max_tokens(context_window: u64) -> (n: u64)
    ensures
        n == max_tokens_for(context_window as nat),
{
    let q = context_window / 4;
    let m = if q < 32000 {
        q
    } else {
        32000
    };
    if m > 4096 {
        m
    } else {
        4096
    }
}

/// The monitor's OpenAI-compatible endpoint on `port`.
pub open spec fn base_url_of(port: u16) -> Seq<char> {
    "http://127.0.0.1:"@ + dec(port as nat) + "/v1"@
}

pub fn base_url(port: u16) -> (u: String)
    ensures
        u@ == base_url_of(port),
{
    let mut v = lit("http://127.0.0.1:");
    push_dec(&mut v, port as u64);
    extend(&mut v, &lit("/v1"));
    assert(v@ =~= base_url_of(port));
    string_of(&v)
}

/// The host part of a `Host` header: the address inside `[...]` for IPv6,
/// else everything before a final `:port` (digits only).
pub open spec fn host_part(host: Seq<char>) -> Seq<char> {
    let h = trim(host);
    if starts_with(h, "["@) {
        let rest = h.drop_first();
        match find(rest, "]"@) {
            Some(i) => rest.take(i),
            None => rest,
        }
    } else {
        match rsplit_once(h, ":"@) {
            Some(hp) => if crate::text::all_digits(hp.1) {
                hp.0
            } else {
                h
            },
            None => h,
        }
    }
}

pub fn host_without_port(host: &str) -> (h: String)
    ensures
        h@ == host_part(host@),
{
    let t = trim_vec(&chars_of(host));
    proof {
        reveal_strlit("[");
    }
    if starts_with_exec(&t, &lit("[")) {
        let rest = slice_of(&t, 1, t.len());
        assert(rest@ =~= t@.drop_first());
        return match find_exec(&rest, &lit("]")) {
            Some(i) => string_of(&slice_of(&rest, 0, i)),
            None => string_of(&rest),
        };
    }
    match rsplit_once_exec(&t, &lit(":")) {
        Some(hp) => {
            let mut k: usize = 0;
            while k < hp.1.len()
                invariant
                    k <= hp.1.len(),
                    t@ == trim(host@),
                    !starts_with(t@, "["@),
                    rsplit_once(t@, ":"@) == Some((hp.0@, hp.1@)),
                    forall|j: int| 0 <= j < k ==> crate::text::is_digit(#[trigger] hp.1@[j]),
                decreases hp.1.len() - k,
            {
                if !('0' <= hp.1[k] && hp.1[k] <= '9') {
                    assert(!crate::text::is_digit(hp.1@[k as int]));
                    return string_of(&t);
                }
                k += 1;
            }
            string_of(&hp.0)
        },
        None => string_of(&t),
    }
}

/// Adds `h:port` (for `h` trimmed and non-empty) unless already present.
pub open spec fn push_host(out: Seq<Seq<char>>, h: Seq<char>, port: u16) -> Seq<Seq<char>> {
    let t = trim(h);
    let v = t + ":"@ + dec(port as nat);
    if t.len() == 0 || out.contains(v) {
        out
    } else {
        out.push(v)
    }
}

pub open spec fn push_ips(out: Seq<Seq<char>>, ips: Seq<Seq<char>>, port: u16) -> Seq<Seq<char>>
    decreases ips.len(),
{
    if ips.len() == 0 {
        out
    } else {
        let before = push_ips(out, ips.drop_last(), port);
        if crate::text::contains(ips.last(), ":"@) {
            before
        } else {
            push_host(before, ips.last(), port)
        }
    }
}

/// Authorities the dsh browser-trust fence accepts, in order and without
/// repeats: the host the dashboard was reached on, this machine's
/// addresses (`hostname -I`, IPv6 ones left out) and name (`hostname`),
/// localhost and 127.0.0.1, each with the proxy port.
pub open spec fn trusted(
    request_host: Option<Seq<char>>,
    ips: Seq<Seq<char>>,
    hostname: Seq<char>,
    port: u16,
) -> Seq<Seq<char>> {
    let a = match request_host {
        Some(h) => push_host(seq![], host_part(h), port),
        None => seq![],
    };
    push_host(
        push_host(push_host(push_ips(a, ips, port), hostname, port), "localhost"@, port),
        "127.0.0.1"@,
        port,
    )
}

pub open spec fn strs(v: Seq<String>) -> Seq<Seq<char>> {
    v.map_values(|s: String| s@)
}

fn push_host_exec(out: &mut Vec<String>, h: &str, port: u16)
    ensures
        strs(final(out)@) == push_host(strs(old(out)@), h@, port),
{
    let t = trim_vec(&chars_of(h));
    if t.len() == 0 {
        return;
    }
    let mut v = copy_vec(&t);
    extend(&mut v, &lit(":"));
    push_dec(&mut v, port as u64);
    assert(v@ =~= trim(h@) + ":"@ + dec(port as nat));
    let ghost o = strs(out@);
    let mut k: usize = 0;
    while k < out.len()
        invariant
            k <= out.len(),
            o == strs(out@),
            out@ == old(out)@,
            t@ == trim(h@),
            t@.len() > 0,
            v@ == trim(h@) + ":"@ + dec(port as nat),
            forall|j: int| 0 <= j < k ==> o[j] != v@,
        decreases out.len() - k,
    {
        assert(o[k as int] == out@[k as int]@);
        if crate::text::vec_eq(&chars_of(out[k].as_str()), &v) {
            assert(o.contains(v@));
            return;
        }
        k += 1;
    }
    out.push(string_of(&v));
    assert(strs(out@) =~= o.push(v@));
}

/// Authorities for the dsh browser-trust fence. `ips` are the words of
/// `hostname -I` and `hostname` what `hostname` printed.
pub fn trusted_hosts(request_host: Option<&str>, ips: &[String], hostname: &str, proxy_port: u16) -> (out: Vec<String>)
    ensures
        strs(out@) == trusted(
            match request_host {
                Some(h) => Some(h@),
                None => None,
            },
            strs(ips@),
            hostname@,
            proxy_port,
        ),
{
    let mut out: Vec<String> = Vec::new();
    assert(strs(out@) =~= Seq::<Seq<char>>::empty());
    match request_host {
        Some(h) => {
            let hp = host_without_port(h);
            push_host_exec(&mut out, hp.as_str(), proxy_port);
        },
        None => {},
    }
    let ghost a = strs(out@);
    let mut i: usize = 0;
    while i < ips.len()
        invariant
            i <= ips.len(),
            strs(out@) == push_ips(a, strs(ips@).take(i as int), proxy_port),
        decreases ips.len() - i,
    {
        let ghost t = strs(ips@).take(i + 1);
        assert(t.drop_last() =~= strs(ips@).take(i as int));
        assert(t.last() == ips@[i as int]@);
        if !crate::text::contains_exec(&chars_of(ips[i].as_str()), &lit(":")) {
            push_host_exec(&mut out, ips[i].as_str(), proxy_port);
        }
        i += 1;
    }
    assert(strs(ips@).take(ips.len() as int) =~= strs(ips@));
    push_host_exec(&mut out, hostname, proxy_port);
    push_host_exec(&mut out, "localhost", proxy_port);
    push_host_exec(&mut out, "127.0.0.1", proxy_port);
    out
}


pub open spec fn no_repeats(s: Seq<Seq<char>>) -> bool {
    forall|i: int, j: int| 0 <= i < j < s.len() ==> #[trigger] s[i] != #[trigger] s[j]
}

pub proof fn lemma_push_host_no_repeats(out: Seq<Seq<char>>, h: Seq<char>, port: u16)
    requires
        no_repeats(out),
    ensures
        no_repeats(push_host(out, h, port)),
{
    let r = push_host(out, h, port);
    assert forall|i: int, j: int| 0 <= i < j < r.len() implies #[trigger] r[i] != #[trigger] r[j] by {
        if j == out.len() {
            assert(out.contains(out[i]));
        }
    }
}

pub proof fn lemma_push_ips_no_repeats(out: Seq<Seq<char>>, ips: Seq<Seq<char>>, port: u16)
    requires
        no_repeats(out),
    ensures
        no_repeats(push_ips(out, ips, port)),
    decreases ips.len(),
{
    if ips.len() > 0 {
        lemma_push_ips_no_repeats(out, ips.drop_last(), port);
        lemma_push_host_no_repeats(push_ips(out, ips.drop_last(), port), ips.last(), port);
    }
}

/// The trust list never names a host twice.
pub proof fn law_trusted_hosts_unique(
    request_host: Option<Seq<char>>,
    ips: Seq<Seq<char>>,
    hostname: Seq<char>,
    port: u16,
)
    ensures
        no_repeats(trusted(request_host, ips, hostname, port)),
{
    let a = match request_host {
        Some(h) => push_host(seq![], host_part(h), port),
        None => seq![],
    };
    lemma_push_host_no_repeats(seq![], match request_host {
        Some(h) => host_part(h),
        None => seq![],
    }, port);
    lemma_push_ips_no_repeats(a, ips, port);
    let b = push_ips(a, ips, port);
    lemma_push_host_no_repeats(b, hostname, port);
    lemma_push_host_no_repeats(push_host(b, hostname, port), "localhost"@, port);
    lemma_push_host_no_repeats(
        push_host(push_host(b, hostname, port), "localhost"@, port),
        "127.0.0.1"@,
        port,
    );
}


/// The LAN-facing port that forwards to dsh: the one after the monitor's
/// own (wrapping), but never a privileged port.
pub open spec fn proxy_port_for(monitor_port: u16) -> u16 {
    let next = if monitor_port == u16::MAX {
        0u16
    } else {
        (monitor_port + 1) as u16
    };
    if next < 1024 {
        1024
    } else {
        next
    }
}

pub fn proxy_port(monitor_port: u16) -> (p: u16)
    ensures
        p == proxy_port_for(monitor_port),
{
    let next = monitor_port.wrapping_add(1);
    if next < 1024 {
        1024
    } else {
        next
    }
}

pub open spec fn trust_args(hosts: Seq<String>) -> Seq<Seq<char>>
    decreases hosts.len(),
{
    if hosts.len() == 0 {
        seq![]
    } else {
        trust_args(hosts.drop_last()) + seq!["--trusted-host"@, hosts.last()@]
    }
}

/// The command line of `dsh web`: on its own loopback port, without
/// opening a browser, trusting each of `hosts`.
pub open spec fn web_args_of(hosts: Seq<String>) -> Seq<Seq<char>> {
    seq!["web"@, "--no-open"@, "--port"@, dec(DSH_PORT as nat)] + trust_args(hosts)
}

pub fn web_args(hosts: &[String]) -> (a: Vec<String>)
    ensures
        strs(a@) == web_args_of(hosts@),
{
    let mut a: Vec<String> = Vec::new();
    a.push(string_of(&lit("web")));
    a.push(string_of(&lit("--no-open")));
    a.push(string_of(&lit("--port")));
    a.push(dec_string(DSH_PORT as u64));
    assert(strs(a@) =~= seq!["web"@, "--no-open"@, "--port"@, dec(DSH_PORT as nat)]);
    let mut i: usize = 0;
    while i < hosts.len()
        invariant
            i <= hosts.len(),
            strs(a@) == seq!["web"@, "--no-open"@, "--port"@, dec(DSH_PORT as nat)] + trust_args(
                hosts@.take(i as int),
            ),
        decreases hosts.len() - i,
    {
        let ghost before = strs(a@);
        assert(hosts@.take(i + 1).drop_last() =~= hosts@.take(i as int));
        a.push(string_of(&lit("--trusted-host")));
        a.push(hosts[i].clone());
        assert(strs(a@) =~= before + seq!["--trusted-host"@, hosts@[i as int]@]);
        i += 1;
    }
    assert(hosts@.take(hosts.len() as int) =~= hosts@);
    a
}


/// One model offered to an agent.
#[derive(Debug, Clone)]
pub struct ModelEntry {
    pub id: String,
    pub name: String,
    pub context_window: u64,
    pub preset_id: String,
}

/// A model as the monitor's provider entry lists it.
#[derive(Debug, Clone)]
pub struct ProviderModel {
    pub id: String,
    pub name: String,
    pub context_window: u64,
    pub max_tokens: u64,
}

/// The monitor's provider in dsh's `settings.yaml`. The compat switches
/// are what llama-server needs: no `developer` role, and `max_tokens`.
#[derive(Debug, Clone)]
pub struct DshProvider {
    pub api_key_env: String,
    pub api: String,
    pub base_url: String,
    pub supports_developer_role: bool,
    pub max_tokens_field: String,
    pub models: Vec<ProviderModel>,
}

/// `m` lists `e` with its output limit.
pub open spec fn lists_model(m: ProviderModel, e: ModelEntry) -> bool {
    &&& m.id@ == e.id@
    &&& m.name@ == e.name@
    &&& m.context_window == e.context_window
    &&& m.max_tokens == max_tokens_for(e.context_window as nat)
}

pub fn provider_model(e: &ModelEntry) -> (m: ProviderModel)
    ensures
        lists_model(m, *e),
{
    ProviderModel {
        id: e.id.clone(),
        name: e.name.clone(),
        context_window: e.context_window,
        max_tokens: max_tokens(e.context_window),
    }
}

/// The provider entry written for a monitor on `monitor_port` serving
/// `models`.
pub fn settings_provider(monitor_port: u16, models: &[ModelEntry]) -> (p: DshProvider)
    ensures
        p.api_key_env@ == API_KEY_ENV@,
        p.api@ == "openai-completions"@,
        p.base_url@ == base_url_of(monitor_port),
        !p.supports_developer_role,
        p.max_tokens_field@ == "max_tokens"@,
        p.models@.len() == models@.len(),
        forall|i: int| 0 <= i < models@.len() ==> lists_model(#[trigger] p.models@[i], models@[i]),
{
    let mut list: Vec<ProviderModel> = Vec::new();
    let mut i: usize = 0;
    while i < models.len()
        invariant
            i <= models@.len(),
            list@.len() == i,
            forall|j: int| 0 <= j < i ==> lists_model(#[trigger] list@[j], models@[j]),
        decreases models@.len() - i,
    {
        list.push(provider_model(&models[i]));
        i += 1;
    }
    DshProvider {
        api_key_env: string_of(&lit(API_KEY_ENV)),
        api: string_of(&lit("openai-completions")),
        base_url: base_url(monitor_port),
        supports_developer_role: false,
        max_tokens_field: string_of(&lit("max_tokens")),
        models: list,
    }
}

/// What a node of an agent's settings document is, as far as merging the
/// provider in cares.
#[derive(Debug, Clone, Copy, PartialEq, Eq, Structural)]
pub enum Node {
    Absent,
    Null,
    Table,
    Other,
}

/// Why the provider cannot be merged into `settings.yaml`.
#[derive(Debug, Clone, Copy, PartialEq, Eq, Structural)]
pub enum SettingsRefusal {
    NotMapping,
    LlmNotMapping,
    ProvidersNotMapping,
}

/// The document is replaced by an empty mapping when absent or null; so are
/// `llm-pi-ai` and its `providers` (each looked at only when the level
/// above is a mapping); anything else that is not a mapping is refused.
pub open spec fn settings_refusal_of(root: Node, llm: Node, providers: Node) -> Option<
    SettingsRefusal,
> {
    if root == Node::Other {
        Some(SettingsRefusal::NotMapping)
    } else if root == Node::Table && llm == Node::Other {
        Some(SettingsRefusal::LlmNotMapping)
    } else if root == Node::Table && llm == Node::Table && providers == Node::Other {
        Some(SettingsRefusal::ProvidersNotMapping)
    } else {
        None
    }
}

pub fn settings_refusal(root: Node, llm: Node, providers: Node) -> (r: Option<SettingsRefusal>)
    ensures
        r == settings_refusal_of(root, llm, providers),
{
    match root {
        Node::Other => Some(SettingsRefusal::NotMapping),
        Node::Table => match llm {
            Node::Other => Some(SettingsRefusal::LlmNotMapping),
            Node::Table => match providers {
                Node::Other => Some(SettingsRefusal::ProvidersNotMapping),
                _ => None,
            },
            _ => None,
        },
        _ => None,
    }
}

/// The message for a refusal of the file at `path`.
pub open spec fn settings_refusal_text_of(r: SettingsRefusal, path: Seq<char>) -> Seq<char> {
    match r {
        SettingsRefusal::NotMapping => path + " is not a YAML mapping"@,
        SettingsRefusal::LlmNotMapping => "\"llm-pi-ai\" in "@ + path + " is not a mapping"@,
        SettingsRefusal::ProvidersNotMapping => "\"llm-pi-ai.providers\" in "@ + path
            + " is not a mapping"@,
    }
}

pub fn settings_refusal_text(r: SettingsRefusal, path: &str) -> (t: String)
    ensures
        t@ == settings_refusal_text_of(r, path@),
{
    let v = match r {
        SettingsRefusal::NotMapping => {
            let mut v = lit(path);
            extend(&mut v, &lit(" is not a YAML mapping"));
            v
        },
        SettingsRefusal::LlmNotMapping => {
            let mut v = lit("\"llm-pi-ai\" in ");
            extend(&mut v, &lit(path));
            extend(&mut v, &lit(" is not a mapping"));
            v
        },
        SettingsRefusal::ProvidersNotMapping => {
            let mut v = lit("\"llm-pi-ai.providers\" in ");
            extend(&mut v, &lit(path));
            extend(&mut v, &lit(" is not a mapping"));
            v
        },
    };
    assert(v@ =~= settings_refusal_text_of(r, path@));
    string_of(&v)
}


/// The output limit is a quarter of the context, kept between 4096 and
/// 32000: max(min(context_window / 4, 32000), 4096).
pub proof fn law_max_tokens_clamped(context_window: nat)
    ensures
        4096 <= max_tokens_for(context_window) <= 32000,
        context_window / 4 <= 4096 ==> max_tokens_for(context_window) == 4096,
        context_window / 4 >= 32000 ==> max_tokens_for(context_window) == 32000,
        4096 <= context_window / 4 <= 32000 ==> max_tokens_for(context_window) == context_window
            / 4,
{
}


/// One model of dsh's provider entry as JSON text.
pub open spec fn model_json(e: ModelEntry) -> Seq<char> {
    "{\"contextWindow\":"@ + dec(e.context_window as nat) + ",\"id\":"@ + crate::doc::json_string(e.id@)
        + ",\"maxTokens\":"@ + dec(max_tokens_for(e.context_window as nat)) + ",\"name\":"@
        + crate::doc::json_string(e.name@) + "}"@
}

/// The models, comma-separated.
pub open spec fn models_json(ms: Seq<ModelEntry>) -> Seq<char>
    decreases ms.len(),
{
    if ms.len() == 0 {
        seq![]
    } else if ms.len() == 1 {
        model_json(ms[0])
    } else {
        models_json(ms.drop_last()) + ","@ + model_json(ms.last())
    }
}

/// The monitor's provider entry for dsh as JSON text (the fields of
/// `settings_provider`, keys in order).
pub open spec fn dsh_provider_json(monitor_port: u16, models: Seq<ModelEntry>) -> Seq<char> {
    "{\"api\":\"openai-completions\",\"apiKeyEnv\":"@ + crate::doc::json_string(API_KEY_ENV@)
        + ",\"baseURL\":"@ + crate::doc::json_string(base_url_of(monitor_port))
        + ",\"compat\":{\"maxTokensField\":\"max_tokens\",\"supportsDeveloperRole\":false},\"models\":["@
        + models_json(models) + "]}"@
}

fn push_model_json(out: &mut Vec<char>, e: &ModelEntry)
    ensures
        final(out)@ == old(out)@ + model_json(*e),
{
    extend(out, &lit("{\"contextWindow\":"));
    push_dec(out, e.context_window);
    extend(out, &lit(",\"id\":"));
    crate::doc::push_json_string(out, e.id.as_str());
    extend(out, &lit(",\"maxTokens\":"));
    push_dec(out, max_tokens(e.context_window));
    extend(out, &lit(",\"name\":"));
    crate::doc::push_json_string(out, e.name.as_str());
    extend(out, &lit("}"));
    assert(out@ =~= old(out)@ + model_json(*e));
}

pub fn dsh_provider_json_text(monitor_port: u16, models: &[ModelEntry]) -> (t: String)
    ensures
        t@ == dsh_provider_json(monitor_port, models@),
{
    let mut v = lit("{\"api\":\"openai-completions\",\"apiKeyEnv\":");
    crate::doc::push_json_string(&mut v, API_KEY_ENV);
    extend(&mut v, &lit(",\"baseURL\":"));
    let url = base_url(monitor_port);
    crate::doc::push_json_string(&mut v, url.as_str());
    extend(
        &mut v,
        &lit(",\"compat\":{\"maxTokensField\":\"max_tokens\",\"supportsDeveloperRole\":false},\"models\":["),
    );
    let ghost head = v@;
    let mut i: usize = 0;
    while i < models.len()
        invariant
            i <= models@.len(),
            v@ == head + models_json(models@.take(i as int)),
        decreases models@.len() - i,
    {
        let ghost before = v@;
        assert(models@.take(i + 1).drop_last() =~= models@.take(i as int));
        if i > 0 {
            extend(&mut v, &lit(","));
        } else {
            assert(models@.take(0) =~= Seq::<ModelEntry>::empty());
        }
        push_model_json(&mut v, &models[i]);
        assert(v@ =~= head + models_json(models@.take(i + 1)));
        i += 1;
    }
    assert(models@.take(models@.len() as int) =~= models@);
    extend(&mut v, &lit("]}"));
    assert(v@ =~= dsh_provider_json(monitor_port, models@));
    string_of(&v)
}

/// The next text after setting `key` to an empty mapping where the node is
/// absent or null, or the same text.
pub open spec fn with_table(
    t: Result<Seq<char>, Seq<char>>,
    kind: Node,
    outer: Option<Seq<char>>,
    key: Seq<char>,
) -> Result<Seq<char>, Seq<char>> {
    match t {
        Err(e) => Err(e),
        Ok(t) => if kind == Node::Absent || kind == Node::Null {
            crate::doc::yaml_set(t, outer, None, key, "{}"@)
        } else {
            Ok(t)
        },
    }
}

/// dsh's settings.yaml after the monitor's provider is merged in under
/// `llm-pi-ai.providers`: `old` is the file's text (none when it could not
/// be read; that or blank text counts as an empty mapping); text that is
/// not YAML is refused with the parser's message, and a document,
/// `llm-pi-ai` or `providers` that is not a mapping as `settings_refusal`
/// says; otherwise a null document, and a missing or null `llm-pi-ai` or
/// `providers`, becomes an empty mapping, the provider is set, and
/// everything else is kept.
pub open spec fn settings_update_of(old: Option<Seq<char>>, path: Seq<char>, value: Seq<char>) -> Result<
    Seq<char>,
    Seq<char>,
> {
    let blank = match old {
        Some(t) => trim(t).len() == 0,
        None => true,
    };
    let t0 = if blank {
        "{}"@
    } else {
        old->0
    };
    match crate::doc::yaml_node(t0, None, None) {
        Err(e) => Err(path + " is not valid YAML: "@ + e),
        Ok(root) => match crate::doc::yaml_node(t0, Some("llm-pi-ai"@), None) {
            Err(e) => Err(e),
            Ok(k1) => match crate::doc::yaml_node(t0, Some("llm-pi-ai"@), Some("providers"@)) {
                Err(e) => Err(e),
                Ok(k2) => match settings_refusal_of(root, k1, k2) {
                    Some(r) => Err(settings_refusal_text_of(r, path)),
                    None => {
                        let t1: Result<Seq<char>, Seq<char>> = if root == Node::Null {
                            Ok("{}"@)
                        } else {
                            Ok(t0)
                        };
                        let k1n = if root == Node::Null {
                            Node::Absent
                        } else {
                            k1
                        };
                        let k2n = if k1n == Node::Table {
                            k2
                        } else {
                            Node::Absent
                        };
                        let t2 = with_table(t1, k1n, None, "llm-pi-ai"@);
                        let t3 = with_table(t2, k2n, Some("llm-pi-ai"@), "providers"@);
                        match t3 {
                            Err(e) => Err(e),
                            Ok(t) => crate::doc::yaml_set(
                                t,
                                Some("llm-pi-ai"@),
                                Some("providers"@),
                                PROVIDER@,
                                value,
                            ),
                        }
                    },
                },
            },
        },
    }
}

fn with_table_exec(t: Result<String, String>, kind: Node, outer: Option<&str>, key: &str) -> (r: Result<String, String>)
    ensures
        crate::doc::result_view(r) == with_table(crate::doc::result_view(t), kind, crate::doc::opt_view(outer), key@),
{
    match t {
        Err(e) => Err(e),
        Ok(t) => if kind == Node::Absent || kind == Node::Null {
            crate::doc::yaml_set_key(t.as_str(), outer, None, key, "{}")
        } else {
            Ok(t)
        },
    }
}

/// What `write_settings` writes to dsh's settings.yaml at `path` for the
/// monitor on `monitor_port` serving `models`, or why it writes nothing.
pub fn updated_settings(old: Option<&str>, path: &str, monitor_port: u16, models: &[ModelEntry]) -> (r: Result<
    String,
    String,
>)
    ensures
        crate::doc::result_view(r) == settings_update_of(
            crate::doc::opt_view(old),
            path@,
            dsh_provider_json(monitor_port, models@),
        ),
{
    let blank = match old {
        Some(t) => trim_vec(&chars_of(t)).len() == 0,
        None => true,
    };
    let t0: &str = if blank {
        "{}"
    } else {
        match old {
            Some(t) => t,
            None => "{}",
        }
    };
    let root = match crate::doc::yaml_kind(t0, None, None) {
        Err(e) => {
            let mut v = lit(path);
            extend(&mut v, &lit(" is not valid YAML: "));
            extend(&mut v, &lit(e.as_str()));
            return Err(string_of(&v));
        },
        Ok(n) => n,
    };
    let k1 = match crate::doc::yaml_kind(t0, Some("llm-pi-ai"), None) {
        Err(e) => {
            return Err(e);
        },
        Ok(n) => n,
    };
    let k2 = match crate::doc::yaml_kind(t0, Some("llm-pi-ai"), Some("providers")) {
        Err(e) => {
            return Err(e);
        },
        Ok(n) => n,
    };
    if let Some(r) = settings_refusal(root, k1, k2) {
        return Err(settings_refusal_text(r, path));
    }
    let value = dsh_provider_json_text(monitor_port, models);
    let t1: Result<String, String> = if root == Node::Null {
        Ok(string_of(&lit("{}")))
    } else {
        Ok(string_of(&lit(t0)))
    };
    let k1n = if root == Node::Null {
        Node::Absent
    } else {
        k1
    };
    let k2n = if k1n == Node::Table {
        k2
    } else {
        Node::Absent
    };
    let t2 = with_table_exec(t1, k1n, None, "llm-pi-ai");
    let t3 = with_table_exec(t2, k2n, Some("llm-pi-ai"), "providers");
    match t3 {
        Err(e) => Err(e),
        Ok(t) => crate::doc::yaml_set_key(
            t.as_str(),
            Some("llm-pi-ai"),
            Some("providers"),
            PROVIDER,
            value.as_str(),
        ),
    }
}

} // verus!
