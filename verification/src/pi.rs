//! The pi coding agent in a pseudo-terminal: where its files are, and the
//! scrollback a late-joining page gets replayed.
use vstd::prelude::*;
use std::collections::VecDeque;
use crate::dsh::{base_url, base_url_of, max_tokens, max_tokens_for, strs, ModelEntry, Node};
use crate::text::{
    chars_of, dec_int, extend, join_path, joined, lit, push_dec_i64, string_of, trim, trim_vec,
};

verus! {

/// Provider name written to pi's models.json.
pub const PROVIDER: &'static str = "llama-admin-monitor";

/// How much output a late-joining page gets replayed.
pub const SCROLLBACK_BYTES: usize = 262144;

/// What the dashboard shows about pi.
#[derive(Debug, Clone, Default)]
pub struct Status {
    pub installed: bool,
    pub path: Option<String>,
    pub version: Option<String>,
    pub running: bool,
    pub label: Option<String>,
    pub cwd: Option<String>,
    pub exit_code: Option<i32>,
    pub models_json: String,
    pub provider: &'static str,
}

/// `~/.pi/agent/models.json` (in `.` when there is no home directory).
pub open spec fn models_json_of(home_dir: Option<Seq<char>>) -> Seq<char> {
    joined(
        joined(
            joined(
                match home_dir {
                    Some(h) => h,
                    None => "."@,
                },
                ".pi"@,
            ),
            "agent"@,
        ),
        "models.json"@,
    )
}


pub fn models_json_path(home_dir: Option<&str>) -> (p: String)
    ensures
        p@ == models_json_of(
            match home_dir {
                Some(h) => Some(h@),
                None => None,
            },
        ),
{
    let base = match home_dir {
        Some(h) => chars_of(h),
        None => lit("."),
    };
    let a = join_path(&base, ".pi");
    let b = join_path(&a, "agent");
    string_of(&join_path(&b, "models.json"))
}

/// Where pi is looked for under the home directory, in order, when it is
/// not on PATH (the per-user locations a login shell would add but a
/// service does not).
pub open spec fn pi_candidates_of(home: Seq<char>) -> Seq<Seq<char>> {
    seq![
        joined(home, ".pi/bin/pi"@),
        joined(home, ".local/bin/pi"@),
        joined(home, ".npm-global/bin/pi"@),
        joined(home, ".bun/bin/pi"@),
    ]
}

pub fn pi_candidates(home: &str) -> (v: Vec<String>)
    ensures
        v@.map_values(|s: String| s@) == pi_candidates_of(home@),
{
    let h = chars_of(home);
    let v = vec![
        string_of(&join_path(&h, ".pi/bin/pi")),
        string_of(&join_path(&h, ".local/bin/pi")),
        string_of(&join_path(&h, ".npm-global/bin/pi")),
        string_of(&join_path(&h, ".bun/bin/pi")),
    ];
    assert(v@.map_values(|s: String| s@) =~= pi_candidates_of(home@));
    v
}

/// A terminal size for the PTY: at least 20 columns and 4 rows.
pub fn pty_size(cols: u16, rows: u16) -> (r: (u16, u16))
    ensures
        r.0 == if cols > 20 { cols } else { 20 },
        r.1 == if rows > 4 { rows } else { 4 },
{
    (if cols > 20 { cols } else { 20 }, if rows > 4 { rows } else { 4 })
}

/// The line shown when the program ends: dimmed, with its exit code (-1
/// when there was none).
pub open spec fn exit_note_of(label: Seq<char>, code: Option<i32>) -> Seq<char> {
    "\r\n\x1b[2m["@ + label + " exited with code "@ + dec_int(
        match code {
            Some(c) => c as int,
            None => -1,
        },
    ) + "]\x1b[0m\r\n"@
}

pub fn exit_note(label: &str, code: Option<i32>) -> (s: String)
    ensures
        s@ == exit_note_of(label@, code),
{
    let mut v = lit("\r\n\x1b[2m[");
    extend(&mut v, &lit(label));
    extend(&mut v, &lit(" exited with code "));
    let c: i64 = match code {
        Some(c) => c as i64,
        None => -1,
    };
    push_dec_i64(&mut v, c);
    extend(&mut v, &lit("]\x1b[0m\r\n"));
    assert(v@ =~= exit_note_of(label@, code));
    string_of(&v)
}

/// The last `SCROLLBACK_BYTES` bytes of `s` (all of it when shorter).
pub open spec fn tail_of(s: Seq<u8>) -> Seq<u8> {
    if s.len() <= SCROLLBACK_BYTES {
        s
    } else {
        s.skip(s.len() - SCROLLBACK_BYTES)
    }
}

/// What the scrollback holds does not depend on how the output was cut
/// into chunks: keeping the tail after each chunk is keeping the tail of
/// everything.
pub proof fn law_scrollback_chunking(kept: Seq<u8>, a: Seq<u8>, b: Seq<u8>)
    ensures
        tail_of(tail_of(kept + a) + b) == tail_of(kept + a + b),
{
    let x = kept + a;
    let t = tail_of(x);
    let all = x + b;
    if x.len() > SCROLLBACK_BYTES {
        let d = x.len() - SCROLLBACK_BYTES;
        assert(t + b =~= all.skip(d));
        if (t + b).len() > SCROLLBACK_BYTES {
            assert((t + b).skip((t + b).len() - SCROLLBACK_BYTES) =~= all.skip(
                all.len() - SCROLLBACK_BYTES,
            ));
        }
    } else {
        assert(t + b =~= all);
    }
    assert(kept + a + b =~= all);
}

/// The last `SCROLLBACK_BYTES` bytes of a program's output.
pub struct Scrollback {
    buf: VecDeque<u8>,
}

impl Scrollback {
    pub closed spec fn contents(&self) -> Seq<u8> {
        self.buf@
    }

    pub fn new() -> (s: Scrollback)
        ensures
            s.contents() == Seq::<u8>::empty(),
    {
        Scrollback { buf: VecDeque::new() }
    }

    /// Appends `chunk`, dropping the oldest bytes beyond the limit.
    pub fn extend(&mut self, chunk: &[u8])
        requires
            old(self).contents().len() <= SCROLLBACK_BYTES,
        ensures
            final(self).contents() == tail_of(old(self).contents() + chunk@),
            final(self).contents().len() <= SCROLLBACK_BYTES,
    {
        let ghost all = self.buf@ + chunk@;
        let ghost dropped: int = 0;
        let mut i: usize = 0;
        while i < chunk.len()
            invariant
                i <= chunk@.len(),
                all == old(self).contents() + chunk@,
                0 <= dropped,
                self.buf@ == all.subrange(dropped, old(self).contents().len() + i),
                self.buf@.len() <= SCROLLBACK_BYTES,
                dropped == (if old(self).contents().len() + i <= SCROLLBACK_BYTES {
                    0
                } else {
                    old(self).contents().len() + i - SCROLLBACK_BYTES
                }),
            decreases chunk@.len() - i,
        {
            self.buf.push_back(chunk[i]);
            if self.buf.len() > SCROLLBACK_BYTES {
                self.buf.pop_front();
                proof {
                    dropped = dropped + 1;
                }
            }
            assert(self.buf@ =~= all.subrange(dropped, old(self).contents().len() + i + 1));
            i += 1;
        }
        assert(all.subrange(dropped, all.len() as int) =~= all.skip(dropped));
        assert(all.subrange(0, all.len() as int) =~= all);
    }

    /// A copy of the bytes kept.
    pub fn snapshot(&self) -> (v: Vec<u8>)
        ensures
            v@ == self.contents(),
    {
        let mut v: Vec<u8> = Vec::new();
        let mut i: usize = 0;
        while i < self.buf.len()
            invariant
                i <= self.buf@.len(),
                v@ == self.buf@.take(i as int),
            decreases self.buf@.len() - i,
        {
            v.push(self.buf[i]);
            assert(self.buf@.take(i + 1) =~= self.buf@.take(i as int).push(self.buf@[i as int]));
            i += 1;
        }
        assert(self.buf@.take(self.buf@.len() as int) =~= self.buf@);
        v
    }
}


/// The working directory an agent starts in: the one the request names
/// (trimmed), else the one saved last time; empty means the home
/// directory.
pub open spec fn workdir_of(requested: Option<Seq<char>>, saved: Seq<char>) -> Seq<char> {
    match requested {
        Some(r) => if trim(r).len() > 0 {
            trim(r)
        } else {
            saved
        },
        None => saved,
    }
}

pub fn chosen_workdir(requested: Option<&str>, saved: &str) -> (w: String)
    ensures
        w@ == workdir_of(
            match requested {
                Some(r) => Some(r@),
                None => None,
            },
            saved@,
        ),
{
    match requested {
        Some(r) => {
            let t = trim_vec(&chars_of(r));
            if t.len() > 0 {
                return string_of(&t);
            }
        },
        None => {},
    }
    string_of(&chars_of(saved))
}


/// A model as pi's models.json lists it.
#[derive(Debug, Clone)]
pub struct PiModel {
    pub id: String,
    pub name: String,
    pub context_window: u64,
    pub max_tokens: u64,
    pub reasoning: bool,
    pub input: Vec<String>,
}

/// The monitor's provider in pi's models.json. The proxy needs no key,
/// but pi hides keyless models from /model, so it gets one.
#[derive(Debug, Clone)]
pub struct PiProvider {
    pub base_url: String,
    pub api: String,
    pub api_key: String,
    pub models: Vec<PiModel>,
}

/// The provider entry for a monitor on `monitor_port` serving the model
/// `model_id` (llama-server serves one model and ignores the id, but pi
/// needs an entry to pick): a text-only model, without reasoning.
pub fn models_json_provider(
    monitor_port: u16,
    model_id: &str,
    model_name: &str,
    context_window: u64,
) -> (p: PiProvider)
    ensures
        p.base_url@ == base_url_of(monitor_port),
        p.api@ == "openai-completions"@,
        p.api_key@ == "llama-admin-monitor"@,
        p.models@.len() == 1,
        p.models@[0].id@ == model_id@,
        p.models@[0].name@ == model_name@,
        p.models@[0].context_window == context_window,
        p.models@[0].max_tokens == max_tokens_for(context_window as nat),
        !p.models@[0].reasoning,
        p.models@[0].input@.len() == 1,
        p.models@[0].input@[0]@ == "text"@,
{
    let mut input: Vec<String> = Vec::new();
    input.push(string_of(&lit("text")));
    let model = PiModel {
        id: string_of(&lit(model_id)),
        name: string_of(&lit(model_name)),
        context_window,
        max_tokens: max_tokens(context_window),
        reasoning: false,
        input,
    };
    let mut models: Vec<PiModel> = Vec::new();
    models.push(model);
    PiProvider {
        base_url: base_url(monitor_port),
        api: string_of(&lit("openai-completions")),
        api_key: string_of(&lit("llama-admin-monitor")),
        models,
    }
}

/// Why the provider cannot be merged into models.json.
#[derive(Debug, Clone, Copy, PartialEq, Eq, Structural)]
pub enum ModelsJsonRefusal {
    NotObject,
    ProvidersNotObject,
}

/// A missing file is an empty object, and a missing `providers` an empty
/// one; any other document, or `providers`, that is not an object is
/// refused (null included).
pub open spec fn models_json_refusal_of(root: Node, providers: Node) -> Option<ModelsJsonRefusal> {
    if root == Node::Null || root == Node::Other {
        Some(ModelsJsonRefusal::NotObject)
    } else if root == Node::Table && (providers == Node::Null || providers == Node::Other) {
        Some(ModelsJsonRefusal::ProvidersNotObject)
    } else {
        None
    }
}

pub fn models_json_refusal(root: Node, providers: Node) -> (r: Option<ModelsJsonRefusal>)
    ensures
        r == models_json_refusal_of(root, providers),
{
    match root {
        Node::Null | Node::Other => Some(ModelsJsonRefusal::NotObject),
        Node::Table => match providers {
            Node::Null | Node::Other => Some(ModelsJsonRefusal::ProvidersNotObject),
            _ => None,
        },
        Node::Absent => None,
    }
}

/// The message for a refusal of the file at `path`.
pub open spec fn models_json_refusal_text_of(r: ModelsJsonRefusal, path: Seq<char>) -> Seq<char> {
    match r {
        ModelsJsonRefusal::NotObject => path + " is not a JSON object"@,
        ModelsJsonRefusal::ProvidersNotObject => "\"providers\" in "@ + path + " is not an object"@,
    }
}

pub fn models_json_refusal_text(r: ModelsJsonRefusal, path: &str) -> (t: String)
    ensures
        t@ == models_json_refusal_text_of(r, path@),
{
    let v = match r {
        ModelsJsonRefusal::NotObject => {
            let mut v = lit(path);
            extend(&mut v, &lit(" is not a JSON object"));
            v
        },
        ModelsJsonRefusal::ProvidersNotObject => {
            let mut v = lit("\"providers\" in ");
            extend(&mut v, &lit(path));
            extend(&mut v, &lit(" is not an object"));
            v
        },
    };
    assert(v@ =~= models_json_refusal_text_of(r, path@));
    string_of(&v)
}


/// The terminal size a start request asks for: 120 columns and 32 rows
/// unless given, each cut to 16 bits.
pub open spec fn requested_size_of(cols: Option<u64>, rows: Option<u64>) -> (u16, u16) {
    (
        (match cols {
            Some(c) => c,
            None => 120,
        }) as u16,
        (match rows {
            Some(r) => r,
            None => 32,
        }) as u16,
    )
}

pub fn requested_size(cols: Option<u64>, rows: Option<u64>) -> (r: (u16, u16))
    ensures
        r == requested_size_of(cols, rows),
{
    let c: u64 = match cols {
        Some(c) => c,
        None => 120,
    };
    let r: u64 = match rows {
        Some(r) => r,
        None => 32,
    };
    (#[verifier::truncate] (c as u16), #[verifier::truncate] (r as u16))
}

/// Entry `i` is the first of the preset `active_preset`.
pub open spec fn first_of_preset(entries: Seq<ModelEntry>, active_preset: Seq<char>, i: int) -> bool {
    &&& 0 <= i < entries.len()
    &&& entries[i].preset_id@ == active_preset
    &&& forall|j: int| 0 <= j < i ==> (#[trigger] entries[j]).preset_id@ != active_preset
}

/// The model pi starts on: the first entry of the active preset (the one
/// the sidebar launches), else the first entry.
pub fn start_model_id(entries: &[ModelEntry], active_preset: &str) -> (id: String)
    requires
        entries@.len() > 0,
    ensures
        (exists|i: int| first_of_preset(entries@, active_preset@, i) && id@ == entries@[i].id@)
            || ((forall|i: int|
            0 <= i < entries@.len() ==> (#[trigger] entries@[i]).preset_id@ != active_preset@)
            && id@ == entries@[0].id@),
{
    let mut i: usize = 0;
    while i < entries.len()
        invariant
            i <= entries@.len(),
            forall|j: int| 0 <= j < i ==> (#[trigger] entries@[j]).preset_id@ != active_preset@,
        decreases entries@.len() - i,
    {
        if crate::text::str_eq(entries[i].preset_id.as_str(), active_preset) {
            assert(first_of_preset(entries@, active_preset@, i as int));
            return entries[i].id.clone();
        }
        i += 1;
    }
    entries[0].id.clone()
}

/// pi's command line: the monitor's provider and the chosen model.
pub fn start_args(model_id: &str) -> (a: Vec<String>)
    ensures
        strs(a@) == seq!["--provider"@, PROVIDER@, "--model"@, model_id@],
{
    let mut a: Vec<String> = Vec::new();
    a.push(string_of(&lit("--provider")));
    a.push(string_of(&lit(PROVIDER)));
    a.push(string_of(&lit("--model")));
    a.push(string_of(&lit(model_id)));
    assert(strs(a@) =~= seq!["--provider"@, PROVIDER@, "--model"@, model_id@]);
    a
}

/// `npm install -g` of `package`: at `@latest` to update, and without
/// running its scripts when asked.
pub open spec fn npm_install_args_of(package: Seq<char>, latest: bool, ignore_scripts: bool) -> Seq<
    Seq<char>,
> {
    seq!["install"@, "-g"@] + (if ignore_scripts {
        seq!["--ignore-scripts"@]
    } else {
        seq![]
    }) + seq![
        if latest {
            package + "@latest"@
        } else {
            package
        },
    ]
}

pub fn npm_install_args(package: &str, latest: bool, ignore_scripts: bool) -> (a: Vec<String>)
    ensures
        strs(a@) == npm_install_args_of(package@, latest, ignore_scripts),
{
    let mut a: Vec<String> = Vec::new();
    a.push(string_of(&lit("install")));
    a.push(string_of(&lit("-g")));
    if ignore_scripts {
        a.push(string_of(&lit("--ignore-scripts")));
    }
    let mut spec = lit(package);
    if latest {
        extend(&mut spec, &lit("@latest"));
    }
    a.push(string_of(&spec));
    assert(strs(a@) =~= npm_install_args_of(package@, latest, ignore_scripts));
    a
}


/// What a text frame from the terminal page asks for.
#[derive(Debug, Clone, PartialEq, Eq)]
pub enum TermCommand {
    Resize { cols: u16, rows: u16 },
    Input(String),
    Ignored,
}

/// A text frame `{"resize": [cols, rows]}` resizes the terminal (80
/// columns or 24 rows where a value is not a number, each cut to 16 bits);
/// else `{"input": text}` types `text`; anything else is ignored.
/// `resize` is the array under `resize` (each element as a number, when it
/// is one), `input` the string under `input`.
pub fn term_command(resize: Option<&[Option<u64>]>, input: Option<&str>) -> (c: TermCommand)
    ensures
        match resize {
            Some(size) if size@.len() == 2 => c == TermCommand::Resize {
                cols: (match size@[0] {
                    Some(v) => v,
                    None => 80u64,
                }) as u16,
                rows: (match size@[1] {
                    Some(v) => v,
                    None => 24u64,
                }) as u16,
            },
            _ => match input {
                Some(t) => c matches TermCommand::Input(s) && s@ == t@,
                None => c == TermCommand::Ignored,
            },
        },
{
    if let Some(size) = resize {
        if size.len() == 2 {
            let c: u64 = match size[0] {
                Some(v) => v,
                None => 80,
            };
            let r: u64 = match size[1] {
                Some(v) => v,
                None => 24,
            };
            return TermCommand::Resize {
                cols: #[verifier::truncate] (c as u16),
                rows: #[verifier::truncate] (r as u16),
            };
        }
    }
    match input {
        Some(t) => TermCommand::Input(string_of(&lit(t))),
        None => TermCommand::Ignored,
    }
}

/// What a terminal page is told when `which` (pi or dsh) is not running.
pub open spec fn no_session_message_of(which: Seq<char>) -> Seq<char> {
    "{\"error\":\"no "@ + which + " session\"}"@
}

pub fn no_session_message(which: &str) -> (m: String)
    ensures
        m@ == no_session_message_of(which@),
{
    let mut v = lit("{\"error\":\"no ");
    extend(&mut v, &lit(which));
    extend(&mut v, &lit(" session\"}"));
    assert(v@ =~= no_session_message_of(which@));
    string_of(&v)
}


/// The monitor's provider entry for pi as JSON text (the fields of
/// `models_json_provider`, keys in order).
pub open spec fn pi_provider_json(monitor_port: u16, model_id: Seq<char>, model_name: Seq<char>, context_window: u64) -> Seq<char> {
    "{\"api\":\"openai-completions\",\"apiKey\":\"llama-admin-monitor\",\"baseUrl\":"@
        + crate::doc::json_string(base_url_of(monitor_port)) + ",\"models\":[{\"contextWindow\":"@
        + crate::text::dec(context_window as nat) + ",\"id\":"@ + crate::doc::json_string(model_id)
        + ",\"input\":[\"text\"],\"maxTokens\":"@ + crate::text::dec(max_tokens_for(context_window as nat))
        + ",\"name\":"@ + crate::doc::json_string(model_name) + ",\"reasoning\":false}]}"@
}

pub fn pi_provider_json_text(monitor_port: u16, model_id: &str, model_name: &str, context_window: u64) -> (t: String)
    ensures
        t@ == pi_provider_json(monitor_port, model_id@, model_name@, context_window),
{
    let mut v = lit("{\"api\":\"openai-completions\",\"apiKey\":\"llama-admin-monitor\",\"baseUrl\":");
    let url = base_url(monitor_port);
    crate::doc::push_json_string(&mut v, url.as_str());
    extend(&mut v, &lit(",\"models\":[{\"contextWindow\":"));
    crate::text::push_dec(&mut v, context_window);
    extend(&mut v, &lit(",\"id\":"));
    crate::doc::push_json_string(&mut v, model_id);
    extend(&mut v, &lit(",\"input\":[\"text\"],\"maxTokens\":"));
    crate::text::push_dec(&mut v, max_tokens(context_window));
    extend(&mut v, &lit(",\"name\":"));
    crate::doc::push_json_string(&mut v, model_name);
    extend(&mut v, &lit(",\"reasoning\":false}]}"));
    assert(v@ =~= pi_provider_json(monitor_port, model_id@, model_name@, context_window));
    string_of(&v)
}

/// pi's models.json after the monitor's provider is merged in: `old` is the
/// file's text (none when it could not be read, which counts as `{}`);
/// text that is not JSON is refused with the parser's message, a document
/// or `providers` that is not an object as `models_json_refusal` says;
/// otherwise `providers` is created when missing and the provider is set
/// in it, everything else kept, printed pretty.
pub open spec fn models_json_update_of(old: Option<Seq<char>>, path: Seq<char>, value: Seq<char>) -> Result<
    Seq<char>,
    Seq<char>,
> {
    let t0 = match old {
        Some(t) => t,
        None => "{}"@,
    };
    match crate::doc::json_node(t0, None) {
        Err(e) => Err(path + " is not valid JSON: "@ + e),
        Ok(root) => match crate::doc::json_node(t0, Some("providers"@)) {
            Err(e) => Err(e),
            Ok(k) => match models_json_refusal_of(root, k) {
                Some(r) => Err(models_json_refusal_text_of(r, path)),
                None => {
                    let t1 = if k == Node::Absent {
                        crate::doc::json_set(t0, None, "providers"@, "{}"@)
                    } else {
                        Ok(t0)
                    };
                    match t1 {
                        Err(e) => Err(e),
                        Ok(t) => crate::doc::json_set(t, Some("providers"@), PROVIDER@, value),
                    }
                },
            },
        },
    }
}

/// What `write_models_json` writes to pi's models.json at `path` for the
/// monitor on `monitor_port` serving `model_id`, or why it writes nothing.
pub fn updated_models_json(
    old: Option<&str>,
    path: &str,
    monitor_port: u16,
    model_id: &str,
    model_name: &str,
    context_window: u64,
) -> (r: Result<String, String>)
    ensures
        crate::doc::result_view(r) == models_json_update_of(
            crate::doc::opt_view(old),
            path@,
            pi_provider_json(monitor_port, model_id@, model_name@, context_window),
        ),
{
    let t0: &str = match old {
        Some(t) => t,
        None => "{}",
    };
    let root = match crate::doc::json_kind(t0, None) {
        Err(e) => {
            let mut v = lit(path);
            extend(&mut v, &lit(" is not valid JSON: "));
            extend(&mut v, &lit(e.as_str()));
            return Err(string_of(&v));
        },
        Ok(n) => n,
    };
    let k = match crate::doc::json_kind(t0, Some("providers")) {
        Err(e) => {
            return Err(e);
        },
        Ok(n) => n,
    };
    if let Some(r) = models_json_refusal(root, k) {
        return Err(models_json_refusal_text(r, path));
    }
    let value = pi_provider_json_text(monitor_port, model_id, model_name, context_window);
    let t1 = if k == Node::Absent {
        match crate::doc::json_set_key(t0, None, "providers", "{}") {
            Err(e) => {
                return Err(e);
            },
            Ok(t) => t,
        }
    } else {
        string_of(&lit(t0))
    };
    crate::doc::json_set_key(t1.as_str(), Some("providers"), PROVIDER, value.as_str())
}

} // verus!
