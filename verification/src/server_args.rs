//! The llama-server command line for a launch configuration.
//!
//! Optional settings emit their flag only when set, so older llama-server
//! builds never receive flags they do not know. Sampling and reasoning flags
//! set here are server-level defaults; API clients can still override them
//! per request. Fractional settings travel as the text the command line
//! takes (see `ServerConfig`).
use vstd::prelude::*;
use crate::text::{
    chars_of, dec, dec_i64_string, dec_int, dec_string, extend, lemma_dec_len, push_dec, str_eq,
    string_of, trim, trim_str, views, words, words_of, zero_pad,
};

verus! {

/// A launch configuration. Settings that llama-server reads as a
/// fractional number (`temperature`, `rope_freq_base`, ...) hold the text
/// that goes on the command line, e.g. `"0.95"`.
pub struct ServerConfig {
    pub model_path: String,
    pub mmproj: String,
    pub context_size: u64,
    pub ctk: String,
    pub ctv: String,
    pub tensor_split: String,
    pub batch_size: u32,
    pub ubatch_size: u32,
    pub no_mmap: bool,
    pub port: u16,
    pub ngram_spec: bool,
    pub parallel_slots: u32,
    pub gpu_layers: Option<i32>,
    pub mlock: bool,
    pub flash_attn: String,
    pub backend: String,
    pub devices: String,
    pub split_mode: String,
    pub main_gpu: Option<u32>,
    pub threads: Option<u32>,
    pub threads_batch: Option<u32>,
    pub rope_scaling: String,
    pub rope_freq_base: Option<String>,
    pub rope_freq_scale: Option<String>,
    pub draft_model: String,
    pub draft_min: Option<u32>,
    pub draft_max: Option<u32>,
    pub spec_ngram_size: Option<u32>,
    /// Speculative decoding type override (`--spec-type`); empty uses the
    /// ngram-spec checkbox (ngram-mod).
    pub spec_type: String,
    pub draft_ngl: Option<u32>,
    pub draft_device: String,
    pub draft_threads: Option<u32>,
    pub draft_threads_batch: Option<u32>,
    pub draft_p_min: Option<String>,
    pub temperature: Option<String>,
    pub top_p: Option<String>,
    pub top_k: Option<u32>,
    pub min_p: Option<String>,
    pub repeat_penalty: Option<String>,
    pub presence_penalty: Option<String>,
    pub frequency_penalty: Option<String>,
    pub ignore_eos: bool,
    pub reasoning: String,
    pub reasoning_effort: String,
    pub reasoning_preserve: bool,
    pub chat_template_kwargs: String,
    pub fit: String,
    pub fit_target: String,
    pub kv_offload: bool,
    pub cram: Option<u32>,
    pub context_shift: bool,
    pub no_warmup: bool,
    pub mmproj_device: String,
    pub mmproj_offload: bool,
    pub image_min_tokens: Option<u32>,
    pub image_max_tokens: Option<u32>,
    pub seed: Option<i64>,
    pub system_prompt_file: String,
    pub extra_args: String,
}

/// Every text setting empty, every number 0, every switch off and every
/// optional setting unset.
pub open spec fn blank_config(c: ServerConfig) -> bool {
    &&& c.model_path@.len() == 0
    &&& c.mmproj@.len() == 0
    &&& c.context_size == 0
    &&& c.ctk@.len() == 0
    &&& c.ctv@.len() == 0
    &&& c.tensor_split@.len() == 0
    &&& c.batch_size == 0
    &&& c.ubatch_size == 0
    &&& !c.no_mmap
    &&& c.port == 0
    &&& !c.ngram_spec
    &&& c.parallel_slots == 0
    &&& c.gpu_layers is None
    &&& !c.mlock
    &&& c.flash_attn@.len() == 0
    &&& c.backend@.len() == 0
    &&& c.devices@.len() == 0
    &&& c.split_mode@.len() == 0
    &&& c.main_gpu is None
    &&& c.threads is None
    &&& c.threads_batch is None
    &&& c.rope_scaling@.len() == 0
    &&& c.rope_freq_base is None
    &&& c.rope_freq_scale is None
    &&& c.draft_model@.len() == 0
    &&& c.draft_min is None
    &&& c.draft_max is None
    &&& c.spec_ngram_size is None
    &&& c.spec_type@.len() == 0
    &&& c.draft_ngl is None
    &&& c.draft_device@.len() == 0
    &&& c.draft_threads is None
    &&& c.draft_threads_batch is None
    &&& c.draft_p_min is None
    &&& c.temperature is None
    &&& c.top_p is None
    &&& c.top_k is None
    &&& c.min_p is None
    &&& c.repeat_penalty is None
    &&& c.presence_penalty is None
    &&& c.frequency_penalty is None
    &&& !c.ignore_eos
    &&& c.reasoning@.len() == 0
    &&& c.reasoning_effort@.len() == 0
    &&& !c.reasoning_preserve
    &&& c.chat_template_kwargs@.len() == 0
    &&& c.fit@.len() == 0
    &&& c.fit_target@.len() == 0
    &&& !c.kv_offload
    &&& c.cram is None
    &&& !c.context_shift
    &&& !c.no_warmup
    &&& c.mmproj_device@.len() == 0
    &&& !c.mmproj_offload
    &&& c.image_min_tokens is None
    &&& c.image_max_tokens is None
    &&& c.seed is None
    &&& c.system_prompt_file@.len() == 0
    &&& c.extra_args@.len() == 0
}

impl Default for ServerConfig {
    fn default() -> (c: Self)
        ensures
            blank_config(c),
    {
        ServerConfig {
            model_path: String::new(),
            mmproj: String::new(),
            context_size: 0,
            ctk: String::new(),
            ctv: String::new(),
            tensor_split: String::new(),
            batch_size: 0,
            ubatch_size: 0,
            no_mmap: false,
            port: 0,
            ngram_spec: false,
            parallel_slots: 0,
            gpu_layers: None,
            mlock: false,
            flash_attn: String::new(),
            backend: String::new(),
            devices: String::new(),
            split_mode: String::new(),
            main_gpu: None,
            threads: None,
            threads_batch: None,
            rope_scaling: String::new(),
            rope_freq_base: None,
            rope_freq_scale: None,
            draft_model: String::new(),
            draft_min: None,
            draft_max: None,
            spec_ngram_size: None,
            spec_type: String::new(),
            draft_ngl: None,
            draft_device: String::new(),
            draft_threads: None,
            draft_threads_batch: None,
            draft_p_min: None,
            temperature: None,
            top_p: None,
            top_k: None,
            min_p: None,
            repeat_penalty: None,
            presence_penalty: None,
            frequency_penalty: None,
            ignore_eos: false,
            reasoning: String::new(),
            reasoning_effort: String::new(),
            reasoning_preserve: false,
            chat_template_kwargs: String::new(),
            fit: String::new(),
            fit_target: String::new(),
            kv_offload: false,
            cram: None,
            context_shift: false,
            no_warmup: false,
            mmproj_device: String::new(),
            mmproj_offload: false,
            image_min_tokens: None,
            image_max_tokens: None,
            seed: None,
            system_prompt_file: String::new(),
            extra_args: String::new(),
        }
    }
}

/// The serde default of `no_warmup`: skip the warmup pass.
pub fn default_no_warmup() -> (b: bool)
    ensures
        b,
{
    true
}

// ---------------------------------------------------------------- spec

/// The characters of each argument.
pub open spec fn arg_views(a: Seq<String>) -> Seq<Seq<char>> {
    a.map_values(|s: String| s@)
}

pub open spec fn flag(on: bool, f: Seq<char>) -> Seq<Seq<char>> {
    if on {
        seq![f]
    } else {
        seq![]
    }
}

/// `flag value` when `value` is non-empty.
pub open spec fn opt_val(f: Seq<char>, v: Seq<char>) -> Seq<Seq<char>> {
    if v.len() > 0 {
        seq![f, v]
    } else {
        seq![]
    }
}

pub open spec fn opt_num(f: Seq<char>, v: Option<u32>) -> Seq<Seq<char>> {
    match v {
        Some(n) => seq![f, dec(n as nat)],
        None => seq![],
    }
}

pub open spec fn opt_text(f: Seq<char>, v: Option<String>) -> Seq<Seq<char>> {
    match v {
        Some(t) => seq![f, t@],
        None => seq![],
    }
}

/// Model, projector and projector placement.
pub open spec fn model_part(c: ServerConfig) -> Seq<Seq<char>> {
    seq!["-m"@, c.model_path@] + opt_val("--mmproj"@, c.mmproj@) + opt_val(
        "--mmdev"@,
        c.mmproj_device@,
    ) + flag(c.mmproj_offload, "--mmproj-offload"@) + opt_num(
        "--image-min-tokens"@,
        c.image_min_tokens,
    ) + opt_num("--image-max-tokens"@, c.image_max_tokens)
}

/// The flags every launch carries.
pub open spec fn core_part(c: ServerConfig) -> Seq<Seq<char>> {
    seq![
        "-ngl"@,
        dec_int((if c.gpu_layers is Some { c.gpu_layers->0 } else { 99i32 }) as int),
        "-ctk"@,
        c.ctk@,
        "-ctv"@,
        c.ctv@,
        "--host"@,
        "0.0.0.0"@,
        "--port"@,
        dec(c.port as nat),
        "-c"@,
        dec(c.context_size as nat),
        "-b"@,
        dec(c.batch_size as nat),
        "-ub"@,
        dec(c.ubatch_size as nat),
        if c.no_warmup { "--no-warmup"@ } else { "--warmup"@ },
        "--jinja"@,
        "--metrics"@,
        "--webui-mcp-proxy"@,
    ]
}

pub open spec fn fit_part(fit: Seq<char>) -> Seq<Seq<char>> {
    if fit == "on"@ {
        seq!["--fit"@, "on"@]
    } else if fit == "off"@ {
        seq!["--fit"@, "off"@]
    } else {
        seq![]
    }
}

/// Memory and KV cache.
pub open spec fn memory_part(c: ServerConfig) -> Seq<Seq<char>> {
    flag(c.no_mmap, "--no-mmap"@) + flag(c.mlock, "--mlock"@) + fit_part(c.fit@) + opt_val(
        "--fitt"@,
        c.fit_target@,
    ) + flag(c.kv_offload, "--kv-offload"@) + opt_num("--cram"@, c.cram) + flag(
        c.context_shift,
        "--context-shift"@,
    )
}

/// Server-level sampling defaults.
pub open spec fn sampling_part(c: ServerConfig) -> Seq<Seq<char>> {
    opt_text("--temp"@, c.temperature) + opt_text("--top-p"@, c.top_p) + opt_num(
        "--top-k"@,
        c.top_k,
    ) + opt_text("--min-p"@, c.min_p) + opt_text("--repeat-penalty"@, c.repeat_penalty)
        + opt_text("--presence-penalty"@, c.presence_penalty) + opt_text(
        "--frequency-penalty"@,
        c.frequency_penalty,
    ) + flag(c.ignore_eos, "--ignore-eos"@)
}

/// Reasoning / thinking control.
pub open spec fn reasoning_part(c: ServerConfig) -> Seq<Seq<char>> {
    opt_val("--rea"@, c.reasoning@) + opt_val("--reasoning-effort"@, c.reasoning_effort@) + flag(
        c.reasoning_preserve,
        "--reasoning-preserve"@,
    ) + opt_val("--chat-template-kwargs"@, c.chat_template_kwargs@)
}

/// Attention, devices, GPU distribution and threading. A CUDA build only
/// ever sees the NVIDIA card, so a tensor split is not passed to it.
pub open spec fn device_part(c: ServerConfig, use_cuda: bool) -> Seq<Seq<char>> {
    opt_val("-fa"@, c.flash_attn@) + opt_val("--device"@, trim(c.devices@)) + (if !use_cuda {
        opt_val("-ts"@, c.tensor_split@)
    } else {
        seq![]
    }) + opt_val("--split-mode"@, c.split_mode@) + opt_num("-mg"@, c.main_gpu) + opt_num(
        "-t"@,
        c.threads,
    ) + opt_num("-tb"@, c.threads_batch)
}

/// Contexts above this get YaRN scaling unless rope settings are given.
pub open spec fn yarn_threshold() -> nat {
    262144
}

/// The least power of two that is at least `t`.
pub open spec fn least_pow2(t: nat) -> nat
    decreases t,
{
    if t <= 1 {
        1
    } else {
        2 * least_pow2(((t + 1) / 2) as nat)
    }
}

/// `a / b` rounded to the nearest integer, ties to even.
pub open spec fn rne_div(a: nat, b: nat) -> nat {
    let q = a / b;
    let r = a % b;
    if 2 * r > b || (2 * r == b && q % 2 == 1) {
        q + 1
    } else {
        q
    }
}

/// The six decimals of `262144.0 / ctx as f64` as `{:.6}` prints them,
/// for `ctx > 262144`: `c` is `ctx` as an `f64` (53 bits, ties to even);
/// the quotient, rounded to 53 bits (ties to even), is `m / p` with `p` the
/// power of two that puts `2^18 * p / c` in [2^52, 2^53]; that value is
/// then rounded to six decimals, ties to even.
pub open spec fn yarn_scale_digits(ctx: nat) -> nat {
    let c = crate::models::as_f64(ctx);
    let p = least_pow2(c * 0x4_0000_0000);
    let m = rne_div(0x4_0000 * p, c);
    rne_div(m * 1_000_000, p)
}

pub proof fn lemma_least_pow2(t: nat)
    requires
        t >= 1,
    ensures
        t <= least_pow2(t),
        t >= 2 ==> least_pow2(t) <= 2 * t - 2,
        least_pow2(t) >= 1,
        t >= 2 ==> least_pow2(t) >= 2,
    decreases t,
{
    if t > 1 {
        lemma_least_pow2(((t + 1) / 2) as nat);
    }
}

fn least_pow2_exec(t: u128) -> (p: u128)
    requires
        1 <= t <= 0x10_0000_0000_0000_0000_0000_0000,
    ensures
        p == least_pow2(t as nat),
        t <= p <= 2 * t,
{
    proof {
        lemma_least_pow2(t as nat);
    }
    let mut x: u128 = t;
    let mut p: u128 = 1;
    while x > 1
        invariant
            1 <= x <= t,
            1 <= p,
            t <= 0x10_0000_0000_0000_0000_0000_0000,
            p * least_pow2(x as nat) == least_pow2(t as nat),
            least_pow2(t as nat) <= 2 * t,
        decreases x,
    {
        let h = (x + 1) / 2;
        proof {
            lemma_least_pow2(h as nat);
            assert(least_pow2(x as nat) == 2 * least_pow2(h as nat));
            assert(p * (2 * least_pow2(h as nat)) == (p * 2) * least_pow2(h as nat)) by (nonlinear_arith);
            assert(p * 2 <= (p * 2) * least_pow2(h as nat)) by (nonlinear_arith)
                requires
                    least_pow2(h as nat) >= 1,
                    p >= 1,
            ;
        }
        p = p * 2;
        x = h;
    }
    proof {
        assert(x == 1);
        assert(least_pow2(x as nat) == 1);
        assert(p * least_pow2(x as nat) == p) by (nonlinear_arith)
            requires
                least_pow2(x as nat) == 1,
        ;
        lemma_least_pow2(t as nat);
    }
    p
}

fn rne_div_exec(a: u128, b: u128) -> (r: u128)
    requires
        b > 0,
        a / b < u128::MAX,
    ensures
        r == rne_div(a as nat, b as nat),
        r <= a / b + 1,
{
    let q = a / b;
    let r = a % b;
    if r > b - r || (r == b - r && q % 2 == 1) {
        q + 1
    } else {
        q
    }
}

pub open spec fn yarn_scale_text(ctx: nat) -> Seq<char> {
    "0."@ + zero_pad(dec(yarn_scale_digits(ctx)), 6)
}

/// Rope scaling: explicit settings first, else automatic YaRN for large
/// contexts.
pub open spec fn rope_part(c: ServerConfig) -> Seq<Seq<char>> {
    let big = c.context_size > yarn_threshold();
    (if c.rope_scaling@.len() > 0 {
        seq!["--rope-scaling"@, c.rope_scaling@]
    } else if big {
        seq!["--rope-scaling"@, "yarn"@]
    } else {
        seq![]
    }) + opt_text("--rope-freq-base"@, c.rope_freq_base) + (match c.rope_freq_scale {
        Some(t) => seq!["--rope-freq-scale"@, t@],
        None => if c.rope_scaling@.len() == 0 && big {
            seq![
                "--rope-freq-scale"@,
                yarn_scale_text(c.context_size as nat),
                "--yarn-ext-factor"@,
                "1.0"@,
                "--yarn-attn-factor"@,
                "1.0"@,
                "--yarn-beta-fast"@,
                "32"@,
                "--yarn-beta-slow"@,
                "1"@,
            ]
        } else {
            seq![]
        },
    })
}

/// The speculative decoding type in effect: the explicit override, else
/// the legacy ngram-spec checkbox (which means ngram-mod).
pub open spec fn effective_spec_type(c: ServerConfig) -> Seq<char> {
    if c.spec_type@.len() > 0 {
        c.spec_type@
    } else if c.ngram_spec {
        "ngram-mod"@
    } else {
        seq![]
    }
}

pub open spec fn is_ngram_type(t: Seq<char>) -> bool {
    t == "ngram-mod"@ || t == "ngram-simple"@ || t == "ngram-map-k"@ || t == "ngram-map-k4v"@
        || t == "ngram-cache"@
}

pub open spec fn unwrap_or(v: Option<u32>, d: u32) -> u32 {
    if v is Some {
        v->0
    } else {
        d
    }
}

/// The speculative decoding type and its sizes.
pub open spec fn spec_head(c: ServerConfig) -> Seq<Seq<char>> {
    let st = effective_spec_type(c);
    if st.len() > 0 && st != "none"@ {
        seq!["--spec-type"@, st] + (if is_ngram_type(st) {
            seq!["--spec-ngram-size-n"@, dec(unwrap_or(c.spec_ngram_size, 24) as nat)]
        } else {
            seq![]
        }) + seq![
            "--draft-min"@,
            dec(unwrap_or(c.draft_min, 8) as nat),
            "--draft-max"@,
            dec(unwrap_or(c.draft_max, 24) as nat),
        ]
    } else {
        seq![]
    }
}

/// Speculative decoding and the draft model.
pub open spec fn spec_part(c: ServerConfig) -> Seq<Seq<char>> {
    spec_head(c) + opt_val("-md"@, c.draft_model@) + opt_num("--spec-draft-ngl"@, c.draft_ngl) + opt_val(
        "--spec-draft-device"@,
        c.draft_device@,
    ) + opt_num("--spec-draft-threads"@, c.draft_threads) + opt_num(
        "--spec-draft-threads-batch"@,
        c.draft_threads_batch,
    ) + opt_text("--draft-p-min"@, c.draft_p_min)
}

/// Slots, seed, system prompt, then the free-form extra arguments.
pub open spec fn tail_part(c: ServerConfig) -> Seq<Seq<char>> {
    (if c.parallel_slots > 0 {
        seq!["--parallel"@, dec(c.parallel_slots as nat)]
    } else {
        seq![]
    }) + (match c.seed {
        Some(s) => seq!["--seed"@, dec_int(s as int)],
        None => seq![],
    }) + opt_val("--system-prompt-file"@, c.system_prompt_file@) + words(c.extra_args@)
}

/// The whole llama-server argument list.
pub open spec fn server_args(c: ServerConfig, use_cuda: bool) -> Seq<Seq<char>> {
    model_part(c) + core_part(c) + memory_part(c) + sampling_part(c) + reasoning_part(c)
        + device_part(c, use_cuda) + rope_part(c) + spec_part(c) + tail_part(c)
}

// ---------------------------------------------------------------- exec

fn push_lit(a: &mut Vec<String>, s: &str)
    ensures
        arg_views(final(a)@) == arg_views(old(a)@).push(s@),
{
    a.push(s.to_owned());
    assert(arg_views(a@) =~= arg_views(old(a)@).push(s@));
}

fn push_string(a: &mut Vec<String>, s: String)
    ensures
        arg_views(final(a)@) == arg_views(old(a)@).push(s@),
{
    a.push(s);
    assert(arg_views(a@) =~= arg_views(old(a)@).push(s@));
}

fn push_flag(a: &mut Vec<String>, on: bool, f: &str)
    ensures
        arg_views(final(a)@) == arg_views(old(a)@) + flag(on, f@),
{
    if on {
        push_lit(a, f);
    }
    assert(arg_views(a@) =~= arg_views(old(a)@) + flag(on, f@));
}

fn push_opt_val(a: &mut Vec<String>, f: &str, v: &String)
    ensures
        arg_views(final(a)@) == arg_views(old(a)@) + opt_val(f@, v@),
{
    if !v.as_str().is_empty() {
        push_lit(a, f);
        push_string(a, v.clone());
    }
    assert(arg_views(a@) =~= arg_views(old(a)@) + opt_val(f@, v@));
}

fn push_opt_num(a: &mut Vec<String>, f: &str, v: Option<u32>)
    ensures
        arg_views(final(a)@) == arg_views(old(a)@) + opt_num(f@, v),
{
    if let Some(n) = v {
        push_lit(a, f);
        push_string(a, dec_string(n as u64));
    }
    assert(arg_views(a@) =~= arg_views(old(a)@) + opt_num(f@, v));
}

fn push_opt_text(a: &mut Vec<String>, f: &str, v: &Option<String>)
    ensures
        arg_views(final(a)@) == arg_views(old(a)@) + opt_text(f@, *v),
{
    if let Some(t) = v {
        push_lit(a, f);
        push_string(a, t.clone());
    }
    assert(arg_views(a@) =~= arg_views(old(a)@) + opt_text(f@, *v));
}

fn push_model(a: &mut Vec<String>, c: &ServerConfig)
    ensures
        arg_views(final(a)@) == arg_views(old(a)@) + model_part(*c),
{
    push_lit(a, "-m");
    push_string(a, c.model_path.clone());
    push_opt_val(a, "--mmproj", &c.mmproj);
    push_opt_val(a, "--mmdev", &c.mmproj_device);
    push_flag(a, c.mmproj_offload, "--mmproj-offload");
    push_opt_num(a, "--image-min-tokens", c.image_min_tokens);
    push_opt_num(a, "--image-max-tokens", c.image_max_tokens);
    assert(arg_views(a@) =~= arg_views(old(a)@) + model_part(*c));
}

fn push_core(a: &mut Vec<String>, c: &ServerConfig)
    ensures
        arg_views(final(a)@) == arg_views(old(a)@) + core_part(*c),
{
    push_lit(a, "-ngl");
    let ngl: i32 = match c.gpu_layers {
        Some(n) => n,
        None => 99,
    };
    push_string(a, dec_i64_string(ngl as i64));
    push_lit(a, "-ctk");
    push_string(a, c.ctk.clone());
    push_lit(a, "-ctv");
    push_string(a, c.ctv.clone());
    push_lit(a, "--host");
    push_lit(a, "0.0.0.0");
    push_lit(a, "--port");
    push_string(a, dec_string(c.port as u64));
    push_lit(a, "-c");
    push_string(a, dec_string(c.context_size));
    push_lit(a, "-b");
    push_string(a, dec_string(c.batch_size as u64));
    push_lit(a, "-ub");
    push_string(a, dec_string(c.ubatch_size as u64));
    if c.no_warmup {
        push_lit(a, "--no-warmup");
    } else {
        push_lit(a, "--warmup");
    }
    push_lit(a, "--jinja");
    push_lit(a, "--metrics");
    push_lit(a, "--webui-mcp-proxy");
    assert(arg_views(a@) =~= arg_views(old(a)@) + core_part(*c));
}

fn push_fit(a: &mut Vec<String>, fit: &String)
    ensures
        arg_views(final(a)@) == arg_views(old(a)@) + fit_part(fit@),
{
    if str_eq(fit.as_str(), "on") {
        push_lit(a, "--fit");
        push_lit(a, "on");
    } else if str_eq(fit.as_str(), "off") {
        push_lit(a, "--fit");
        push_lit(a, "off");
    }
    assert(arg_views(a@) =~= arg_views(old(a)@) + fit_part(fit@));
}

fn push_memory(a: &mut Vec<String>, c: &ServerConfig)
    ensures
        arg_views(final(a)@) == arg_views(old(a)@) + memory_part(*c),
{
    let ghost base = arg_views(a@);
    push_flag(a, c.no_mmap, "--no-mmap");
    push_flag(a, c.mlock, "--mlock");
    proof {
        vstd::seq_lib::lemma_concat_associative(base, flag(c.no_mmap, "--no-mmap"@), flag(c.mlock, "--mlock"@));
    }
    push_fit(a, &c.fit);
    proof {
        vstd::seq_lib::lemma_concat_associative(base, flag(c.no_mmap, "--no-mmap"@) + flag(c.mlock, "--mlock"@), fit_part(c.fit@));
    }
    push_opt_val(a, "--fitt", &c.fit_target);
    proof {
        vstd::seq_lib::lemma_concat_associative(base, flag(c.no_mmap, "--no-mmap"@) + flag(c.mlock, "--mlock"@) + fit_part(c.fit@), opt_val("--fitt"@, c.fit_target@));
    }
    push_flag(a, c.kv_offload, "--kv-offload");
    proof {
        vstd::seq_lib::lemma_concat_associative(base, flag(c.no_mmap, "--no-mmap"@) + flag(c.mlock, "--mlock"@) + fit_part(c.fit@) + opt_val("--fitt"@, c.fit_target@), flag(c.kv_offload, "--kv-offload"@));
    }
    push_opt_num(a, "--cram", c.cram);
    proof {
        vstd::seq_lib::lemma_concat_associative(base, flag(c.no_mmap, "--no-mmap"@) + flag(c.mlock, "--mlock"@) + fit_part(c.fit@) + opt_val("--fitt"@, c.fit_target@) + flag(c.kv_offload, "--kv-offload"@), opt_num("--cram"@, c.cram));
    }
    push_flag(a, c.context_shift, "--context-shift");
    proof {
        vstd::seq_lib::lemma_concat_associative(base, flag(c.no_mmap, "--no-mmap"@) + flag(c.mlock, "--mlock"@) + fit_part(c.fit@) + opt_val("--fitt"@, c.fit_target@) + flag(c.kv_offload, "--kv-offload"@) + opt_num("--cram"@, c.cram), flag(c.context_shift, "--context-shift"@));
    }
    assert(arg_views(a@) == base + flag(c.no_mmap, "--no-mmap"@) + flag(c.mlock, "--mlock"@) + fit_part(c.fit@) + opt_val("--fitt"@, c.fit_target@) + flag(c.kv_offload, "--kv-offload"@) + opt_num("--cram"@, c.cram) + flag(c.context_shift, "--context-shift"@));
}

fn push_sampling(a: &mut Vec<String>, c: &ServerConfig)
    ensures
        arg_views(final(a)@) == arg_views(old(a)@) + sampling_part(*c),
{
    let ghost base = arg_views(a@);
    push_opt_text(a, "--temp", &c.temperature);
    push_opt_text(a, "--top-p", &c.top_p);
    proof {
        vstd::seq_lib::lemma_concat_associative(base, opt_text("--temp"@, c.temperature), opt_text("--top-p"@, c.top_p));
    }
    push_opt_num(a, "--top-k", c.top_k);
    proof {
        vstd::seq_lib::lemma_concat_associative(base, opt_text("--temp"@, c.temperature) + opt_text("--top-p"@, c.top_p), opt_num("--top-k"@, c.top_k));
    }
    push_opt_text(a, "--min-p", &c.min_p);
    proof {
        vstd::seq_lib::lemma_concat_associative(base, opt_text("--temp"@, c.temperature) + opt_text("--top-p"@, c.top_p) + opt_num("--top-k"@, c.top_k), opt_text("--min-p"@, c.min_p));
    }
    push_opt_text(a, "--repeat-penalty", &c.repeat_penalty);
    proof {
        vstd::seq_lib::lemma_concat_associative(base, opt_text("--temp"@, c.temperature) + opt_text("--top-p"@, c.top_p) + opt_num("--top-k"@, c.top_k) + opt_text("--min-p"@, c.min_p), opt_text("--repeat-penalty"@, c.repeat_penalty));
    }
    push_opt_text(a, "--presence-penalty", &c.presence_penalty);
    proof {
        vstd::seq_lib::lemma_concat_associative(base, opt_text("--temp"@, c.temperature) + opt_text("--top-p"@, c.top_p) + opt_num("--top-k"@, c.top_k) + opt_text("--min-p"@, c.min_p) + opt_text("--repeat-penalty"@, c.repeat_penalty), opt_text("--presence-penalty"@, c.presence_penalty));
    }
    push_opt_text(a, "--frequency-penalty", &c.frequency_penalty);
    proof {
        vstd::seq_lib::lemma_concat_associative(base, opt_text("--temp"@, c.temperature) + opt_text("--top-p"@, c.top_p) + opt_num("--top-k"@, c.top_k) + opt_text("--min-p"@, c.min_p) + opt_text("--repeat-penalty"@, c.repeat_penalty) + opt_text("--presence-penalty"@, c.presence_penalty), opt_text("--frequency-penalty"@, c.frequency_penalty));
    }
    push_flag(a, c.ignore_eos, "--ignore-eos");
    proof {
        vstd::seq_lib::lemma_concat_associative(base, opt_text("--temp"@, c.temperature) + opt_text("--top-p"@, c.top_p) + opt_num("--top-k"@, c.top_k) + opt_text("--min-p"@, c.min_p) + opt_text("--repeat-penalty"@, c.repeat_penalty) + opt_text("--presence-penalty"@, c.presence_penalty) + opt_text("--frequency-penalty"@, c.frequency_penalty), flag(c.ignore_eos, "--ignore-eos"@));
    }
    assert(arg_views(a@) == base + opt_text("--temp"@, c.temperature) + opt_text("--top-p"@, c.top_p) + opt_num("--top-k"@, c.top_k) + opt_text("--min-p"@, c.min_p) + opt_text("--repeat-penalty"@, c.repeat_penalty) + opt_text("--presence-penalty"@, c.presence_penalty) + opt_text("--frequency-penalty"@, c.frequency_penalty) + flag(c.ignore_eos, "--ignore-eos"@));
}

fn push_reasoning(a: &mut Vec<String>, c: &ServerConfig)
    ensures
        arg_views(final(a)@) == arg_views(old(a)@) + reasoning_part(*c),
{
    push_opt_val(a, "--rea", &c.reasoning);
    push_opt_val(a, "--reasoning-effort", &c.reasoning_effort);
    push_flag(a, c.reasoning_preserve, "--reasoning-preserve");
    push_opt_val(a, "--chat-template-kwargs", &c.chat_template_kwargs);
    assert(arg_views(a@) =~= arg_views(old(a)@) + reasoning_part(*c));
}

fn push_split(a: &mut Vec<String>, c: &ServerConfig, use_cuda: bool)
    ensures
        arg_views(final(a)@) == arg_views(old(a)@) + (if !use_cuda {
            opt_val("-ts"@, c.tensor_split@)
        } else {
            seq![]
        }),
{
    if !use_cuda {
        push_opt_val(a, "-ts", &c.tensor_split);
    }
    assert(arg_views(a@) =~= arg_views(old(a)@) + (if !use_cuda {
        opt_val("-ts"@, c.tensor_split@)
    } else {
        seq![]
    }));
}

fn push_devices(a: &mut Vec<String>, c: &ServerConfig, use_cuda: bool)
    ensures
        arg_views(final(a)@) == arg_views(old(a)@) + device_part(*c, use_cuda),
{
    let ghost base = arg_views(a@);
    push_opt_val(a, "-fa", &c.flash_attn);
    let devices = string_of(&trim_str(c.devices.as_str()));
    push_opt_val(a, "--device", &devices);
    let ghost x1 = opt_val("-fa"@, c.flash_attn@);
    let ghost x2 = opt_val("--device"@, trim(c.devices@));
    let ghost x3 = if !use_cuda {
        opt_val("-ts"@, c.tensor_split@)
    } else {
        seq![]
    };
    let ghost x4 = opt_val("--split-mode"@, c.split_mode@);
    let ghost x5 = opt_num("-mg"@, c.main_gpu);
    let ghost x6 = opt_num("-t"@, c.threads);
    let ghost x7 = opt_num("-tb"@, c.threads_batch);
    proof {
        vstd::seq_lib::lemma_concat_associative(base, x1, x2);
    }
    push_split(a, c, use_cuda);
    proof {
        vstd::seq_lib::lemma_concat_associative(base, x1 + x2, x3);
    }
    push_opt_val(a, "--split-mode", &c.split_mode);
    proof {
        vstd::seq_lib::lemma_concat_associative(base, x1 + x2 + x3, x4);
    }
    push_opt_num(a, "-mg", c.main_gpu);
    proof {
        vstd::seq_lib::lemma_concat_associative(base, x1 + x2 + x3 + x4, x5);
    }
    push_opt_num(a, "-t", c.threads);
    proof {
        vstd::seq_lib::lemma_concat_associative(base, x1 + x2 + x3 + x4 + x5, x6);
    }
    push_opt_num(a, "-tb", c.threads_batch);
    proof {
        vstd::seq_lib::lemma_concat_associative(base, x1 + x2 + x3 + x4 + x5 + x6, x7);
    }
    assert(arg_views(a@) == base + device_part(*c, use_cuda));
}

/// The automatic YaRN frequency scale, `262144 / ctx` to six decimals.
pub fn yarn_scale(ctx: u64) -> (out: String)
    requires
        ctx > 262144,
    ensures
        out@ == yarn_scale_text(ctx as nat),
{
    let c = crate::models::as_f64_exec(ctx);
    proof {
        crate::models::lemma_as_f64_positive(ctx as nat);
    }
    let t = c * 0x4_0000_0000;
    let p = least_pow2_exec(t);
    let num = p * 0x4_0000;
    proof {
        assert(num / c <= 0x20_0000_0000_0000) by (nonlinear_arith)
            requires
                num == p * 0x4_0000,
                p <= 2 * t,
                t == c * 0x4_0000_0000,
                c >= 1,
        ;
    }
    let m = rne_div_exec(num, c);
    let mn = m * 1_000_000;
    proof {
        assert(t >= 0x4_0000_0000) by (nonlinear_arith)
            requires
                t == c * 0x4_0000_0000,
                c >= 1,
        ;
        assert(mn / p <= 0x20_0000_0000_0001 * 1_000_000 / 0x4_0000_0000) by (nonlinear_arith)
            requires
                mn == m * 1_000_000,
                m <= 0x20_0000_0000_0001,
                p >= 0x4_0000_0000,
        ;
    }
    let dd = rne_div_exec(mn, p);
    let d: u64 = dd as u64;
    assert(d == yarn_scale_digits(ctx as nat));
    let mut v: Vec<char> = Vec::new();
    push_dec(&mut v, d);
    proof {
        lemma_dec_len(d as nat);
    }
    let mut out: Vec<char> = chars_of("0.");
    let mut pad: usize = 0;
    let width = if v.len() < 6 {
        6 - v.len()
    } else {
        0
    };
    while pad < width
        invariant
            pad <= width,
            out@ == "0."@ + Seq::new(pad as nat, |i: int| '0'),
        decreases width - pad,
    {
        out.push('0');
        assert("0."@ + Seq::new(pad as nat, |i: int| '0') + seq!['0'] =~= "0."@ + Seq::new(
            (pad + 1) as nat,
            |i: int| '0',
        ));
        pad += 1;
    }
    extend(&mut out, &v);
    assert(out@ =~= yarn_scale_text(ctx as nat));
    string_of(&out)
}

fn push_rope(a: &mut Vec<String>, c: &ServerConfig)
    ensures
        arg_views(final(a)@) == arg_views(old(a)@) + rope_part(*c),
{
    let big = c.context_size > 262144;
    if !c.rope_scaling.as_str().is_empty() {
        push_lit(a, "--rope-scaling");
        push_string(a, c.rope_scaling.clone());
    } else if big {
        push_lit(a, "--rope-scaling");
        push_lit(a, "yarn");
    }
    let ghost first = arg_views(a@);
    push_opt_text(a, "--rope-freq-base", &c.rope_freq_base);
    let ghost second = arg_views(a@);
    match &c.rope_freq_scale {
        Some(t) => {
            push_lit(a, "--rope-freq-scale");
            push_string(a, t.clone());
        },
        None => {
            if c.rope_scaling.as_str().is_empty() && big {
                push_lit(a, "--rope-freq-scale");
                push_string(a, yarn_scale(c.context_size));
                push_lit(a, "--yarn-ext-factor");
                push_lit(a, "1.0");
                push_lit(a, "--yarn-attn-factor");
                push_lit(a, "1.0");
                push_lit(a, "--yarn-beta-fast");
                push_lit(a, "32");
                push_lit(a, "--yarn-beta-slow");
                push_lit(a, "1");
            }
        },
    }
    assert(arg_views(a@) =~= arg_views(old(a)@) + rope_part(*c));
}

fn is_ngram_exec(t: &str) -> (b: bool)
    ensures
        b == is_ngram_type(t@),
{
    str_eq(t, "ngram-mod") || str_eq(t, "ngram-simple") || str_eq(t, "ngram-map-k") || str_eq(
        t,
        "ngram-map-k4v",
    ) || str_eq(t, "ngram-cache")
}

fn push_spec_type(a: &mut Vec<String>, c: &ServerConfig)
    ensures
        arg_views(final(a)@) == arg_views(old(a)@) + spec_head(*c),
{
    let st: String = if !c.spec_type.as_str().is_empty() {
        c.spec_type.clone()
    } else if c.ngram_spec {
        "ngram-mod".to_owned()
    } else {
        String::new()
    };
    assert(st@ == effective_spec_type(*c));
    if !st.as_str().is_empty() && !str_eq(st.as_str(), "none") {
        push_lit(a, "--spec-type");
        push_string(a, st.clone());
        if is_ngram_exec(st.as_str()) {
            push_lit(a, "--spec-ngram-size-n");
            let n: u32 = match c.spec_ngram_size {
                Some(n) => n,
                None => 24,
            };
            push_string(a, dec_string(n as u64));
        }
        push_lit(a, "--draft-min");
        let n: u32 = match c.draft_min {
            Some(n) => n,
            None => 8,
        };
        push_string(a, dec_string(n as u64));
        push_lit(a, "--draft-max");
        let n: u32 = match c.draft_max {
            Some(n) => n,
            None => 24,
        };
        push_string(a, dec_string(n as u64));
    }
    assert(arg_views(a@) =~= arg_views(old(a)@) + spec_head(*c));
}

fn push_spec(a: &mut Vec<String>, c: &ServerConfig)
    ensures
        arg_views(final(a)@) == arg_views(old(a)@) + spec_part(*c),
{
    push_spec_type(a, c);
    let ghost first = arg_views(a@);
    push_opt_val(a, "-md", &c.draft_model);
    push_opt_num(a, "--spec-draft-ngl", c.draft_ngl);
    push_opt_val(a, "--spec-draft-device", &c.draft_device);
    push_opt_num(a, "--spec-draft-threads", c.draft_threads);
    push_opt_num(a, "--spec-draft-threads-batch", c.draft_threads_batch);
    push_opt_text(a, "--draft-p-min", &c.draft_p_min);
    assert(arg_views(a@) =~= arg_views(old(a)@) + spec_part(*c));
}

fn push_tail(a: &mut Vec<String>, c: &ServerConfig)
    ensures
        arg_views(final(a)@) == arg_views(old(a)@) + tail_part(*c),
{
    if c.parallel_slots > 0 {
        push_lit(a, "--parallel");
        push_string(a, dec_string(c.parallel_slots as u64));
    }
    let ghost first = arg_views(a@);
    if let Some(s) = c.seed {
        push_lit(a, "--seed");
        push_string(a, dec_i64_string(s));
    }
    let ghost second = arg_views(a@);
    push_opt_val(a, "--system-prompt-file", &c.system_prompt_file);
    let ghost third = arg_views(a@);
    let extra = words_of(c.extra_args.as_str());
    let mut i: usize = 0;
    while i < extra.len()
        invariant
            i <= extra.len(),
            views(extra@) == words(c.extra_args@),
            arg_views(a@) == third + views(extra@).take(i as int),
        decreases extra.len() - i,
    {
        push_string(a, string_of(&extra[i]));
        assert(third + views(extra@).take(i as int).push(extra@[i as int]@) =~= third + views(
            extra@,
        ).take(i + 1));
        i += 1;
    }
    assert(views(extra@).take(extra.len() as int) =~= views(extra@));
    assert(arg_views(a@) =~= arg_views(old(a)@) + tail_part(*c));
}

/// The llama-server argument list for `config`. `use_cuda` marks a CUDA
/// build, which never receives a tensor split.
pub fn build_server_args(config: &ServerConfig, use_cuda: bool) -> (a: Vec<String>)
    ensures
        arg_views(a@) == server_args(*config, use_cuda),
{
    let mut a: Vec<String> = Vec::new();
    assert(arg_views(a@) =~= Seq::<Seq<char>>::empty());
    push_model(&mut a, config);
    push_core(&mut a, config);
    push_memory(&mut a, config);
    push_sampling(&mut a, config);
    push_reasoning(&mut a, config);
    push_devices(&mut a, config, use_cuda);
    push_rope(&mut a, config);
    push_spec(&mut a, config);
    push_tail(&mut a, config);
    assert(arg_views(a@) =~= server_args(*config, use_cuda));
    a
}


/// Every launch starts with `-m` and the preset's model path, and carries
/// the GPU-layer count, the KV-cache types, the
/// listening address and the batch sizes right after the model flags, each
/// value straight from the preset: after `-ngl` the decimal text of
/// `gpu_layers` when it is set, and `99` (every layer) only when it is not;
/// after `--port`, `-c`, `-b` and `-ub` the decimal text of the port, the
/// context size and the two batch sizes.
pub proof fn law_core_flags_follow_preset(c: ServerConfig, use_cuda: bool)
    ensures
        ({
            let a = server_args(c, use_cuda);
            let k = model_part(c).len() as int;
            &&& a[0] == "-m"@ && a[1] == c.model_path@
            &&& a[k] == "-ngl"@
            &&& (c.gpu_layers matches Some(n) ==> a[k + 1] == dec_int(n as int))
            &&& (c.gpu_layers is None ==> a[k + 1] == "99"@)
            &&& a[k + 2] == "-ctk"@ && a[k + 3] == c.ctk@
            &&& a[k + 4] == "-ctv"@ && a[k + 5] == c.ctv@
            &&& a[k + 6] == "--host"@ && a[k + 7] == "0.0.0.0"@
            &&& a[k + 8] == "--port"@ && a[k + 9] == dec(c.port as nat)
            &&& a[k + 10] == "-c"@ && a[k + 11] == dec(c.context_size as nat)
            &&& a[k + 12] == "-b"@ && a[k + 13] == dec(c.batch_size as nat)
            &&& a[k + 14] == "-ub"@ && a[k + 15] == dec(c.ubatch_size as nat)
        }),
{
    let m = model_part(c);
    let core = core_part(c);
    let a = server_args(c, use_cuda);
    let mc = m + core;
    assert forall|i: int| 0 <= i < core.len() implies a[m.len() + i] == core[i] by {
        assert(mc[m.len() + i] == core[i]);
    }
    reveal_strlit("99");
    assert(dec(99) == seq!['9', '9']) by {
        reveal_with_fuel(dec, 3);
        assert(dec(9) == seq!['9']);
    }
    assert("99"@ =~= seq!['9', '9']);
}

} // verus!
