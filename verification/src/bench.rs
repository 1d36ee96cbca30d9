//! llama-bench sweeps: where the binary lives, and which runs a sweep
//! makes.
use vstd::prelude::*;
use crate::server_args::ServerConfig;
use crate::text::{chars_of, extend, joined, lit, string_of};

verus! {

/// What `std::path::Path::parent` returns for a path written as `p`.
pub uninterp spec fn path_parent(p: Seq<char>) -> Option<Seq<char>>;

pub open spec fn opt_str(o: Option<String>) -> Option<Seq<char>> {
    match o {
        Some(s) => Some(s@),
        None => None,
    }
}

/// `std::path::Path::parent` on a path given as text, the parent turned
/// back into text. Its result is a function of `p` alone, named
/// `path_parent`; nothing more is claimed of it here (for "a/b" it is "a",
/// for a bare name it is empty, for "/" and "" there is none).
#[verifier::external_body]
fn parent_of(p: &str) -> (r: Option<String>)
    ensures
        opt_str(r) == path_parent(p@),
{
    std::path::Path::new(p).parent().map(|d| d.to_string_lossy().into_owned())
}

/// llama-bench next to the given parent directory, or bare when the path
/// had no parent.
pub open spec fn bench_path_of(parent: Option<Seq<char>>) -> Seq<char> {
    match parent {
        Some(d) => joined(d, "llama-bench"@),
        None => "llama-bench"@,
    }
}

/// llama-bench in the directory `parent` (the parent of the configured
/// llama-server path), or a bare `llama-bench` when there is none.
pub fn bench_path_from_parent(parent: Option<&str>) -> (s: String)
    ensures
        s@ == bench_path_of(
            match parent {
                Some(d) => Some(d@),
                None => None,
            },
        ),
{
    let mut out: Vec<char> = Vec::new();
    match parent {
        Some(d) => {
            let dv = chars_of(d);
            if dv.len() > 0 {
                extend(&mut out, &dv);
                if dv[dv.len() - 1] != '/' {
                    extend(&mut out, &lit("/"));
                }
            }
        },
        None => {},
    }
    extend(&mut out, &lit("llama-bench"));
    assert(out@ =~= bench_path_of(
        match parent {
            Some(d) => Some(d@),
            None => None,
        },
    ));
    string_of(&out)
}

/// Derive the llama-bench path from the configured llama-server path,
/// since they're built into the same directory.
pub fn bench_binary_path(server_path: &str) -> (s: String)
    ensures
        s@ == bench_path_of(path_parent(server_path@)),
{
    let parent = parent_of(server_path);
    match parent {
        Some(d) => bench_path_from_parent(Some(d.as_str())),
        None => bench_path_from_parent(None),
    }
}

/// Everything a sweep varies: every combination of the four lists is run.
#[derive(Debug, Clone)]
pub struct SweepSpec {
    pub model_path: String,
    pub splits: Vec<String>,
    pub batch_sizes: Vec<i32>,
    pub ubatch_sizes: Vec<i32>,
    pub thread_counts: Vec<i32>,
    pub gpu_layers: i32,
}

impl SweepSpec {
    pub open spec fn runs(&self) -> int {
        (self.splits@.len() * self.batch_sizes@.len() * self.ubatch_sizes@.len()
            * self.thread_counts@.len()) as int
    }

    /// Whether the number of runs fits in `usize`, as `total_runs` and
    /// `sweep_runs` need.
    pub fn runs_in_range(&self) -> (b: bool)
        ensures
            b == (self.runs() <= usize::MAX),
    {
        let a = self.splits.len();
        let b = self.batch_sizes.len();
        let c = self.ubatch_sizes.len();
        let d = self.thread_counts.len();
        proof {
            assert(a * b <= 0xffff_ffff_ffff_ffff * 0xffff_ffff_ffff_ffffint) by (nonlinear_arith)
                requires
                    a <= 0xffff_ffff_ffff_ffffint,
                    b <= 0xffff_ffff_ffff_ffffint,
            ;
            assert(c * d <= 0xffff_ffff_ffff_ffff * 0xffff_ffff_ffff_ffffint) by (nonlinear_arith)
                requires
                    c <= 0xffff_ffff_ffff_ffffint,
                    d <= 0xffff_ffff_ffff_ffffint,
            ;
        }
        let ab = a as u128 * b as u128;
        let cd = c as u128 * d as u128;
        if ab > usize::MAX as u128 || cd > usize::MAX as u128 {
            if ab == 0 || cd == 0 {
                proof {
                    assert(ab * cd == 0) by (nonlinear_arith)
                        requires
                            ab == 0 || cd == 0,
                    ;
                    assert(a * b * c * d == ab * cd) by (nonlinear_arith)
                        requires
                            ab == a * b,
                            cd == c * d,
                    ;
                }
                return true;
            }
            proof {
                assert(ab * cd >= ab && ab * cd >= cd) by (nonlinear_arith)
                    requires
                        ab >= 1,
                        cd >= 1,
                ;
                assert(a * b * c * d == ab * cd) by (nonlinear_arith)
                    requires
                        ab == a * b,
                        cd == c * d,
                ;
            }
            return false;
        }
        proof {
            assert(ab * cd <= 0xffff_ffff_ffff_ffff * 0xffff_ffff_ffff_ffffint) by (nonlinear_arith)
                requires
                    ab <= 0xffff_ffff_ffff_ffffint,
                    cd <= 0xffff_ffff_ffff_ffffint,
            ;
            assert(a * b * c * d == ab * cd) by (nonlinear_arith)
                requires
                    ab == a * b,
                    cd == c * d,
            ;
        }
        ab * cd <= usize::MAX as u128
    }

    /// How many runs the sweep makes.
    pub fn total_runs(&self) -> (n: usize)
        requires
            self.runs() <= usize::MAX,
        ensures
            n == self.runs(),
    {
        let a = self.splits.len();
        let b = self.batch_sizes.len();
        let c = self.ubatch_sizes.len();
        let d = self.thread_counts.len();
        if a == 0 || b == 0 || c == 0 || d == 0 {
            proof {
                assert(a * b * c * d == 0) by (nonlinear_arith)
                    requires
                        a == 0 || b == 0 || c == 0 || d == 0,
                ;
            }
            return 0;
        }
        proof {
            assert(a * b <= a * b * c * d) by (nonlinear_arith)
                requires
                    c >= 1,
                    d >= 1,
                    a >= 0,
                    b >= 0,
            ;
            assert(a * b * c <= a * b * c * d) by (nonlinear_arith)
                requires
                    d >= 1,
                    a * b * c >= 0,
            ;
        }
        a * b * c * d
    }
}

/// The `k`-th run of the sweep, counting splits slowest and thread counts
/// fastest: (split index, batch size, ubatch size, threads).
pub open spec fn run_at(s: SweepSpec, k: int) -> (int, i32, i32, i32) {
    let nt = s.thread_counts@.len() as int;
    let nu = s.ubatch_sizes@.len() as int;
    let nb = s.batch_sizes@.len() as int;
    (
        k / (nt * nu * nb),
        s.batch_sizes@[(k / (nt * nu)) % nb],
        s.ubatch_sizes@[(k / nt) % nu],
        s.thread_counts@[k % nt],
    )
}

/// One run of a sweep.
#[derive(Debug, Clone, PartialEq)]
pub struct SweepRun {
    pub tensor_split: String,
    pub batch_size: i32,
    pub ubatch_size: i32,
    pub threads: i32,
}

/// Every run of the sweep, in the order it makes them: for each split,
/// each batch size, each ubatch size, each thread count.
pub fn sweep_runs(spec: &SweepSpec) -> (out: Vec<SweepRun>)
    requires
        spec.runs() <= usize::MAX,
    ensures
        out.len() == spec.runs(),
        forall|k: int|
            0 <= k < out.len() ==> {
                let r = run_at(*spec, k);
                &&& (#[trigger] out@[k]).tensor_split@ == spec.splits@[r.0]@
                &&& out@[k].batch_size == r.1
                &&& out@[k].ubatch_size == r.2
                &&& out@[k].threads == r.3
            },
{
    let mut out: Vec<SweepRun> = Vec::new();
    let ghost nt = spec.thread_counts@.len() as int;
    let ghost nu = spec.ubatch_sizes@.len() as int;
    let ghost nb = spec.batch_sizes@.len() as int;
    let ghost ns = spec.splits@.len() as int;
    let mut i: usize = 0;
    while i < spec.splits.len()
        invariant
            i <= ns,
            ns == spec.splits@.len(),
            nt == spec.thread_counts@.len(),
            nu == spec.ubatch_sizes@.len(),
            nb == spec.batch_sizes@.len(),
            spec.runs() <= usize::MAX,
            out.len() == i * (nb * nu * nt),
            forall|k: int|
                0 <= k < out.len() ==> {
                    let r = run_at(*spec, k);
                    &&& (#[trigger] out@[k]).tensor_split@ == spec.splits@[r.0]@
                    &&& out@[k].batch_size == r.1
                    &&& out@[k].ubatch_size == r.2
                    &&& out@[k].threads == r.3
                },
        decreases ns - i,
    {
        let mut j: usize = 0;
        while j < spec.batch_sizes.len()
            invariant
                i < ns,
                j <= nb,
                ns == spec.splits@.len(),
                nt == spec.thread_counts@.len(),
                nu == spec.ubatch_sizes@.len(),
                nb == spec.batch_sizes@.len(),
                spec.runs() <= usize::MAX,
                out.len() == i * (nb * nu * nt) + j * (nu * nt),
                forall|k: int|
                    0 <= k < out.len() ==> {
                        let r = run_at(*spec, k);
                        &&& (#[trigger] out@[k]).tensor_split@ == spec.splits@[r.0]@
                        &&& out@[k].batch_size == r.1
                        &&& out@[k].ubatch_size == r.2
                        &&& out@[k].threads == r.3
                    },
            decreases nb - j,
        {
            let mut u: usize = 0;
            while u < spec.ubatch_sizes.len()
                invariant
                    i < ns,
                    j < nb,
                    u <= nu,
                    ns == spec.splits@.len(),
                    nt == spec.thread_counts@.len(),
                    nu == spec.ubatch_sizes@.len(),
                    nb == spec.batch_sizes@.len(),
                    spec.runs() <= usize::MAX,
                    out.len() == i * (nb * nu * nt) + j * (nu * nt) + u * nt,
                    forall|k: int|
                        0 <= k < out.len() ==> {
                            let r = run_at(*spec, k);
                            &&& (#[trigger] out@[k]).tensor_split@ == spec.splits@[r.0]@
                            &&& out@[k].batch_size == r.1
                            &&& out@[k].ubatch_size == r.2
                            &&& out@[k].threads == r.3
                        },
                decreases nu - u,
            {
                let mut t: usize = 0;
                while t < spec.thread_counts.len()
                    invariant
                        i < ns,
                        j < nb,
                        u < nu,
                        t <= nt,
                        ns == spec.splits@.len(),
                        nt == spec.thread_counts@.len(),
                        nu == spec.ubatch_sizes@.len(),
                        nb == spec.batch_sizes@.len(),
                        spec.runs() <= usize::MAX,
                        out.len() == i * (nb * nu * nt) + j * (nu * nt) + u * nt + t,
                        forall|k: int|
                            0 <= k < out.len() ==> {
                                let r = run_at(*spec, k);
                                &&& (#[trigger] out@[k]).tensor_split@ == spec.splits@[r.0]@
                                &&& out@[k].batch_size == r.1
                                &&& out@[k].ubatch_size == r.2
                                &&& out@[k].threads == r.3
                            },
                    decreases nt - t,
                {
                    let ghost k = out.len() as int;
                    proof {
                        lemma_run_index(i as int, j as int, u as int, t as int, ns, nb, nu, nt);
                        assert(spec.runs() == ns * nb * nu * nt);
                    }
                    let run = SweepRun {
                        tensor_split: spec.splits[i].clone(),
                        batch_size: spec.batch_sizes[j],
                        ubatch_size: spec.ubatch_sizes[u],
                        threads: spec.thread_counts[t],
                    };
                    out.push(run);
                    t += 1;
                }
                proof {
                    assert(i * (nb * nu * nt) + j * (nu * nt) + u * nt + nt == i * (nb * nu * nt)
                        + j * (nu * nt) + (u + 1) * nt) by (nonlinear_arith);
                }
                u += 1;
            }
            proof {
                assert(i * (nb * nu * nt) + j * (nu * nt) + nu * nt == i * (nb * nu * nt) + (j + 1)
                    * (nu * nt)) by (nonlinear_arith);
            }
            j += 1;
        }
        proof {
            assert(i * (nb * nu * nt) + nb * (nu * nt) == (i + 1) * (nb * nu * nt))
                by (nonlinear_arith);
        }
        i += 1;
    }
    proof {
        assert(ns * (nb * nu * nt) == spec.runs()) by (nonlinear_arith)
            requires
                ns == spec.splits@.len(),
                nt == spec.thread_counts@.len(),
                nu == spec.ubatch_sizes@.len(),
                nb == spec.batch_sizes@.len(),
        ;
    }
    out
}

/// The run at position `i*(nb*nu*nt) + j*(nu*nt) + u*nt + t` is
/// (i, j, u, t), and that position is below the total.
proof fn lemma_run_index(i: int, j: int, u: int, t: int, ns: int, nb: int, nu: int, nt: int)
    requires
        0 <= i < ns,
        0 <= j < nb,
        0 <= u < nu,
        0 <= t < nt,
    ensures
        ({
            let k = i * (nb * nu * nt) + j * (nu * nt) + u * nt + t;
            &&& k / (nt * nu * nb) == i
            &&& (k / (nt * nu)) % nb == j
            &&& (k / nt) % nu == u
            &&& k % nt == t
            &&& k < ns * nb * nu * nt
        }),
{
    let k = i * (nb * nu * nt) + j * (nu * nt) + u * nt + t;
    assert(k % nt == t && k / nt == i * (nb * nu) + j * nu + u) by (nonlinear_arith)
        requires
            k == i * (nb * nu * nt) + j * (nu * nt) + u * nt + t,
            0 <= t < nt,
            0 <= u,
            0 <= j,
            0 <= i,
            nu > 0,
            nb > 0,
    {
        vstd::arithmetic::div_mod::lemma_fundamental_div_mod_converse(
            k,
            nt,
            i * (nb * nu) + j * nu + u,
            t,
        );
    }
    let k1 = i * (nb * nu) + j * nu + u;
    assert(k1 % nu == u && k1 / nu == i * nb + j) by (nonlinear_arith)
        requires
            k1 == i * (nb * nu) + j * nu + u,
            0 <= u < nu,
            0 <= j,
            0 <= i,
    {
        vstd::arithmetic::div_mod::lemma_fundamental_div_mod_converse(k1, nu, i * nb + j, u);
    }
    let k2 = i * nb + j;
    assert(k2 % nb == j && k2 / nb == i) by (nonlinear_arith)
        requires
            k2 == i * nb + j,
            0 <= j < nb,
            0 <= i,
    {
        vstd::arithmetic::div_mod::lemma_fundamental_div_mod_converse(k2, nb, i, j);
    }
    assert(k / (nt * nu) == k1 / nu) by {
        vstd::arithmetic::div_mod::lemma_div_denominator(k, nt, nu);
    }
    assert(k / (nt * nu * nb) == k2 / nb) by {
        vstd::arithmetic::div_mod::lemma_div_denominator(k, nt, nu);
        vstd::arithmetic::div_mod::lemma_div_denominator(k, nt * nu, nb);
    }
    assert(k < ns * nb * nu * nt) by (nonlinear_arith)
        requires
            k == i * (nb * nu * nt) + j * (nu * nt) + u * nt + t,
            0 <= i < ns,
            0 <= j < nb,
            0 <= u < nu,
            0 <= t < nt,
    ;
}


/// A sweep runs every combination of its lists: for each split `i`, batch
/// size `j`, ubatch size `u` and thread count `t` there is a run, at
/// position `i*(nb*nu*nt) + j*(nu*nt) + u*nt + t` of `sweep_runs`, that
/// uses exactly those.
pub proof fn law_sweep_covers_every_combination(s: SweepSpec, i: int, j: int, u: int, t: int)
    requires
        0 <= i < s.splits@.len(),
        0 <= j < s.batch_sizes@.len(),
        0 <= u < s.ubatch_sizes@.len(),
        0 <= t < s.thread_counts@.len(),
    ensures
        ({
            let nb = s.batch_sizes@.len() as int;
            let nu = s.ubatch_sizes@.len() as int;
            let nt = s.thread_counts@.len() as int;
            let k = i * (nb * nu * nt) + j * (nu * nt) + u * nt + t;
            &&& 0 <= k < s.runs()
            &&& run_at(s, k) == (i, s.batch_sizes@[j], s.ubatch_sizes@[u], s.thread_counts@[t])
        }),
{
    let ns = s.splits@.len() as int;
    let nb = s.batch_sizes@.len() as int;
    let nu = s.ubatch_sizes@.len() as int;
    let nt = s.thread_counts@.len() as int;
    lemma_run_index(i, j, u, t, ns, nb, nu, nt);
    let k = i * (nb * nu * nt) + j * (nu * nt) + u * nt + t;
    assert(0 <= k) by (nonlinear_arith)
        requires
            k == i * (nb * nu * nt) + j * (nu * nt) + u * nt + t,
            0 <= i,
            0 <= j,
            0 <= u,
            0 <= t,
            0 <= nb,
            0 <= nu,
            0 <= nt,
    ;
}

/// A list of numbers from a sweep request: the given ones as `i32`, or the
/// default alone when none were given.
pub open spec fn int_list(given: Seq<i64>, default: i32) -> Seq<i32> {
    if given.len() == 0 {
        seq![default]
    } else {
        given.map_values(|n: i64| n as i32)
    }
}

fn int_list_exec(given: &Vec<i64>, default: i32) -> (out: Vec<i32>)
    ensures
        out@ == int_list(given@, default),
{
    if given.len() == 0 {
        let out = vec![default];
        assert(out@ =~= seq![default]);
        return out;
    }
    let mut out: Vec<i32> = Vec::new();
    let mut i: usize = 0;
    while i < given.len()
        invariant
            i <= given.len(),
            out@ == given@.take(i as int).map_values(|n: i64| n as i32),
        decreases given.len() - i,
    {
        let ghost before = out@;
        out.push(given[i] as i32);
        assert(given@.take(i + 1).map_values(|n: i64| n as i32) =~= before.push(given@[i as int] as i32));
        i += 1;
    }
    assert(given@.take(given.len() as int) =~= given@);
    out
}

/// Why a sweep request is refused, in the order the checks are made.
pub open spec fn sweep_refusal(
    bench_running: bool,
    server_running: bool,
    model_path: Seq<char>,
    n_splits: nat,
) -> Option<Seq<char>> {
    if bench_running {
        Some("a benchmark is already running"@)
    } else if server_running {
        Some("stop the server before benchmarking -- it needs the GPUs"@)
    } else if model_path.len() == 0 {
        Some("model_path required"@)
    } else if n_splits == 0 {
        Some("at least one tensor split required"@)
    } else {
        None
    }
}

/// The defaults for the lists a request leaves empty: the running
/// preset's batch size, ubatch size and thread count (the CPU count when
/// it sets none), else 2048, 512 and the CPU count.
pub open spec fn sweep_defaults(running: Option<ServerConfig>, cpu_threads: u32) -> (u32, u32, u32) {
    match running {
        Some(c) => (
            c.batch_size,
            c.ubatch_size,
            match c.threads {
                Some(t) => t,
                None => cpu_threads,
            },
        ),
        None => (2048, 512, cpu_threads),
    }
}

/// The sweep a benchmark request asks for. `running` is the configuration
/// of the server if one was started, and `cpu_threads` the machine's
/// parallelism; a request without `gpu_layers` offloads everything (999).
pub fn plan_sweep(
    bench_running: bool,
    server_running: bool,
    model_path: String,
    splits: Vec<String>,
    batch_sizes: Vec<i64>,
    ubatch_sizes: Vec<i64>,
    thread_counts: Vec<i64>,
    gpu_layers: Option<i64>,
    running: Option<&ServerConfig>,
    cpu_threads: u32,
) -> (r: Result<SweepSpec, String>)
    ensures
        match r {
            Err(e) => sweep_refusal(bench_running, server_running, model_path@, splits@.len())
                == Some(e@),
            Ok(s) => {
                let d = sweep_defaults(
                    match running {
                        Some(c) => Some(*c),
                        None => None,
                    },
                    cpu_threads,
                );
                &&& sweep_refusal(bench_running, server_running, model_path@, splits@.len()) is None
                &&& s.model_path == model_path
                &&& s.splits == splits
                &&& s.batch_sizes@ == int_list(batch_sizes@, d.0 as i32)
                &&& s.ubatch_sizes@ == int_list(ubatch_sizes@, d.1 as i32)
                &&& s.thread_counts@ == int_list(thread_counts@, d.2 as i32)
                &&& s.gpu_layers == (match gpu_layers {
                    Some(n) => n,
                    None => 999,
                }) as i32
            },
        },
{
    if bench_running {
        return Err(string_of(&lit("a benchmark is already running")));
    }
    if server_running {
        return Err(string_of(&lit("stop the server before benchmarking -- it needs the GPUs")));
    }
    if chars_of(model_path.as_str()).len() == 0 {
        return Err(string_of(&lit("model_path required")));
    }
    if splits.len() == 0 {
        return Err(string_of(&lit("at least one tensor split required")));
    }
    let (d_batch, d_ubatch, d_threads) = match running {
        Some(c) => (
            c.batch_size,
            c.ubatch_size,
            match c.threads {
                Some(t) => t,
                None => cpu_threads,
            },
        ),
        None => (2048u32, 512u32, cpu_threads),
    };
    let layers: i64 = match gpu_layers {
        Some(n) => n,
        None => 999,
    };
    Ok(
        SweepSpec {
            model_path,
            splits,
            batch_sizes: int_list_exec(&batch_sizes, d_batch as i32),
            ubatch_sizes: int_list_exec(&ubatch_sizes, d_ubatch as i32),
            thread_counts: int_list_exec(&thread_counts, d_threads as i32),
            gpu_layers: layers as i32,
        },
    )
}


pub open spec fn strings_view(v: Seq<String>) -> Seq<Seq<char>> {
    v.map_values(|s: String| s@)
}

/// The llama-bench command line of one run: the model, the GPU layers,
/// batch, ubatch and thread counts, JSON output, and the tensor split when
/// one is given.
pub open spec fn bench_args_of(
    model_path: Seq<char>,
    tensor_split: Seq<char>,
    gpu_layers: i32,
    batch_size: i32,
    ubatch_size: i32,
    threads: i32,
) -> Seq<Seq<char>> {
    seq![
        "-m"@,
        model_path,
        "-ngl"@,
        crate::text::dec_int(gpu_layers as int),
        "-b"@,
        crate::text::dec_int(batch_size as int),
        "-ub"@,
        crate::text::dec_int(ubatch_size as int),
        "-t"@,
        crate::text::dec_int(threads as int),
        "-o"@,
        "json"@,
    ] + if tensor_split.len() > 0 {
        seq!["-ts"@, tensor_split]
    } else {
        seq![]
    }
}

pub fn bench_args(
    model_path: &str,
    tensor_split: &str,
    gpu_layers: i32,
    batch_size: i32,
    ubatch_size: i32,
    threads: i32,
) -> (a: Vec<String>)
    ensures
        strings_view(a@) == bench_args_of(
            model_path@,
            tensor_split@,
            gpu_layers,
            batch_size,
            ubatch_size,
            threads,
        ),
{
    let mut a: Vec<String> = Vec::new();
    a.push(string_of(&lit("-m")));
    a.push(string_of(&lit(model_path)));
    a.push(string_of(&lit("-ngl")));
    a.push(crate::text::dec_i64_string(gpu_layers as i64));
    a.push(string_of(&lit("-b")));
    a.push(crate::text::dec_i64_string(batch_size as i64));
    a.push(string_of(&lit("-ub")));
    a.push(crate::text::dec_i64_string(ubatch_size as i64));
    a.push(string_of(&lit("-t")));
    a.push(crate::text::dec_i64_string(threads as i64));
    a.push(string_of(&lit("-o")));
    a.push(string_of(&lit("json")));
    let ts = lit(tensor_split);
    if ts.len() > 0 {
        a.push(string_of(&lit("-ts")));
        a.push(string_of(&ts));
    }
    assert(strings_view(a@) =~= bench_args_of(
        model_path@,
        tensor_split@,
        gpu_layers,
        batch_size,
        ubatch_size,
        threads,
    ));
    a
}

/// Which throughput a row of llama-bench's JSON reports.
#[derive(Debug, Clone, Copy, PartialEq, Eq, Structural)]
pub enum BenchRowKind {
    /// Prompt processing (tokens in, none generated).
    Prompt,
    /// Generation.
    Generation,
    /// Neither (no tokens either way).
    Other,
}

/// A row with prompt tokens and no generated ones measures prompt
/// processing; any row with generated tokens measures generation.
pub fn bench_row_kind(n_prompt: u32, n_gen: u32) -> (k: BenchRowKind)
    ensures
        k == (if n_prompt > 0 && n_gen == 0 {
            BenchRowKind::Prompt
        } else if n_gen > 0 {
            BenchRowKind::Generation
        } else {
            BenchRowKind::Other
        }),
{
    if n_prompt > 0 && n_gen == 0 {
        BenchRowKind::Prompt
    } else if n_gen > 0 {
        BenchRowKind::Generation
    } else {
        BenchRowKind::Other
    }
}

/// How far a sweep has got: the run in progress, the runs completed out of
/// all, the last error, and whether it is running or done. The results
/// (throughputs, floating point) are kept beside it by the caller.
pub struct SweepProgress {
    pub running: bool,
    pub current: Option<SweepRun>,
    pub completed: usize,
    pub total: usize,
    pub error: Option<String>,
    pub done: bool,
}

impl SweepProgress {
    /// A sweep of `total` runs, started and with none completed.
    pub fn started(total: usize) -> (p: SweepProgress)
        ensures
            p.running,
            !p.done,
            p.current is None,
            p.completed == 0,
            p.total == total,
            p.error is None,
    {
        SweepProgress { running: true, current: None, completed: 0, total, error: None, done: false }
    }

    /// Run `run` begins.
    pub fn begin(&mut self, run: SweepRun)
        ensures
            final(self).current == Some(run),
            final(self).completed == old(self).completed,
            final(self).total == old(self).total,
            final(self).error == old(self).error,
            final(self).running == old(self).running,
            final(self).done == old(self).done,
    {
        self.current = Some(run);
    }

    /// The run in progress ended, with the error that stopped it, if one
    /// did: either way it counts as completed.
    pub fn end(&mut self, error: Option<String>)
        requires
            old(self).completed < usize::MAX,
        ensures
            final(self).completed == old(self).completed + 1,
            final(self).error == (match error {
                Some(e) => Some(e),
                None => old(self).error,
            }),
            final(self).current == old(self).current,
            final(self).total == old(self).total,
            final(self).running == old(self).running,
            final(self).done == old(self).done,
    {
        self.completed = self.completed + 1;
        if let Some(e) = error {
            self.error = Some(e);
        }
    }

    /// Every run was made: no run is in progress any more.
    pub fn finish(&mut self)
        ensures
            !final(self).running,
            final(self).done,
            final(self).current is None,
            final(self).completed == old(self).completed,
            final(self).total == old(self).total,
            final(self).error == old(self).error,
    {
        self.running = false;
        self.done = true;
        self.current = None;
    }
}

} // verus!
