//! GPU names and per-process GPU usage.
pub mod amd_names;
pub mod procs;
pub mod rocm;
pub mod nvidia;

use vstd::prelude::*;
use crate::text::{chars_of, dec, digit_char, extend, lit, push_dec, string_of, vec_eq};

verus! {

/// The key that the `n`-th card named `name` gets: `name #n`.
pub open spec fn numbered(name: Seq<char>, n: nat) -> Seq<char> {
    name + " #"@ + dec(n)
}

pub open spec fn keys_view(keys: Seq<String>) -> Seq<Seq<char>> {
    keys.map_values(|s: String| s@)
}

/// The map key for a card named `name`, given the keys taken so far: the
/// plain name when it is free, else `name #n` with the smallest free
/// `n >= 2`.
pub open spec fn is_unique_key(taken: Seq<Seq<char>>, name: Seq<char>, key: Seq<char>) -> bool {
    if !taken.contains(name) {
        key == name
    } else {
        exists|n: nat|
            #![trigger numbered(name, n)]
            n >= 2 && key == numbered(name, n) && !taken.contains(numbered(name, n)) && forall|
                m: nat,
            |
                #![trigger numbered(name, m)]
                2 <= m < n ==> taken.contains(numbered(name, m))
    }
}

/// Every key the counter can reach is taken: the plain name and
/// `name #2` up to `name #2147483647` (the counter is an `i32`).
pub open spec fn numbers_exhausted(taken: Seq<Seq<char>>, name: Seq<char>) -> bool {
    taken.contains(name) && forall|m: nat|
        #![trigger numbered(name, m)]
        2 <= m <= 0x7fff_ffff ==> taken.contains(numbered(name, m))
}

/// The key `unique_card_key` gives a card named `name`.
pub open spec fn unique_key(taken: Seq<Seq<char>>, name: Seq<char>) -> Seq<char> {
    choose|k: Seq<char>| is_unique_key(taken, name, k)
}

/// `is_unique_key` names one key: `unique_key`.
pub proof fn lemma_unique_key(taken: Seq<Seq<char>>, name: Seq<char>, k: Seq<char>)
    requires
        is_unique_key(taken, name, k),
    ensures
        unique_key(taken, name) == k,
{
    let u = unique_key(taken, name);
    assert(is_unique_key(taken, name, u));
    if taken.contains(name) {
        let n1 = choose|n: nat|
            #![trigger numbered(name, n)]
            n >= 2 && k == numbered(name, n) && !taken.contains(numbered(name, n)) && forall|
                m: nat,
            |
                #![trigger numbered(name, m)]
                2 <= m < n ==> taken.contains(numbered(name, m));
        let n2 = choose|n: nat|
            #![trigger numbered(name, n)]
            n >= 2 && u == numbered(name, n) && !taken.contains(numbered(name, n)) && forall|
                m: nat,
            |
                #![trigger numbered(name, m)]
                2 <= m < n ==> taken.contains(numbered(name, m));
        if n1 < n2 {
            assert(taken.contains(numbered(name, n1)));
        } else if n2 < n1 {
            assert(taken.contains(numbered(name, n2)));
        }
    }
}

/// When the counter is not exhausted, the key `unique_key` names is
/// well-defined and free.
pub proof fn lemma_unique_key_free(taken: Seq<Seq<char>>, name: Seq<char>)
    requires
        !numbers_exhausted(taken, name),
    ensures
        is_unique_key(taken, name, unique_key(taken, name)),
        !taken.contains(unique_key(taken, name)),
{
    if !taken.contains(name) {
        assert(is_unique_key(taken, name, name));
    } else {
        let m = choose|m: nat|
            #![trigger numbered(name, m)]
            2 <= m <= 0x7fff_ffff && !taken.contains(numbered(name, m));
        lemma_first_free(taken, name, 2, m);
    }
    let k = unique_key(taken, name);
    assert(is_unique_key(taken, name, k));
    if taken.contains(name) {
        let n = choose|n: nat|
            #![trigger numbered(name, n)]
            n >= 2 && k == numbered(name, n) && !taken.contains(numbered(name, n)) && forall|
                m: nat,
            |
                #![trigger numbered(name, m)]
                2 <= m < n ==> taken.contains(numbered(name, m));
        assert(!taken.contains(numbered(name, n)));
    }
}

/// Some key from `n` up to a free `m` is the first free one.
proof fn lemma_first_free(taken: Seq<Seq<char>>, name: Seq<char>, n: nat, m: nat)
    requires
        2 <= n <= m,
        taken.contains(name),
        !taken.contains(numbered(name, m)),
        forall|j: nat| #![trigger numbered(name, j)] 2 <= j < n ==> taken.contains(numbered(name, j)),
    ensures
        exists|k: Seq<char>| is_unique_key(taken, name, k),
    decreases m - n,
{
    if !taken.contains(numbered(name, n)) {
        assert(is_unique_key(taken, name, numbered(name, n)));
    } else {
        lemma_first_free(taken, name, n + 1, m);
    }
}

pub proof fn lemma_dec_injective(a: nat, b: nat)
    requires
        dec(a) == dec(b),
    ensures
        a == b,
    decreases a,
{
    crate::text::lemma_dec_len(a / 10);
    crate::text::lemma_dec_len(b / 10);
    if a < 10 && b < 10 {
        assert(dec(a)[0] == digit_char(a));
        assert(dec(b)[0] == digit_char(b));
    } else if a >= 10 && b >= 10 {
        assert(dec(a).drop_last() =~= dec(a / 10));
        assert(dec(b).drop_last() =~= dec(b / 10));
        assert(dec(a).last() == digit_char(a % 10));
        assert(dec(b).last() == digit_char(b % 10));
        lemma_dec_injective(a / 10, b / 10);
    } else {
        assert(dec(a).len() != dec(b).len());
    }
}

pub proof fn lemma_numbered_injective(name: Seq<char>, a: nat, b: nat)
    requires
        numbered(name, a) == numbered(name, b),
    ensures
        a == b,
{
    reveal_strlit(" #");
    let k = name.len() + 2int;
    assert(numbered(name, a).skip(k) =~= dec(a));
    assert(numbered(name, b).skip(k) =~= dec(b));
    lemma_dec_injective(a, b);
}

/// At most `t.len()` distinct values fit in `t`: `k` values `g(0..k)`,
/// pairwise distinct and all in `t`, mean `k <= t.len()`.
pub proof fn lemma_pigeonhole(t: Seq<Seq<char>>, g: spec_fn(int) -> Seq<char>, k: nat)
    requires
        forall|i: int, j: int| 0 <= i < k && 0 <= j < k && i != j ==> #[trigger] g(i) != #[trigger] g(j),
        forall|i: int| 0 <= i < k ==> t.contains(#[trigger] g(i)),
    ensures
        k <= t.len(),
    decreases t.len(),
{
    if k == 0 {
        return;
    }
    if t.len() == 0 {
        assert(t.contains(g(0)));
        return;
    }
    let x = t.last();
    let rest = t.drop_last();
    if exists|i0: int| 0 <= i0 < k && #[trigger] g(i0) == x {
        let i0 = choose|i0: int| 0 <= i0 < k && #[trigger] g(i0) == x;
        let g2 = |i: int|
            if i < i0 {
                g(i)
            } else {
                g(i + 1)
            };
        assert forall|i: int| 0 <= i < k - 1 implies rest.contains(#[trigger] g2(i)) by {
            let j = if i < i0 {
                i
            } else {
                i + 1
            };
            assert(g2(i) == g(j));
            assert(j != i0);
            assert(t.contains(g(j)));
            let w = choose|w: int| 0 <= w < t.len() && t[w] == g(j);
            assert(w != t.len() - 1);
            assert(rest[w] == g(j));
        }
        lemma_pigeonhole(rest, g2, (k - 1) as nat);
    } else {
        assert forall|i: int| 0 <= i < k implies rest.contains(#[trigger] g(i)) by {
            assert(t.contains(g(i)));
            let w = choose|w: int| 0 <= w < t.len() && t[w] == g(i);
            assert(w != t.len() - 1);
            assert(rest[w] == g(i));
        }
        lemma_pigeonhole(rest, g, k);
    }
}

fn contains_key(taken: &[String], key: &Vec<char>) -> (b: bool)
    ensures
        b == keys_view(taken@).contains(key@),
{
    let ghost kv = keys_view(taken@);
    let mut i: usize = 0;
    while i < taken.len()
        invariant
            i <= taken.len(),
            kv == keys_view(taken@),
            forall|j: int| 0 <= j < i ==> kv[j] != key@,
        decreases taken.len() - i,
    {
        assert(kv[i as int] == taken@[i as int]@);
        if crate::text::vec_eq(&chars_of(taken[i].as_str()), key) {
            assert(kv.contains(key@));
            return true;
        }
        i += 1;
    }
    false
}

/// Returns a map key for `name` that is not among the keys `taken` so far.
/// Two identical cards (a pair of RTX 4090s, say) share a marketing name,
/// and keying by name alone silently drops all but one of them. The first
/// card keeps the plain name; later duplicates get ` #2`, ` #3`, and so on.
pub fn unique_card_key(taken: &[String], name: &str) -> (key: String)
    requires
        !numbers_exhausted(keys_view(taken@), name@),
    ensures
        !keys_view(taken@).contains(key@),
        is_unique_key(keys_view(taken@), name@, key@),
        key@ == unique_key(keys_view(taken@), name@),
{
    let key = unique_card_key_search(taken, name);
    proof {
        lemma_unique_key(keys_view(taken@), name@, key@);
    }
    key
}

fn unique_card_key_search(taken: &[String], name: &str) -> (key: String)
    requires
        !numbers_exhausted(keys_view(taken@), name@),
    ensures
        !keys_view(taken@).contains(key@),
        is_unique_key(keys_view(taken@), name@, key@),
{
    let ghost kv = keys_view(taken@);
    let nv = chars_of(name);
    if !contains_key(taken, &nv) {
        return string_of(&nv);
    }
    let mut n: u64 = 2;
    loop
        invariant
            2 <= n <= taken@.len() + 2,
            n <= 0x7fff_ffff,
            !numbers_exhausted(kv, name@),
            kv == keys_view(taken@),
            nv@ == name@,
            kv.contains(name@),
            forall|m: nat| #![trigger numbered(name@, m)] 2 <= m < n ==> kv.contains(numbered(name@, m)),
        decreases taken@.len() + 2 - n,
    {
        let mut cand = copy_name(&nv);
        extend(&mut cand, &lit(" #"));
        push_dec(&mut cand, n);
        assert(cand@ =~= numbered(name@, n as nat));
        if !contains_key(taken, &cand) {
            proof {
                assert(is_unique_key(kv, name@, cand@) ) by {
                    assert(n >= 2 && cand@ == numbered(name@, n as nat) && !kv.contains(
                        numbered(name@, n as nat),
                    ));
                }
            }
            return string_of(&cand);
        }
        proof {
            let g = |i: int| numbered(name@, (i + 2) as nat);
            assert forall|i: int, j: int|
                0 <= i < n - 1 && 0 <= j < n - 1 && i != j implies #[trigger] g(i) != #[trigger] g(j) by {
                if g(i) == g(j) {
                    lemma_numbered_injective(name@, (i + 2) as nat, (j + 2) as nat);
                }
            }
            assert forall|i: int| 0 <= i < n - 1 implies kv.contains(#[trigger] g(i)) by {
                assert(g(i) == numbered(name@, (i + 2) as nat));
            }
            lemma_pigeonhole(kv, g, (n - 1) as nat);
            if n == 0x7fff_ffff {
                assert(numbers_exhausted(kv, name@));
            }
        }
        n = n + 1;
    }
}

fn copy_name(v: &Vec<char>) -> (out: Vec<char>)
    ensures
        out@ == v@,
{
    crate::text::copy_vec(v)
}


/// Fewer taken keys than the counter has numbers always leave a key free.
pub proof fn lemma_keys_leave_room(taken: Seq<Seq<char>>, name: Seq<char>)
    requires
        taken.len() < 0x7fff_fffe,
    ensures
        !numbers_exhausted(taken, name),
{
    if numbers_exhausted(taken, name) {
        let g = |i: int| numbered(name, (i + 2) as nat);
        assert forall|i: int, j: int|
            0 <= i < 0x7fff_fffe && 0 <= j < 0x7fff_fffe && i != j implies #[trigger] g(i)
            != #[trigger] g(j) by {
            if g(i) == g(j) {
                lemma_numbered_injective(name, (i + 2) as nat, (j + 2) as nat);
            }
        }
        assert forall|i: int| 0 <= i < 0x7fff_fffe implies taken.contains(#[trigger] g(i)) by {
            assert(g(i) == numbered(name, (i + 2) as nat));
        }
        lemma_pigeonhole(taken, g, 0x7fff_fffe);
    }
}

/// A quick test that `unique_card_key` has a key to give: true whenever
/// fewer keys are taken than the counter has numbers (it may answer false
/// only for two billion cards or more).
pub fn card_key_available(taken: &[String], name: &str) -> (b: bool)
    ensures
        b ==> !numbers_exhausted(keys_view(taken@), name@),
        b == (taken.len() < 0x7fff_fffe),
{
    proof {
        if taken.len() < 0x7fff_fffe {
            lemma_keys_leave_room(keys_view(taken@), name@);
        }
    }
    taken.len() < 0x7fff_fffe
}


/// A GPU vendor tool the monitor can poll.
#[derive(Debug, Clone, Copy, PartialEq, Eq, Structural)]
pub enum Vendor {
    Rocm,
    Nvidia,
}

pub open spec fn tool_of(v: Vendor) -> Seq<char> {
    match v {
        Vendor::Rocm => "rocm-smi"@,
        Vendor::Nvidia => "nvidia-smi"@,
    }
}

pub open spec fn backend_name_of(v: Vendor) -> Seq<char> {
    match v {
        Vendor::Rocm => "rocm"@,
        Vendor::Nvidia => "nvidia"@,
    }
}

pub open spec fn log_view(l: (&'static str, String)) -> (Seq<char>, Seq<char>) {
    (l.0@, l.1@)
}

pub open spec fn logs_view(ls: Seq<(&'static str, String)>) -> Seq<(Seq<char>, Seq<char>)> {
    ls.map_values(|l: (&'static str, String)| log_view(l))
}

/// What one probe of an installed tool means: whether to monitor it, and
/// the event-log line (level, message). `probe` is the number of cards
/// the tool reported, or its error.
pub open spec fn probe_verdict(v: Vendor, probe: Result<u64, String>) -> (bool, (Seq<char>, Seq<char>)) {
    match probe {
        Ok(n) => if n > 0 {
            (true, ("info"@, "GPU monitoring via "@ + tool_of(v) + ": "@ + dec(n as nat) + " card(s)"@))
        } else {
            (
                false,
                (
                    "warn"@,
                    tool_of(v) + " is installed but reports no GPUs; not monitoring "@ + backend_name_of(
                        v,
                    ),
                ),
            )
        },
        Err(e) => (
            false,
            (
                "warn"@,
                tool_of(v) + " is installed but not working ("@ + e@ + "); not monitoring "@
                    + backend_name_of(v),
            ),
        ),
    }
}

/// The tools to poll and the log lines a detection writes. A forced
/// backend (`rocm`, `nvidia`, or `none` for no monitoring) is taken as
/// is; otherwise each installed tool (`rocm`, `nvidia`: its probe, or
/// nothing when it is not installed) is monitored when it reports a card.
pub open spec fn detection(
    force: Seq<char>,
    rocm: Option<Result<u64, String>>,
    nvidia: Option<Result<u64, String>>,
) -> (Seq<Vendor>, Seq<(Seq<char>, Seq<char>)>) {
    if force == "rocm"@ {
        (seq![Vendor::Rocm], seq![])
    } else if force == "nvidia"@ {
        (seq![Vendor::Nvidia], seq![])
    } else if force == "none"@ {
        (seq![], seq![])
    } else {
        let a = match rocm {
            Some(p) => {
                let v = probe_verdict(Vendor::Rocm, p);
                (if v.0 { seq![Vendor::Rocm] } else { seq![] }, seq![v.1])
            },
            None => (seq![], seq![]),
        };
        let b = match nvidia {
            Some(p) => {
                let v = probe_verdict(Vendor::Nvidia, p);
                (if v.0 { a.0.push(Vendor::Nvidia) } else { a.0 }, a.1.push(v.1))
            },
            None => a,
        };
        if b.0.len() == 0 {
            (
                b.0,
                b.1.push(("warn"@, "No working GPU monitoring tool found (rocm-smi / nvidia-smi)"@)),
            )
        } else {
            b
        }
    }
}

fn probe_verdict_exec(v: Vendor, probe: &Result<u64, String>) -> (r: (bool, (&'static str, String)))
    ensures
        (r.0, log_view(r.1)) == probe_verdict(v, *probe),
{
    let tool = match v {
        Vendor::Rocm => "rocm-smi",
        Vendor::Nvidia => "nvidia-smi",
    };
    let name = match v {
        Vendor::Rocm => "rocm",
        Vendor::Nvidia => "nvidia",
    };
    match probe {
        Ok(n) => {
            if *n > 0 {
                let mut m = lit("GPU monitoring via ");
                extend(&mut m, &lit(tool));
                extend(&mut m, &lit(": "));
                push_dec(&mut m, *n);
                extend(&mut m, &lit(" card(s)"));
                (true, ("info", string_of(&m)))
            } else {
                let mut m = lit(tool);
                extend(&mut m, &lit(" is installed but reports no GPUs; not monitoring "));
                extend(&mut m, &lit(name));
                (false, ("warn", string_of(&m)))
            }
        },
        Err(e) => {
            let mut m = lit(tool);
            extend(&mut m, &lit(" is installed but not working ("));
            extend(&mut m, &chars_of(e.as_str()));
            extend(&mut m, &lit("); not monitoring "));
            extend(&mut m, &lit(name));
            (false, ("warn", string_of(&m)))
        },
    }
}

/// Which GPU tools to poll, and what to log about the choice.
pub fn detect_backends(
    force: &str,
    rocm: Option<Result<u64, String>>,
    nvidia: Option<Result<u64, String>>,
) -> (r: (Vec<Vendor>, Vec<(&'static str, String)>))
    ensures
        (r.0@, logs_view(r.1@)) == detection(force@, rocm, nvidia),
{
    let f = chars_of(force);
    if vec_eq(&f, &lit("rocm")) {
        let out = (vec![Vendor::Rocm], Vec::new());
        assert(logs_view(out.1@) =~= seq![]);
        return out;
    }
    if vec_eq(&f, &lit("nvidia")) {
        let out = (vec![Vendor::Nvidia], Vec::new());
        assert(logs_view(out.1@) =~= seq![]);
        return out;
    }
    if vec_eq(&f, &lit("none")) {
        let out: (Vec<Vendor>, Vec<(&'static str, String)>) = (Vec::new(), Vec::new());
        assert(logs_view(out.1@) =~= seq![]);
        return out;
    }
    let mut chosen: Vec<Vendor> = Vec::new();
    let mut logs: Vec<(&'static str, String)> = Vec::new();
    match &rocm {
        Some(p) => {
            let v = probe_verdict_exec(Vendor::Rocm, p);
            if v.0 {
                chosen.push(Vendor::Rocm);
            }
            logs.push(v.1);
        },
        None => {},
    }
    let ghost a_logs = logs_view(logs@);
    match &nvidia {
        Some(p) => {
            let v = probe_verdict_exec(Vendor::Nvidia, p);
            if v.0 {
                chosen.push(Vendor::Nvidia);
            }
            logs.push(v.1);
            assert(logs_view(logs@) =~= a_logs.push(log_view(v.1)));
        },
        None => {},
    }
    if chosen.len() == 0 {
        let ghost before = logs_view(logs@);
        logs.push(("warn", string_of(&lit("No working GPU monitoring tool found (rocm-smi / nvidia-smi)"))));
        assert(logs_view(logs@) =~= before.push(
            ("warn"@, "No working GPU monitoring tool found (rocm-smi / nvidia-smi)"@),
        ));
    }
    proof {
        let d = detection(force@, rocm, nvidia);
        assert(chosen@ =~= d.0);
        assert(logs_view(logs@) =~= d.1);
    }
    (chosen, logs)
}

/// One poll of one backend among several: whether it is now failing, and
/// the log line (level, message) when that changed. Failures are logged
/// once, when a working backend starts failing, and recovery once.
pub open spec fn backend_report_of(failing: bool, name: Seq<char>, error: Option<Seq<char>>) -> (
    bool,
    Option<(Seq<char>, Seq<char>)>,
) {
    match error {
        None => if failing {
            (false, Some(("info"@, "GPU metrics ("@ + name + ") recovered"@)))
        } else {
            (false, None)
        },
        Some(e) => if !failing {
            (
                true,
                Some(
                    (
                        "error"@,
                        "GPU metrics ("@ + name + "): "@ + e
                            + " (further failures are not logged until it recovers)"@,
                    ),
                ),
            )
        } else {
            (true, None)
        },
    }
}

pub fn backend_report(failing: bool, name: &str, error: Option<&str>) -> (r: (
    bool,
    Option<(&'static str, String)>,
))
    ensures
        (r.0, match r.1 {
            Some(l) => Some(log_view(l)),
            None => None,
        }) == backend_report_of(
            failing,
            name@,
            match error {
                Some(e) => Some(e@),
                None => None,
            },
        ),
{
    match error {
        None => if failing {
            let mut m = lit("GPU metrics (");
            extend(&mut m, &lit(name));
            extend(&mut m, &lit(") recovered"));
            (false, Some(("info", string_of(&m))))
        } else {
            (false, None)
        },
        Some(e) => if !failing {
            let mut m = lit("GPU metrics (");
            extend(&mut m, &lit(name));
            extend(&mut m, &lit("): "));
            extend(&mut m, &lit(e));
            extend(&mut m, &lit(" (further failures are not logged until it recovers)"));
            (true, Some(("error", string_of(&m))))
        } else {
            (true, None)
        },
    }
}

} // verus!
