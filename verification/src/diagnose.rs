//! Turns llama-server's last log lines into one sentence for the crash
//! notification and the event log, with a hint for the common causes.
use vstd::prelude::*;
use crate::text::{
    chars_of, contains, copy_vec, contains_exec, extend, join, join_exec, lit, lower_seq, lower_vec,
    prefix_within, prefix_within_exec, slice_of, starts_with, ends_with, starts_with_exec, string_of, trim,
    trim_vec, utf8_len, utf8_len_capped, views, words, words_exec, is_digit,
};

verus! {

pub const HINT_MEMORY: &'static str = "the model plus its KV cache does not fit in the selected device's memory. Lower the \
             context size, quantise the KV cache (q8_0), pick a smaller quant, or add a device";
pub const HINT_SPLIT: &'static str = "split mode 'row' only works on CUDA; set GPU distribution -> Split mode to 'layer'              (or leave it blank) for Vulkan and ROCm builds";
pub const HINT_DEVICE: &'static str = "the preset's Devices do not exist in this build (a CUDA build lists CUDA0, a Vulkan              build Vulkan0...); re-pick them under GPU distribution -> Devices";
pub const HINT_ARCH: &'static str = "this llama.cpp build does not know the model's architecture; update llama.cpp";
pub const HINT_FILE: &'static str = "a file the launch needs is missing; check the model, projector and draft paths";
pub const HINT_PORT: &'static str = "the port is taken by another process; change the port or stop that process";
pub const HINT_FLAG: &'static str = "a flag was rejected; check Extra args and the other preset fields";

/// A word made of digits and dots with at least one dot: llama-server's
/// `0.03.046.031` timestamp.
pub open spec fn looks_timestamped(w: Seq<char>) -> bool {
    (forall|i: int| 0 <= i < w.len() ==> is_digit(#[trigger] w[i]) || w[i] == '.') && contains(
        w,
        "."@,
    )
}

/// How many of the words after the timestamp are the level letter and the
/// module tag: up to two leading words of at most three bytes.
pub open spec fn tag_words(rest: Seq<Seq<char>>) -> int {
    if rest.len() > 0 && utf8_len(rest[0]) <= 3 {
        if rest.len() > 1 && utf8_len(rest[1]) <= 3 {
            2
        } else {
            1
        }
    } else {
        0
    }
}

/// A log line without llama-server's timestamp/level/module prefix.
pub open spec fn stripped_line(line: Seq<char>) -> Seq<char> {
    let ws = words(line);
    let first = if ws.len() > 0 {
        ws[0]
    } else {
        seq![]
    };
    if !looks_timestamped(first) {
        trim(line)
    } else {
        let rest = ws.drop_first();
        join(rest.skip(tag_words(rest)), " "@)
    }
}

pub open spec fn is_error_line(l: Seq<char>) -> bool {
    let low = lower_seq(l);
    contains(l, " E "@) || contains(low, "error"@) || contains(low, "failed"@) || contains(
        low,
        "not found"@,
    ) || contains(low, "no such file"@)
}

/// The error lines of `recent` that llama-server wrote, prefixes dropped.
pub open spec fn error_lines(recent: Seq<Seq<char>>) -> Seq<Seq<char>>
    decreases recent.len(),
{
    if recent.len() == 0 {
        seq![]
    } else {
        let l = recent.last();
        let before = error_lines(recent.drop_last());
        if !starts_with(l, "[monitor]"@) && is_error_line(l) {
            before.push(stripped_line(l))
        } else {
            before
        }
    }
}

/// The hint for the joined, lower-cased error text.
pub open spec fn exit_hint(j: Seq<char>) -> Option<Seq<char>> {
    if contains(j, "outofdevicememory"@) || contains(j, "out of memory"@) || contains(
        j,
        "failed to allocate"@,
    ) {
        Some(HINT_MEMORY@)
    } else if contains(j, "does not support split buffers"@) {
        Some(HINT_SPLIT@)
    } else if contains(j, "invalid device"@) || contains(j, "no device named"@) {
        Some(HINT_DEVICE@)
    } else if contains(j, "unknown model architecture"@) || contains(j, "unknown architecture"@) {
        Some(HINT_ARCH@)
    } else if contains(j, "no such file"@) || contains(j, "failed to open"@) {
        Some(HINT_FILE@)
    } else if contains(j, "address already in use"@) {
        Some(HINT_PORT@)
    } else if contains(j, "invalid argument"@) || contains(j, "unknown argument"@) {
        Some(HINT_FLAG@)
    } else {
        None
    }
}

/// The first line at or after `i` that is not the generic "exiting due to".
pub open spec fn specific_from(cl: Seq<Seq<char>>, i: nat) -> Option<Seq<char>>
    decreases cl.len() - i,
{
    if i >= cl.len() {
        None
    } else if !contains(lower_seq(cl[i as int]), "exiting due to"@) {
        Some(cl[i as int])
    } else {
        specific_from(cl, i + 1)
    }
}

/// The most specific line: usually the earliest error, since ggml prints
/// the allocation failure before llama-server's generic "exiting" line.
pub open spec fn headline(cl: Seq<Seq<char>>) -> Option<Seq<char>> {
    match specific_from(cl, 0) {
        Some(l) => Some(l),
        None => if cl.len() > 0 {
            Some(cl[0])
        } else {
            None
        },
    }
}

/// Lines over 220 bytes are cut to 217 bytes plus "...".
pub open spec fn shorten(l: Seq<char>) -> Seq<char> {
    if utf8_len(l) > 220 {
        l.take(prefix_within(l, 217) as int) + "..."@
    } else {
        l
    }
}

/// Cutting a long headline at byte 217 must not split a character.
pub open spec fn cut_is_clean(recent: Seq<Seq<char>>) -> bool {
    match headline(error_lines(recent)) {
        Some(l) => utf8_len(l) > 220 ==> utf8_len(l.take(prefix_within(l, 217) as int)) == 217,
        None => true,
    }
}

pub open spec fn diagnosis(recent: Seq<Seq<char>>) -> Option<Seq<char>> {
    let cl = error_lines(recent);
    match headline(cl) {
        None => None,
        Some(l) => Some(
            shorten(l) + match exit_hint(lower_seq(join(cl, " | "@))) {
                Some(h) => " \u{2014} "@ + h,
                None => seq![],
            },
        ),
    }
}

pub open spec fn string_views(s: Seq<String>) -> Seq<Seq<char>> {
    s.map_values(|x: String| x@)
}

fn looks_timestamped_exec(w: &Vec<char>) -> (b: bool)
    ensures
        b == looks_timestamped(w@),
{
    let mut i: usize = 0;
    while i < w.len()
        invariant
            i <= w.len(),
            forall|j: int| 0 <= j < i ==> is_digit(#[trigger] w@[j]) || w@[j] == '.',
        decreases w.len() - i,
    {
        let c = w[i];
        if !(('0' <= c && c <= '9') || c == '.') {
            return false;
        }
        i += 1;
    }
    contains_exec(w, &lit("."))
}

/// Drops llama-server's `0.03.046.031 E srv ` timestamp/level/module prefix.
pub fn strip_log_prefix(line: &str) -> (out: String)
    ensures
        out@ == stripped_line(line@),
{
    let v = chars_of(line);
    let ws = words_exec(&v);
    if ws.len() == 0 {
        proof {
            reveal_strlit(".");
            assert(!looks_timestamped(seq![]));
        }
        return string_of(&trim_vec(&v));
    }
    let first: Vec<char> = copy_vec(&ws[0]);
    if !looks_timestamped_exec(&first) {
        return string_of(&trim_vec(&v));
    }
    let mut rest: Vec<Vec<char>> = Vec::new();
    let mut i: usize = 1;
    assert(views(rest@) =~= views(ws@).subrange(1, 1));
    while i < ws.len()
        invariant
            1 <= i <= ws.len(),
            views(rest@) == views(ws@).subrange(1, i as int),
        decreases ws.len() - i,
    {
        let ghost before = rest@;
        let w = copy_vec(&ws[i]);
        rest.push(w);
        assert(views(rest@) =~= views(before).push(ws@[i as int]@));
        assert(views(rest@) =~= views(ws@).subrange(1, i + 1));
        i += 1;
    }
    assert(views(rest@) =~= views(ws@).drop_first());
    let skip: usize = if rest.len() > 0 && utf8_len_capped(&rest[0], 4) <= 3 {
        if rest.len() > 1 && utf8_len_capped(&rest[1], 4) <= 3 {
            2
        } else {
            1
        }
    } else {
        0
    };
    assert(skip == tag_words(views(rest@)));
    let mut tail: Vec<Vec<char>> = Vec::new();
    let mut k = skip;
    assert(views(tail@) =~= views(rest@).subrange(skip as int, skip as int));
    while k < rest.len()
        invariant
            skip <= k <= rest.len(),
            views(tail@) == views(rest@).subrange(skip as int, k as int),
        decreases rest.len() - k,
    {
        let ghost before = tail@;
        let w = copy_vec(&rest[k]);
        tail.push(w);
        assert(views(tail@) =~= views(before).push(rest@[k as int]@));
        assert(views(tail@) =~= views(rest@).subrange(skip as int, k + 1));
        k += 1;
    }
    assert(views(tail@) =~= views(rest@).skip(skip as int));
    string_of(&join_exec(&tail, &lit(" ")))
}

fn is_error_line_exec(l: &Vec<char>) -> (b: bool)
    ensures
        b == is_error_line(l@),
{
    let low = lower_vec(l);
    contains_exec(l, &lit(" E ")) || contains_exec(&low, &lit("error")) || contains_exec(
        &low,
        &lit("failed"),
    ) || contains_exec(&low, &lit("not found")) || contains_exec(&low, &lit("no such file"))
}

fn exit_hint_exec(j: &Vec<char>) -> (h: Option<&'static str>)
    ensures
        h matches Some(t) ==> exit_hint(j@) == Some(t@),
        h is None ==> exit_hint(j@) is None,
{
    if contains_exec(j, &lit("outofdevicememory")) || contains_exec(j, &lit("out of memory"))
        || contains_exec(j, &lit("failed to allocate")) {
        Some(HINT_MEMORY)
    } else if contains_exec(j, &lit("does not support split buffers")) {
        Some(HINT_SPLIT)
    } else if contains_exec(j, &lit("invalid device")) || contains_exec(j, &lit("no device named")) {
        Some(HINT_DEVICE)
    } else if contains_exec(j, &lit("unknown model architecture")) || contains_exec(
        j,
        &lit("unknown architecture"),
    ) {
        Some(HINT_ARCH)
    } else if contains_exec(j, &lit("no such file")) || contains_exec(j, &lit("failed to open")) {
        Some(HINT_FILE)
    } else if contains_exec(j, &lit("address already in use")) {
        Some(HINT_PORT)
    } else if contains_exec(j, &lit("invalid argument")) || contains_exec(
        j,
        &lit("unknown argument"),
    ) {
        Some(HINT_FLAG)
    } else {
        None
    }
}

/// The error lines of `recent`, each without its log prefix.
fn error_lines_exec(recent: &[String]) -> (cleaned: Vec<Vec<char>>)
    ensures
        views(cleaned@) == error_lines(string_views(recent@)),
{
    let ghost r = string_views(recent@);
    let mut cleaned: Vec<Vec<char>> = Vec::new();
    let mut i: usize = 0;
    while i < recent.len()
        invariant
            i <= recent.len(),
            r == string_views(recent@),
            views(cleaned@) == error_lines(r.take(i as int)),
        decreases recent.len() - i,
    {
        let l = chars_of(recent[i].as_str());
        assert(r.take(i + 1).drop_last() =~= r.take(i as int));
        assert(r.take(i + 1).last() == l@);
        if !starts_with_exec(&l, &lit("[monitor]")) && is_error_line_exec(&l) {
            let s = strip_log_prefix(recent[i].as_str());
            let sv = chars_of(s.as_str());
            let ghost before = views(cleaned@);
            cleaned.push(sv);
            assert(views(cleaned@) =~= before.push(sv@));
        }
        i += 1;
    }
    assert(r.take(recent.len() as int) =~= r);
    cleaned
}

/// Where the headline stands among the error lines, if there is one.
fn headline_index(cleaned: &Vec<Vec<char>>) -> (r: Option<usize>)
    ensures
        match r {
            Some(k) => k < cleaned.len() && headline(views(cleaned@)) == Some(cleaned@[k as int]@),
            None => headline(views(cleaned@)) is None,
        },
{
    let ghost cl = views(cleaned@);
    // The first line that is not the generic "exiting due to".
    let mut k: usize = 0;
    while k < cleaned.len() && contains_exec(&lower_vec(&cleaned[k]), &lit("exiting due to"))
        invariant
            k <= cleaned.len(),
            cl == views(cleaned@),
            specific_from(cl, 0) == specific_from(cl, k as nat),
        decreases cleaned.len() - k,
    {
        k += 1;
    }
    if k < cleaned.len() {
        Some(k)
    } else if cleaned.len() == 0 {
        None
    } else {
        Some(0)
    }
}

/// Whether `diagnose_exit` can cut the headline of `recent` at 217 bytes
/// without splitting a character, as it needs.
pub fn cut_clean(recent: &[String]) -> (b: bool)
    ensures
        b == cut_is_clean(string_views(recent@)),
{
    let cleaned = error_lines_exec(recent);
    match headline_index(&cleaned) {
        None => true,
        Some(idx) => {
            let line = &cleaned[idx];
            if utf8_len_capped(line, 221) > 220 {
                let k = prefix_within_exec(line, 217);
                let t = slice_of(line, 0, k);
                assert(t@ =~= line@.take(k as int));
                utf8_len_capped(&t, 218) == 217
            } else {
                true
            }
        },
    }
}

/// Turns llama-server's last error lines into one sentence for the crash
/// notification and the event log, with a hint for the common causes.
/// Returns None when nothing in `recent` looks like an error.
pub fn diagnose_exit(recent: &[String]) -> (out: Option<String>)
    requires
        cut_is_clean(string_views(recent@)),
    ensures
        out matches Some(s) ==> diagnosis(string_views(recent@)) == Some(s@),
        out is None ==> diagnosis(string_views(recent@)) is None,
{
    let cleaned = error_lines_exec(recent);
    let ghost cl = views(cleaned@);
    let idx = match headline_index(&cleaned) {
        Some(k) => k,
        None => {
            return None;
        },
    };
    let line = &cleaned[idx];
    let mut out: Vec<char> = if utf8_len_capped(line, 221) > 220 {
        let k = prefix_within_exec(line, 217);
        let mut t = slice_of(line, 0, k);
        extend(&mut t, &lit("..."));
        t
    } else {
        slice_of(line, 0, line.len())
    };
    assert(out@ == shorten(cl[idx as int]));
    let joined = lower_vec(&join_exec(&cleaned, &lit(" | ")));
    match exit_hint_exec(&joined) {
        Some(h) => {
            extend(&mut out, &lit(" \u{2014} "));
            extend(&mut out, &lit(h));
        },
        None => {},
    }
    Some(string_of(&out))
}


/// An exit this soon after the launch happened during startup.
pub const STARTUP_WINDOW_MS: u64 = 20000;

/// How many of the server's last log lines the diagnosis reads.
pub const RECENT_LINES: usize = 60;

/// The last `RECENT_LINES` lines of `logs` (all of them when fewer).
pub open spec fn recent_of(logs: Seq<Seq<char>>) -> Seq<Seq<char>> {
    if logs.len() <= RECENT_LINES {
        logs
    } else {
        logs.skip(logs.len() - RECENT_LINES)
    }
}

pub fn recent_lines(logs: &[String]) -> (r: Vec<String>)
    ensures
        string_views(r@) == recent_of(string_views(logs@)),
{
    let start: usize = if logs.len() > RECENT_LINES {
        logs.len() - RECENT_LINES
    } else {
        0
    };
    let mut r: Vec<String> = Vec::new();
    let mut i: usize = start;
    while i < logs.len()
        invariant
            start <= i <= logs@.len(),
            start == (if logs@.len() > RECENT_LINES {
                logs@.len() - RECENT_LINES
            } else {
                0
            }),
            string_views(r@) == string_views(logs@).subrange(start as int, i as int),
        decreases logs@.len() - i,
    {
        let ghost before = r@;
        let line = logs[i].clone();
        r.push(line);
        assert(r@ == before.push(logs@[i as int]));
        assert(string_views(r@) =~= string_views(before).push(logs@[i as int]@));
        assert(string_views(logs@).subrange(start as int, i + 1) =~= string_views(logs@).subrange(
            start as int,
            i as int,
        ).push(logs@[i as int]@));
        i += 1;
    }
    assert(string_views(logs@).subrange(start as int, logs@.len() as int) =~= recent_of(
        string_views(logs@),
    ));
    r
}

/// The monitor's notice when llama-server exits on its own: during
/// startup or unexpectedly (by how long it ran), its exit status, and the
/// diagnosis of its last lines, or a pointer to them when there is none.
pub open spec fn exit_message_of(status: Seq<char>, elapsed_ms: u64, diag: Option<Seq<char>>) -> Seq<
    char,
> {
    (if elapsed_ms < STARTUP_WINDOW_MS {
        "llama-server exited during startup ("@
    } else {
        "llama-server exited unexpectedly ("@
    }) + status + ")"@ + match diag {
        Some(d) => ": "@ + d,
        None => ". See Process Output on Monitor for its last lines."@,
    }
}

pub fn exit_message(status: &str, elapsed_ms: u64, recent: &[String]) -> (m: String)
    requires
        cut_is_clean(string_views(recent@)),
    ensures
        m@ == exit_message_of(status@, elapsed_ms, diagnosis(string_views(recent@))),
{
    let mut v = if elapsed_ms < STARTUP_WINDOW_MS {
        lit("llama-server exited during startup (")
    } else {
        lit("llama-server exited unexpectedly (")
    };
    extend(&mut v, &lit(status));
    extend(&mut v, &lit(")"));
    match diagnose_exit(recent) {
        Some(d) => {
            extend(&mut v, &lit(": "));
            extend(&mut v, &lit(d.as_str()));
        },
        None => {
            extend(&mut v, &lit(". See Process Output on Monitor for its last lines."));
        },
    }
    assert(v@ =~= exit_message_of(status@, elapsed_ms, diagnosis(string_views(recent@))));
    string_of(&v)
}


/// A line llama-server wrote (not the monitor's own) that looks like an
/// error.
pub open spec fn reported_error(l: Seq<char>) -> bool {
    !starts_with(l, "[monitor]"@) && is_error_line(l)
}

proof fn lemma_error_lines_empty(recent: Seq<Seq<char>>)
    ensures
        error_lines(recent).len() == 0 <==> forall|i: int|
            0 <= i < recent.len() ==> !#[trigger] reported_error(recent[i]),
    decreases recent.len(),
{
    if recent.len() > 0 {
        let t = recent.drop_last();
        lemma_error_lines_empty(t);
        if forall|i: int| 0 <= i < recent.len() ==> !#[trigger] reported_error(recent[i]) {
            assert forall|i: int| 0 <= i < t.len() implies !#[trigger] reported_error(t[i]) by {
                assert(t[i] == recent[i]);
                assert(!reported_error(recent[i]));
            }
            assert(!reported_error(recent[recent.len() - 1]));
        } else {
            let i = choose|i: int| 0 <= i < recent.len() && #[trigger] reported_error(recent[i]);
            if i < t.len() {
                assert(t[i] == recent[i]);
                assert(reported_error(t[i]));
            } else {
                assert(recent.last() == recent[i]);
            }
        }
    }
}

/// There is a diagnosis exactly when some line llama-server wrote (not the
/// monitor's own) looks like an error: it holds " E ", or, in any case,
/// "error", "failed", "not found" or "no such file".
pub proof fn law_diagnosis_iff_error_line(recent: Seq<Seq<char>>)
    ensures
        diagnosis(recent) is None <==> forall|i: int|
            0 <= i < recent.len() ==> !#[trigger] reported_error(recent[i]),
{
    lemma_error_lines_empty(recent);
}


proof fn lemma_ends_with_concat(x: Seq<char>, y: Seq<char>)
    ensures
        ends_with(x + y, y),
{
    assert((x + y).skip((x + y).len() - y.len()) =~= y);
}

/// Which hint a diagnosis carries, by what the error lines say (read
/// together, lower-cased): running out of device memory first, then split
/// buffers, missing devices, an unknown architecture, a missing file, a
/// taken port and a rejected flag, in that order of precedence; the hint
/// follows the headline after " — ". Error lines that name none of these
/// give the headline alone.
pub proof fn law_exit_hints(recent: Seq<Seq<char>>)
    requires
        error_lines(recent).len() > 0,
    ensures
        ({
            let j = lower_seq(join(error_lines(recent), " | "@));
            let d = diagnosis(recent);
            let dash = " \u{2014} "@;
            let mem = contains(j, "outofdevicememory"@) || contains(j, "out of memory"@) || contains(
                j,
                "failed to allocate"@,
            );
            let split = contains(j, "does not support split buffers"@);
            let dev = contains(j, "invalid device"@) || contains(j, "no device named"@);
            let arch = contains(j, "unknown model architecture"@) || contains(
                j,
                "unknown architecture"@,
            );
            let file = contains(j, "no such file"@) || contains(j, "failed to open"@);
            let port = contains(j, "address already in use"@);
            let flag = contains(j, "invalid argument"@) || contains(j, "unknown argument"@);
            &&& d is Some
            &&& mem ==> ends_with(d->0, dash + HINT_MEMORY@)
            &&& !mem && split ==> ends_with(d->0, dash + HINT_SPLIT@)
            &&& !mem && !split && dev ==> ends_with(d->0, dash + HINT_DEVICE@)
            &&& !mem && !split && !dev && arch ==> ends_with(d->0, dash + HINT_ARCH@)
            &&& !mem && !split && !dev && !arch && file ==> ends_with(d->0, dash + HINT_FILE@)
            &&& !mem && !split && !dev && !arch && !file && port ==> ends_with(
                d->0,
                dash + HINT_PORT@,
            )
            &&& !mem && !split && !dev && !arch && !file && !port && flag ==> ends_with(
                d->0,
                dash + HINT_FLAG@,
            )
            &&& !mem && !split && !dev && !arch && !file && !port && !flag ==> d->0 == shorten(
                headline(error_lines(recent))->0,
            )
        }),
{
    let cl = error_lines(recent);
    let j = lower_seq(join(cl, " | "@));
    let l = headline(cl)->0;
    match exit_hint(j) {
        Some(h) => lemma_ends_with_concat(shorten(l), " \u{2014} "@ + h),
        None => {
            assert(shorten(l) + seq![] =~= shorten(l));
        },
    }
}

} // verus!
