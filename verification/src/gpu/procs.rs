//! Which processes are using the GPUs, nvtop-style: the parsing of each
//! process's `/proc/<pid>/fdinfo/<fd>` (amdgpu and other DRM drivers) and
//! of `nvidia-smi --query-compute-apps` output.
use vstd::prelude::*;
use crate::text::{
    char_utf8_len, char_utf8_len_exec, chars_of, copy_vec, extend, lines, lines_of, lit,
    lower_seq, lower_vec, parse_uint, parse_uint_exec, rsplit_once, rsplit_once_exec, slice_of,
    split_once, split_once_exec, str_eq, string_of, trim, trim_vec, utf8_len, utf8_len_capped,
    vec_eq, views, words, words_exec,
};

verus! {

/// One DRM client as parsed from an fdinfo file.
#[derive(Debug, Clone, PartialEq)]
pub struct DrmClient {
    pub driver: String,
    pub pdev: String,
    pub client_id: String,
    pub vram_bytes: u64,
    /// Busy nanoseconds on the gfx (or compute, when gfx is absent) engine.
    pub engine_ns: Option<u64>,
}

pub struct DrmClientView {
    pub driver: Seq<char>,
    pub pdev: Seq<char>,
    pub client_id: Seq<char>,
    pub vram_bytes: nat,
    pub engine_ns: Option<nat>,
}

impl DrmClient {
    pub open spec fn view(&self) -> DrmClientView {
        DrmClientView {
            driver: self.driver@,
            pdev: self.pdev@,
            client_id: self.client_id@,
            vram_bytes: self.vram_bytes as nat,
            engine_ns: match self.engine_ns {
                Some(n) => Some(n as nat),
                None => None,
            },
        }
    }
}

/// "1234 KiB" / "12 MiB" / "5 GiB" (a bare number is bytes) as bytes.
pub open spec fn size_value(v: Seq<char>) -> Option<int> {
    let ws = words(v);
    if ws.len() == 0 {
        None
    } else {
        match parse_uint(ws[0], u64::MAX as nat) {
            None => None,
            Some(n) => {
                let unit = if ws.len() > 1 {
                    ws[1]
                } else {
                    "B"@
                };
                Some(
                    n * if unit == "KiB"@ {
                        1024int
                    } else if unit == "MiB"@ {
                        0x10_0000int
                    } else if unit == "GiB"@ {
                        0x4000_0000int
                    } else {
                        1int
                    },
                )
            },
        }
    }
}

/// "123456789 ns" as 123456789.
pub open spec fn ns_value(v: Seq<char>) -> Option<nat> {
    let ws = words(v);
    if ws.len() == 0 {
        None
    } else {
        parse_uint(ws[0], u64::MAX as nat)
    }
}

/// An fdinfo reading in progress: the client fields, then the gfx and
/// compute engine times.
pub type FdState = (DrmClientView, Option<nat>, Option<nat>);

pub open spec fn fd_line(line: Seq<char>) -> Option<(Seq<char>, Seq<char>)> {
    match split_once(line, ":"@) {
        Some(kv) => Some((trim(kv.0), trim(kv.1))),
        None => None,
    }
}

pub open spec fn is_vram_key(key: Seq<char>) -> bool {
    key == "drm-memory-vram"@ || key == "drm-total-vram"@
}

pub open spec fn fd_step(st: FdState, line: Seq<char>) -> FdState {
    match fd_line(line) {
        None => st,
        Some(kv) => {
            let (key, value) = kv;
            let c = st.0;
            if key == "drm-driver"@ {
                (DrmClientView { driver: value, ..c }, st.1, st.2)
            } else if key == "drm-pdev"@ {
                (DrmClientView { pdev: value, ..c }, st.1, st.2)
            } else if key == "drm-client-id"@ {
                (DrmClientView { client_id: value, ..c }, st.1, st.2)
            } else if is_vram_key(key) {
                (
                    DrmClientView {
                        vram_bytes: match size_value(value) {
                            Some(b) => b as nat,
                            None => 0,
                        },
                        ..c
                    },
                    st.1,
                    st.2,
                )
            } else if key == "drm-engine-gfx"@ {
                (c, ns_value(value), st.2)
            } else if key == "drm-engine-compute"@ {
                (c, st.1, ns_value(value))
            } else {
                st
            }
        },
    }
}

pub open spec fn fd_fold(ls: Seq<Seq<char>>) -> FdState
    decreases ls.len(),
{
    if ls.len() == 0 {
        (
            DrmClientView {
                driver: seq![],
                pdev: seq![],
                client_id: seq![],
                vram_bytes: 0,
                engine_ns: None,
            },
            None,
            None,
        )
    } else {
        fd_step(fd_fold(ls.drop_last()), ls.last())
    }
}

/// The DRM client an fdinfo file describes; nothing for fds that are not
/// DRM clients (no `drm-driver`). The engine time is gfx's, or compute's
/// when gfx is absent.
pub open spec fn fdinfo(text: Seq<char>) -> Option<DrmClientView> {
    let st = fd_fold(lines(text));
    if st.0.driver.len() == 0 {
        None
    } else {
        Some(
            DrmClientView {
                engine_ns: match st.1 {
                    Some(n) => Some(n),
                    None => st.2,
                },
                ..st.0
            },
        )
    }
}

/// Every VRAM size in the file fits in `u64` bytes.
pub open spec fn fdinfo_fits(ls: Seq<Seq<char>>) -> bool {
    forall|i: int|
        0 <= i < ls.len() ==> match fd_line(#[trigger] ls[i]) {
            Some(kv) => is_vram_key(kv.0) ==> match size_value(kv.1) {
                Some(b) => b <= u64::MAX,
                None => true,
            },
            None => true,
        }
}

/// "1234 KiB" / "12 MiB" / "5 GiB" -> bytes.
fn parse_size(v: &Vec<char>) -> (r: Option<u64>)
    requires
        size_value(v@) matches Some(b) ==> b <= u64::MAX,
    ensures
        r matches Some(b) ==> size_value(v@) == Some(b as int),
        r is None ==> size_value(v@) is None,
{
    let ws = words_exec(v);
    if ws.len() == 0 {
        return None;
    }
    assert(views(ws@)[0] == ws@[0]@);
    let n = match parse_uint_exec(&ws[0], u64::MAX) {
        Some(n) => n,
        None => {
            return None;
        },
    };
    let unit = if ws.len() > 1 {
        assert(views(ws@)[1] == ws@[1]@);
        copy_vec(&ws[1])
    } else {
        lit("B")
    };
    let mult: u64 = if vec_eq(&unit, &lit("KiB")) {
        1024
    } else if vec_eq(&unit, &lit("MiB")) {
        0x10_0000
    } else if vec_eq(&unit, &lit("GiB")) {
        0x4000_0000
    } else {
        1
    };
    Some(n * mult)
}

/// "123456789 ns" -> 123456789.
fn parse_ns(v: &Vec<char>) -> (r: Option<u64>)
    ensures
        r matches Some(n) ==> ns_value(v@) == Some(n as nat),
        r is None ==> ns_value(v@) is None,
{
    let ws = words_exec(v);
    if ws.len() == 0 {
        return None;
    }
    assert(views(ws@)[0] == ws@[0]@);
    parse_uint_exec(&ws[0], u64::MAX)
}

pub open spec fn opt_nat(o: Option<u64>) -> Option<nat> {
    match o {
        Some(n) => Some(n as nat),
        None => None,
    }
}

/// Parses one `/proc/<pid>/fdinfo/<fd>` file. Returns None for fds that
/// are not DRM clients.
pub fn parse_fdinfo(text: &str) -> (r: Option<DrmClient>)
    requires
        fdinfo_fits(lines(text@)),
    ensures
        r matches Some(c) ==> fdinfo(text@) == Some(c.view()),
        r is None ==> fdinfo(text@) is None,
{
    let ls = lines_of(text);
    let ghost lv = views(ls@);
    let mut c = DrmClient {
        driver: String::new(),
        pdev: String::new(),
        client_id: String::new(),
        vram_bytes: 0,
        engine_ns: None,
    };
    let mut gfx_ns: Option<u64> = None;
    let mut compute_ns: Option<u64> = None;
    assert(c.view().driver =~= seq![]);
    assert(c.view().pdev =~= seq![]);
    assert(c.view().client_id =~= seq![]);
    let mut i: usize = 0;
    while i < ls.len()
        invariant
            i <= ls.len(),
            lv == views(ls@),
            fdinfo_fits(lv),
            c.engine_ns is None,
            fd_fold(lv.take(i as int)) == (c.view(), opt_nat(gfx_ns), opt_nat(compute_ns)),
        decreases ls.len() - i,
    {
        let ghost t = lv.take(i + 1);
        assert(t.drop_last() =~= lv.take(i as int));
        assert(t.last() == ls@[i as int]@);
        let ghost cv = c.view();
        match split_once_exec(&ls[i], &lit(":")) {
            None => {},
            Some(kv) => {
                let key = trim_vec(&kv.0);
                let value = trim_vec(&kv.1);
                assert(fd_line(lv[i as int]) == Some((key@, value@)));
                if vec_eq(&key, &lit("drm-driver")) {
                    c.driver = string_of(&value);
                    assert(c.view() == DrmClientView { driver: value@, ..cv });
                } else if vec_eq(&key, &lit("drm-pdev")) {
                    c.pdev = string_of(&value);
                    assert(c.view() == DrmClientView { pdev: value@, ..cv });
                } else if vec_eq(&key, &lit("drm-client-id")) {
                    c.client_id = string_of(&value);
                    assert(c.view() == DrmClientView { client_id: value@, ..cv });
                } else if vec_eq(&key, &lit("drm-memory-vram")) || vec_eq(
                    &key,
                    &lit("drm-total-vram"),
                ) {
                    c.vram_bytes = match parse_size(&value) {
                        Some(b) => b,
                        None => 0,
                    };
                } else if vec_eq(&key, &lit("drm-engine-gfx")) {
                    gfx_ns = parse_ns(&value);
                } else if vec_eq(&key, &lit("drm-engine-compute")) {
                    compute_ns = parse_ns(&value);
                }
            },
        }
        i += 1;
    }
    assert(lv.take(ls.len() as int) =~= lv);
    if chars_of(c.driver.as_str()).len() == 0 {
        return None;
    }
    c.engine_ns = match gfx_ns {
        Some(n) => Some(n),
        None => compute_ns,
    };
    Some(c)
}

pub open spec fn vendor_of(driver: Seq<char>) -> Seq<char> {
    if driver == "amdgpu"@ || driver == "radeon"@ {
        "AMD"@
    } else if driver == "i915"@ || driver == "xe"@ {
        "Intel"@
    } else if driver == "nvidia-drm"@ || driver == "nouveau"@ {
        "NVIDIA"@
    } else {
        "GPU"@
    }
}

/// The vendor a DRM driver belongs to.
pub fn vendor_for_driver(driver: &str) -> (v: &'static str)
    ensures
        v@ == vendor_of(driver@),
{
    let d = chars_of(driver);
    if vec_eq(&d, &lit("amdgpu")) || vec_eq(&d, &lit("radeon")) {
        "AMD"
    } else if vec_eq(&d, &lit("i915")) || vec_eq(&d, &lit("xe")) {
        "Intel"
    } else if vec_eq(&d, &lit("nvidia-drm")) || vec_eq(&d, &lit("nouveau")) {
        "NVIDIA"
    } else {
        "GPU"
    }
}

/// The characters at the end of `s` that take exactly `n` UTF-8 bytes,
/// when `n` bytes from the end fall on a character boundary.
pub open spec fn byte_suffix(s: Seq<char>, n: nat) -> Option<Seq<char>>
    decreases s.len(),
{
    if n == 0 {
        Some(seq![])
    } else if s.len() == 0 || char_utf8_len(s.last()) > n {
        None
    } else {
        match byte_suffix(s.drop_last(), (n - char_utf8_len(s.last())) as nat) {
            Some(t) => Some(t.push(s.last())),
            None => None,
        }
    }
}

/// nvidia-smi prints `00000000:03:00.0`; the kernel uses `0000:03:00.0`:
/// lower-cased, with the domain cut to its last four bytes.
pub open spec fn normalized_bus(bus: Seq<char>) -> Seq<char> {
    let b = lower_seq(trim(bus));
    match split_once(b, ":"@) {
        Some(dr) => if utf8_len(dr.0) > 4 {
            match byte_suffix(dr.0, 4) {
                Some(t) => t + ":"@ + dr.1,
                None => b,
            }
        } else {
            b
        },
        None => b,
    }
}

/// Cutting the domain at four bytes from its end does not split a
/// character.
pub open spec fn bus_cut_is_clean(bus: Seq<char>) -> bool {
    let b = lower_seq(trim(bus));
    match split_once(b, ":"@) {
        Some(dr) => utf8_len(dr.0) > 4 ==> byte_suffix(dr.0, 4) is Some,
        None => true,
    }
}

fn byte_suffix_exec(s: &Vec<char>, n: usize) -> (r: Option<Vec<char>>)
    ensures
        r matches Some(t) ==> byte_suffix(s@, n as nat) == Some(t@),
        r is None ==> byte_suffix(s@, n as nat) is None,
{
    let mut k = s.len();
    let mut left = n;
    proof {
        assert(s@.take(k as int) =~= s@);
        match byte_suffix(s@, n as nat) {
            Some(t) => {
                assert(t + s@.skip(k as int) =~= t);
            },
            None => {},
        }
    }
    while left > 0 && k > 0 && char_utf8_len_exec(s[k - 1]) <= left
        invariant
            k <= s.len(),
            left <= n,
            byte_suffix(s@, n as nat) == match byte_suffix(s@.take(k as int), left as nat) {
                Some(t) => Some(t + s@.skip(k as int)),
                None => None::<Seq<char>>,
            },
        decreases k,
    {
        let w = char_utf8_len_exec(s[k - 1]);
        let ghost p = s@.take(k as int);
        assert(p.drop_last() =~= s@.take(k - 1));
        assert(p.last() == s@[k - 1]);
        proof {
            match byte_suffix(s@.take(k - 1), (left - w) as nat) {
                Some(t) => {
                    assert(t.push(s@[k - 1]) + s@.skip(k as int) =~= t + s@.skip(k - 1));
                },
                None => {},
            }
        }
        left = left - w;
        k = k - 1;
    }
    if left == 0 {
        let t = slice_of(s, k, s.len());
        assert(seq![] + s@.skip(k as int) =~= t@);
        Some(t)
    } else {
        None
    }
}

/// nvidia-smi prints `00000000:03:00.0`; the kernel uses `0000:03:00.0`.
pub fn normalize_bus(bus: &str) -> (s: String)
    requires
        bus_cut_is_clean(bus@),
    ensures
        s@ == normalized_bus(bus@),
{
    let b = lower_vec(&trim_vec(&chars_of(bus)));
    match split_once_exec(&b, &lit(":")) {
        Some(dr) => {
            if utf8_len_capped(&dr.0, 5) > 4 {
                match byte_suffix_exec(&dr.0, 4) {
                    Some(t) => {
                        let mut out = t;
                        extend(&mut out, &lit(":"));
                        extend(&mut out, &dr.1);
                        string_of(&out)
                    },
                    None => string_of(&b),
                }
            } else {
                string_of(&b)
            }
        },
        None => string_of(&b),
    }
}


/// A compute process as `nvidia-smi --query-compute-apps` lists it.
#[derive(Debug, Clone, PartialEq)]
pub struct NvidiaApp {
    pub pid: u32,
    pub name: String,
    pub vram_bytes: u64,
    pub bus: String,
}

pub struct AppView {
    pub pid: nat,
    pub name: Seq<char>,
    pub vram_bytes: nat,
    pub bus: Seq<char>,
}

impl NvidiaApp {
    pub open spec fn view(&self) -> AppView {
        AppView {
            pid: self.pid as nat,
            name: self.name@,
            vram_bytes: self.vram_bytes as nat,
            bus: self.bus@,
        }
    }
}

pub open spec fn fields_of(line: Seq<char>) -> Seq<Seq<char>> {
    crate::text::split_char(line, ',').map_values(|f: Seq<char>| trim(f))
}

/// The text after the last `/`, or all of it.
pub open spec fn base_name(s: Seq<char>) -> Seq<char> {
    match crate::text::rfind(s, "/"@) {
        Some(i) => s.skip(i + 1),
        None => s,
    }
}

/// The process a CSV line describes: pid, process name (its path's last
/// part), used memory (MiB, as bytes) and GPU bus id; nothing for short or
/// unparsable lines.
pub open spec fn app_of(line: Seq<char>) -> Option<AppView> {
    let f = fields_of(line);
    if f.len() < 4 {
        None
    } else {
        match parse_uint(f[0], u32::MAX as nat) {
            None => None,
            Some(pid) => match parse_uint(f[2], u64::MAX as nat) {
                None => None,
                Some(mib) => Some(
                    AppView {
                        pid: pid,
                        name: base_name(f[1]),
                        vram_bytes: mib * 0x10_0000,
                        bus: normalized_bus(f[3]),
                    },
                ),
            },
        }
    }
}

/// The line's memory fits in `u64` bytes and its bus id can be cut.
pub open spec fn app_fits(line: Seq<char>) -> bool {
    let f = fields_of(line);
    f.len() >= 4 && parse_uint(f[0], u32::MAX as nat) is Some ==> match parse_uint(
        f[2],
        u64::MAX as nat,
    ) {
        Some(mib) => mib * 0x10_0000 <= u64::MAX && bus_cut_is_clean(f[3]),
        None => true,
    }
}

pub open spec fn apps_of(ls: Seq<Seq<char>>) -> Seq<AppView>
    decreases ls.len(),
{
    if ls.len() == 0 {
        seq![]
    } else {
        match app_of(ls.last()) {
            Some(a) => apps_of(ls.drop_last()).push(a),
            None => apps_of(ls.drop_last()),
        }
    }
}

/// The trimmed comma-separated fields of a CSV line.
fn fields_exec(line: &Vec<char>) -> (f: Vec<Vec<char>>)
    ensures
        views(f@) == fields_of(line@),
{
    let parts = crate::text::split_char_exec(line, ',');
    let mut f: Vec<Vec<char>> = Vec::new();
    let mut k: usize = 0;
    while k < parts.len()
        invariant
            k <= parts.len(),
            views(f@) == views(parts@).take(k as int).map_values(|x: Seq<char>| trim(x)),
        decreases parts.len() - k,
    {
        let ghost before = f@;
        let tk = trim_vec(&parts[k]);
        f.push(tk);
        assert(views(f@) =~= views(before).push(tk@));
        assert(views(parts@)[k as int] == parts@[k as int]@);
        assert(views(parts@).take(k + 1).map_values(|x: Seq<char>| trim(x)) =~= views(
            parts@,
        ).take(k as int).map_values(|x: Seq<char>| trim(x)).push(trim(parts@[k as int]@)));
        k += 1;
    }
    assert(views(parts@).take(parts.len() as int) =~= views(parts@));
    assert(views(f@) =~= fields_of(line@));
    f
}

fn app_of_exec(line: &Vec<char>) -> (r: Option<NvidiaApp>)
    requires
        app_fits(line@),
    ensures
        match r {
            Some(a) => app_of(line@) == Some(a.view()),
            None => app_of(line@) is None,
        },
{
    let f = fields_exec(line);
    if f.len() < 4 {
        return None;
    }
    let pid = match parse_uint_exec(&f[0], u32::MAX as u64) {
        Some(p) => p as u32,
        None => {
            return None;
        },
    };
    let mib = match parse_uint_exec(&f[2], u64::MAX) {
        Some(m) => m,
        None => {
            return None;
        },
    };
    let name = match rsplit_once_exec(&f[1], &lit("/")) {
        Some(ab) => ab.1,
        None => copy_vec(&f[1]),
    };
    proof {
        reveal_strlit("/");
        match crate::text::rfind(f@[1]@, "/"@) {
            Some(i) => {
                assert(name@ =~= base_name(f@[1]@));
            },
            None => {
                assert(name@ =~= base_name(f@[1]@));
            },
        }
    }
    let bus = normalize_bus(string_of(&f[3]).as_str());
    Some(NvidiaApp { pid, name: string_of(&name), vram_bytes: mib * 0x10_0000, bus })
}

/// Parses `nvidia-smi --query-compute-apps=pid,process_name,used_memory,gpu_bus_id
/// --format=csv,noheader,nounits` output.
pub fn parse_nvidia_apps(csv: &str) -> (out: Vec<NvidiaApp>)
    requires
        forall|i: int| 0 <= i < lines(csv@).len() ==> app_fits(#[trigger] lines(csv@)[i]),
    ensures
        out@.map_values(|a: NvidiaApp| a.view()) == apps_of(lines(csv@)),
{
    let ls = lines_of(csv);
    let ghost lv = views(ls@);
    let mut out: Vec<NvidiaApp> = Vec::new();
    let mut i: usize = 0;
    while i < ls.len()
        invariant
            i <= ls.len(),
            lv == views(ls@),
            lv == lines(csv@),
            forall|j: int| 0 <= j < lv.len() ==> app_fits(#[trigger] lv[j]),
            out@.map_values(|a: NvidiaApp| a.view()) == apps_of(lv.take(i as int)),
        decreases ls.len() - i,
    {
        let ghost t = lv.take(i + 1);
        assert(t.drop_last() =~= lv.take(i as int));
        assert(t.last() == ls@[i as int]@);
        assert(app_fits(lv[i as int]));
        let ghost before = out@;
        match app_of_exec(&ls[i]) {
            Some(a) => {
                out.push(a);
                assert(out@.map_values(|a: NvidiaApp| a.view()) =~= before.map_values(
                    |a: NvidiaApp| a.view(),
                ).push(a.view()));
            },
            None => {},
        }
        i += 1;
    }
    assert(lv.take(ls.len() as int) =~= lv);
    out
}


/// Whether `size_value(v)`, where there is one, fits in `u64`.
fn size_in_range(v: &Vec<char>) -> (b: bool)
    ensures
        b == (size_value(v@) matches Some(n) ==> n <= u64::MAX),
{
    let ws = words_exec(v);
    if ws.len() == 0 {
        return true;
    }
    assert(views(ws@)[0] == ws@[0]@);
    let n = match parse_uint_exec(&ws[0], u64::MAX) {
        Some(n) => n,
        None => {
            return true;
        },
    };
    let unit = if ws.len() > 1 {
        assert(views(ws@)[1] == ws@[1]@);
        copy_vec(&ws[1])
    } else {
        lit("B")
    };
    if vec_eq(&unit, &lit("KiB")) {
        n <= u64::MAX / 1024
    } else if vec_eq(&unit, &lit("MiB")) {
        n <= u64::MAX / 0x10_0000
    } else if vec_eq(&unit, &lit("GiB")) {
        n <= u64::MAX / 0x4000_0000
    } else {
        true
    }
}

/// Whether every VRAM size in an fdinfo file fits in `u64` bytes, as
/// `parse_fdinfo` needs.
pub fn fdinfo_in_range(text: &str) -> (b: bool)
    ensures
        b == fdinfo_fits(lines(text@)),
{
    let ls = lines_of(text);
    let ghost lv = views(ls@);
    let mut i: usize = 0;
    while i < ls.len()
        invariant
            i <= ls.len(),
            lv == views(ls@),
            lv == lines(text@),
            forall|j: int|
                0 <= j < i ==> match fd_line(#[trigger] lv[j]) {
                    Some(kv) => is_vram_key(kv.0) ==> match size_value(kv.1) {
                        Some(b) => b <= u64::MAX,
                        None => true,
                    },
                    None => true,
                },
        decreases ls.len() - i,
    {
        assert(lv[i as int] == ls@[i as int]@);
        match split_once_exec(&ls[i], &lit(":")) {
            None => {},
            Some(kv) => {
                let key = trim_vec(&kv.0);
                let value = trim_vec(&kv.1);
                assert(fd_line(lv[i as int]) == Some((key@, value@)));
                if vec_eq(&key, &lit("drm-memory-vram")) || vec_eq(&key, &lit("drm-total-vram")) {
                    if !size_in_range(&value) {
                        return false;
                    }
                }
            },
        }
        i += 1;
    }
    true
}

/// Whether `normalize_bus` can cut the domain of `bus` without splitting
/// a character.
pub fn bus_cut_clean(bus: &str) -> (b: bool)
    ensures
        b == bus_cut_is_clean(bus@),
{
    let b = lower_vec(&trim_vec(&chars_of(bus)));
    match split_once_exec(&b, &lit(":")) {
        Some(dr) => {
            if utf8_len_capped(&dr.0, 5) > 4 {
                byte_suffix_exec(&dr.0, 4).is_some()
            } else {
                true
            }
        },
        None => true,
    }
}

/// Whether every line of `nvidia-smi` compute-app CSV fits, as
/// `parse_nvidia_apps` needs.
pub fn nvidia_apps_in_range(csv: &str) -> (b: bool)
    ensures
        b == forall|i: int| 0 <= i < lines(csv@).len() ==> app_fits(#[trigger] lines(csv@)[i]),
{
    let ls = lines_of(csv);
    let ghost lv = views(ls@);
    let mut i: usize = 0;
    while i < ls.len()
        invariant
            i <= ls.len(),
            lv == views(ls@),
            lv == lines(csv@),
            forall|j: int| 0 <= j < i ==> app_fits(#[trigger] lv[j]),
        decreases ls.len() - i,
    {
        assert(lv[i as int] == ls@[i as int]@);
        let f = fields_exec(&ls[i]);
        if f.len() >= 4 {
            assert(views(f@)[0] == f@[0]@);
            assert(views(f@)[2] == f@[2]@);
            assert(views(f@)[3] == f@[3]@);
            if parse_uint_exec(&f[0], u32::MAX as u64).is_some() {
                match parse_uint_exec(&f[2], u64::MAX) {
                    Some(mib) => {
                        if mib > u64::MAX / 0x10_0000 || !bus_cut_clean(string_of(&f[3]).as_str()) {
                            assert(!app_fits(lv[i as int]));
                            return false;
                        }
                    },
                    None => {},
                }
            }
        }
        assert(app_fits(lv[i as int]));
        i += 1;
    }
    true
}


/// The process list's order on (VRAM bytes, pid): most memory first, then
/// the lower pid.
pub open spec fn listed_before(a: (u64, u32), b: (u64, u32)) -> bool {
    a.0 > b.0 || (a.0 == b.0 && a.1 <= b.1)
}

/// `order` lists every process once, in the process list's order, equal
/// keys in the order they came in.
pub open spec fn process_order_ok(keys: Seq<(u64, u32)>, order: Seq<usize>) -> bool {
    &&& order.len() == keys.len()
    &&& forall|i: int| 0 <= i < order.len() ==> #[trigger] order[i] < keys.len()
    &&& forall|i: int, j: int| 0 <= i < j < order.len() ==> #[trigger] order[i] != #[trigger] order[j]
    &&& forall|i: int, j: int|
        0 <= i < j < order.len() ==> listed_before(
            #[trigger] keys[order[i] as int],
            #[trigger] keys[order[j] as int],
        )
    &&& forall|i: int, j: int|
        0 <= i < j < order.len() && #[trigger] keys[order[i] as int] == #[trigger] keys[order[j] as int]
            ==> order[i] < order[j]
}

/// The order of the GPU process list, by the (VRAM bytes, pid) of each
/// process: an insertion sort, stable.
pub fn process_order(keys: &Vec<(u64, u32)>) -> (order: Vec<usize>)
    ensures
        process_order_ok(keys@, order@),
{
    let ghost kv = keys@;
    let mut order: Vec<usize> = Vec::new();
    let mut n: usize = 0;
    while n < keys.len()
        invariant
            n <= keys.len(),
            kv == keys@,
            order.len() == n,
            forall|i: int| 0 <= i < order.len() ==> #[trigger] order@[i] < n,
            forall|i: int, j: int|
                0 <= i < j < order.len() ==> #[trigger] order@[i] != #[trigger] order@[j],
            forall|i: int, j: int|
                0 <= i < j < order.len() ==> listed_before(
                    #[trigger] kv[order@[i] as int],
                    #[trigger] kv[order@[j] as int],
                ),
            forall|i: int, j: int|
                0 <= i < j < order.len() && #[trigger] kv[order@[i] as int]
                    == #[trigger] kv[order@[j] as int] ==> order@[i] < order@[j],
        decreases keys.len() - n,
    {
        let kn = keys[n];
        // The first position holding a key that goes after `kn`.
        let mut p: usize = 0;
        while p < order.len() && (keys[order[p]].0 > kn.0 || (keys[order[p]].0 == kn.0
            && keys[order[p]].1 <= kn.1))
            invariant
                p <= order.len(),
                n < keys.len(),
                kv == keys@,
                kn == kv[n as int],
                forall|i: int| 0 <= i < order.len() ==> #[trigger] order@[i] < n,
                forall|i: int| 0 <= i < p ==> listed_before(#[trigger] kv[order@[i] as int], kn),
            decreases order.len() - p,
        {
            p += 1;
        }
        let ghost old_order = order@;
        order.insert(p, n);
        proof {
            assert(order@ == old_order.insert(p as int, n));
            assert forall|i: int| 0 <= i < order.len() implies #[trigger] order@[i] < n + 1 by {
                if i < p {
                    assert(order@[i] == old_order[i]);
                } else if i > p {
                    assert(order@[i] == old_order[i - 1]);
                }
            }
            assert forall|i: int, j: int|
                0 <= i < j < order.len() implies #[trigger] order@[i] != #[trigger] order@[j] by {
                let i0 = if i < p { i } else { i - 1 };
                let j0 = if j < p { j } else { j - 1 };
                if i != p as int && j != p as int {
                    assert(order@[i] == old_order[i0]);
                    assert(order@[j] == old_order[j0]);
                } else if i == p as int {
                    assert(order@[j] == old_order[j0]);
                } else {
                    assert(order@[i] == old_order[i0]);
                }
            }
            assert forall|i: int, j: int|
                0 <= i < j < order.len() implies listed_before(
                #[trigger] kv[order@[i] as int],
                #[trigger] kv[order@[j] as int],
            ) && (kv[order@[i] as int] == kv[order@[j] as int] ==> order@[i] < order@[j]) by {
                let i0 = if i < p { i } else { i - 1 };
                let j0 = if j < p { j } else { j - 1 };
                if i != p as int && j != p as int {
                    assert(order@[i] == old_order[i0]);
                    assert(order@[j] == old_order[j0]);
                    assert(i0 < j0);
                } else if i == p as int {
                    // `kn` before a key that goes after it.
                    assert(order@[j] == old_order[j0]);
                    let x = kv[old_order[p as int] as int];
                    assert(!listed_before(x, kn));
                    if j0 > p {
                        assert(listed_before(x, kv[old_order[j0] as int]));
                    }
                } else {
                    assert(order@[i] == old_order[i0]);
                    assert(listed_before(kv[old_order[i0] as int], kn));
                }
            }
        }
        n += 1;
    }
    order
}


/// The DRM clients of one process on one device, as the process list
/// counts them.
pub struct DrmTotal {
    pub pid: u32,
    pub pdev: String,
    pub vram_bytes: u64,
    /// Where the clients counted here stand among the clients as found.
    pub members: Vec<usize>,
}

pub struct DrmTotalView {
    pub pid: u32,
    pub pdev: Seq<char>,
    pub vram_bytes: nat,
    pub members: Seq<usize>,
}

impl DrmTotal {
    pub open spec fn view(&self) -> DrmTotalView {
        DrmTotalView {
            pid: self.pid,
            pdev: self.pdev@,
            vram_bytes: self.vram_bytes as nat,
            members: self.members@,
        }
    }
}

pub open spec fn totals_view(v: Seq<DrmTotal>) -> Seq<DrmTotalView> {
    v.map_values(|t: DrmTotal| t@)
}

/// Clients `x` and `i` of the walk are one client: the same process and
/// the same client id (several fds share one client).
pub open spec fn same_client(s: Seq<(u32, DrmClient)>, x: int, i: int) -> bool {
    s[x].0 == s[i].0 && s[x].1.client_id@ == s[i].1.client_id@
}

/// Client `i` is counted: no earlier fd showed the same client.
pub open spec fn first_of_client(s: Seq<(u32, DrmClient)>, i: int) -> bool {
    forall|x: int| 0 <= x < i ==> !#[trigger] same_client(s, x, i)
}

pub open spec fn has_key(t: DrmTotalView, pid: u32, pdev: Seq<char>) -> bool {
    t.pid == pid && t.pdev == pdev
}

/// Counts client `i` (of process `pid`) in the totals: into the total of
/// its process and device, or a new one at the end.
pub open spec fn count_client(ts: Seq<DrmTotalView>, i: int, pid: u32, c: DrmClientView) -> Seq<
    DrmTotalView,
> {
    if exists|g: int| 0 <= g < ts.len() && #[trigger] has_key(ts[g], pid, c.pdev) {
        let g = choose|g: int| 0 <= g < ts.len() && #[trigger] has_key(ts[g], pid, c.pdev);
        ts.update(
            g,
            DrmTotalView {
                pid: ts[g].pid,
                pdev: ts[g].pdev,
                vram_bytes: ts[g].vram_bytes + c.vram_bytes,
                members: ts[g].members.push(i as usize),
            },
        )
    } else {
        ts.push(
            DrmTotalView { pid, pdev: c.pdev, vram_bytes: c.vram_bytes, members: seq![i as usize] },
        )
    }
}

/// The totals after the first `k` clients of the walk.
pub open spec fn totals_upto(s: Seq<(u32, DrmClient)>, k: nat) -> Seq<DrmTotalView>
    decreases k,
{
    if k == 0 {
        Seq::empty()
    } else {
        let prev = totals_upto(s, (k - 1) as nat);
        let i = k - 1;
        if first_of_client(s, i) {
            count_client(prev, i, s[i].0, s[i].1@)
        } else {
            prev
        }
    }
}

/// The per-process, per-device totals of the clients found, in the order
/// their first client was found.
pub open spec fn drm_totals_of(s: Seq<(u32, DrmClient)>) -> Seq<DrmTotalView> {
    totals_upto(s, s.len())
}

/// Every total's VRAM fits in 64 bits.
pub open spec fn totals_fit(s: Seq<(u32, DrmClient)>) -> bool {
    forall|g: int|
        0 <= g < drm_totals_of(s).len() ==> #[trigger] drm_totals_of(s)[g].vram_bytes <= u64::MAX
}

/// No two totals are for the same process and device.
pub open spec fn keys_unique(ts: Seq<DrmTotalView>) -> bool {
    forall|a: int, b: int|
        0 <= a < b < ts.len() ==> !has_key(#[trigger] ts[a], #[trigger] ts[b].pid, ts[b].pdev)
}

/// The VRAM of the clients at `ms`.
pub open spec fn member_vram(s: Seq<(u32, DrmClient)>, ms: Seq<usize>) -> nat
    decreases ms.len(),
{
    if ms.len() == 0 {
        0
    } else {
        member_vram(s, ms.drop_last()) + s[ms.last() as int].1.vram_bytes as nat
    }
}

pub proof fn lemma_count_client_found(ts: Seq<DrmTotalView>, i: int, pid: u32, c: DrmClientView, g: int)
    requires
        keys_unique(ts),
        0 <= g < ts.len(),
        has_key(ts[g], pid, c.pdev),
    ensures
        count_client(ts, i, pid, c) == ts.update(
            g,
            DrmTotalView {
                pid: ts[g].pid,
                pdev: ts[g].pdev,
                vram_bytes: ts[g].vram_bytes + c.vram_bytes,
                members: ts[g].members.push(i as usize),
            },
        ),
{
    let h = choose|h: int| 0 <= h < ts.len() && #[trigger] has_key(ts[h], pid, c.pdev);
    assert(has_key(ts[g], pid, c.pdev));
    if h != g {
        if h < g {
            assert(has_key(ts[h], ts[g].pid, ts[g].pdev));
        } else {
            assert(has_key(ts[g], ts[h].pid, ts[h].pdev));
        }
    }
}

pub proof fn lemma_totals_unique(s: Seq<(u32, DrmClient)>, k: nat)
    ensures
        keys_unique(totals_upto(s, k)),
    decreases k,
{
    if k > 0 {
        let i = k - 1;
        lemma_totals_unique(s, (k - 1) as nat);
        let prev = totals_upto(s, (k - 1) as nat);
        let cur = totals_upto(s, k);
        if first_of_client(s, i) {
            let pid = s[i].0;
            let c = s[i].1@;
            if exists|g: int| 0 <= g < prev.len() && #[trigger] has_key(prev[g], pid, c.pdev) {
                let g = choose|g: int| 0 <= g < prev.len() && #[trigger] has_key(prev[g], pid, c.pdev);
                assert forall|a: int, b: int| 0 <= a < b < cur.len() implies !has_key(
                    #[trigger] cur[a],
                    #[trigger] cur[b].pid,
                    cur[b].pdev,
                ) by {
                    assert(cur[a].pid == prev[a].pid && cur[a].pdev == prev[a].pdev);
                    assert(cur[b].pid == prev[b].pid && cur[b].pdev == prev[b].pdev);
                    assert(!has_key(prev[a], prev[b].pid, prev[b].pdev));
                }
            } else {
                assert forall|a: int, b: int| 0 <= a < b < cur.len() implies !has_key(
                    #[trigger] cur[a],
                    #[trigger] cur[b].pid,
                    cur[b].pdev,
                ) by {
                    if b < prev.len() {
                        assert(!has_key(prev[a], prev[b].pid, prev[b].pdev));
                    } else {
                        assert(!has_key(prev[a], pid, c.pdev));
                    }
                }
            }
        }
    }
}

/// Later totals keep the earlier ones where they stand, with the same
/// process and device and at least as much VRAM.
pub proof fn lemma_totals_grow(s: Seq<(u32, DrmClient)>, k: nat, n: nat)
    requires
        k <= n,
    ensures
        totals_upto(s, k).len() <= totals_upto(s, n).len(),
        forall|g: int|
            0 <= g < totals_upto(s, k).len() ==> {
                &&& (#[trigger] totals_upto(s, n)[g]).pid == totals_upto(s, k)[g].pid
                &&& totals_upto(s, n)[g].pdev == totals_upto(s, k)[g].pdev
                &&& totals_upto(s, k)[g].vram_bytes <= totals_upto(s, n)[g].vram_bytes
            },
    decreases n,
{
    if k < n {
        lemma_totals_grow(s, k, (n - 1) as nat);
        let prev = totals_upto(s, (n - 1) as nat);
        let cur = totals_upto(s, n);
        let i = n - 1;
        if first_of_client(s, i) {
            let pid = s[i].0;
            let c = s[i].1@;
            if exists|g: int| 0 <= g < prev.len() && #[trigger] has_key(prev[g], pid, c.pdev) {
                let h = choose|g: int| 0 <= g < prev.len() && #[trigger] has_key(prev[g], pid, c.pdev);
                assert forall|g: int| 0 <= g < prev.len() implies {
                    &&& cur[g].pid == prev[g].pid
                    &&& cur[g].pdev == prev[g].pdev
                    &&& prev[g].vram_bytes <= cur[g].vram_bytes
                } by {
                    if g == h {
                    }
                }
            }
        }
    }
}


fn drm_totals_checked(found: &Vec<(u32, DrmClient)>) -> (r: Option<Vec<DrmTotal>>)
    ensures
        r is Some <==> totals_fit(found@),
        r matches Some(v) ==> totals_view(v@) == drm_totals_of(found@),
{
    let ghost s = found@;
    let mut out: Vec<DrmTotal> = Vec::new();
    let mut i: usize = 0;
    while i < found.len()
        invariant
            s == found@,
            i <= s.len(),
            totals_view(out@) == totals_upto(s, i as nat),
        decreases s.len() - i,
    {
        let pid = found[i].0;
        // Several fds share one client: count it at its first fd only.
        let mut repeat = false;
        let mut j: usize = 0;
        while j < i
            invariant
                s == found@,
                i < s.len(),
                j <= i,
                pid == s[i as int].0,
                repeat <==> exists|x: int| 0 <= x < j && #[trigger] same_client(s, x, i as int),
            decreases i - j,
        {
            if found[j].0 == pid && str_eq(
                found[j].1.client_id.as_str(),
                found[i].1.client_id.as_str(),
            ) {
                repeat = true;
                assert(same_client(s, j as int, i as int));
            }
            j += 1;
        }
        let ghost prev = totals_upto(s, i as nat);
        proof {
            lemma_totals_unique(s, i as nat);
        }
        if !repeat {
            assert(first_of_client(s, i as int));
            let c = &found[i].1;
            let mut at: Option<usize> = None;
            let mut g: usize = 0;
            while g < out.len()
                invariant
                    s == found@,
                    i < s.len(),
                    *c == s[i as int].1,
                    pid == s[i as int].0,
                    totals_view(out@) == prev,
                    g <= out.len(),
                    at matches Some(x) ==> x < g && has_key(prev[x as int], pid, c.pdev@),
                    at is None ==> forall|x: int| 0 <= x < g ==> !has_key(#[trigger] prev[x], pid, c.pdev@),
                decreases out.len() - g,
            {
                if at.is_none() && out[g].pid == pid && str_eq(out[g].pdev.as_str(), c.pdev.as_str()) {
                    at = Some(g);
                }
                g += 1;
            }
            match at {
                Some(x) => {
                    proof {
                        lemma_count_client_found(prev, i as int, pid, c@, x as int);
                    }
                    match out[x].vram_bytes.checked_add(c.vram_bytes) {
                        None => {
                            proof {
                                let n = s.len();
                                lemma_totals_grow(s, (i + 1) as nat, n);
                                assert(totals_upto(s, (i + 1) as nat)[x as int].vram_bytes > u64::MAX);
                                assert(drm_totals_of(s)[x as int].vram_bytes > u64::MAX);
                            }
                            return None;
                        },
                        Some(v) => {
                            let ghost old_out = out@;
                            out[x].vram_bytes = v;
                            out[x].members.push(i);
                            proof {
                                assert(totals_view(out@) =~= count_client(prev, i as int, pid, c@));
                            }
                        },
                    }
                },
                None => {
                    let mut members: Vec<usize> = Vec::new();
                    members.push(i);
                    out.push(DrmTotal { pid, pdev: c.pdev.clone(), vram_bytes: c.vram_bytes, members });
                    proof {
                        assert(totals_view(out@) =~= count_client(prev, i as int, pid, c@));
                    }
                },
            }
        } else {
            let ghost x = choose|x: int| 0 <= x < i && #[trigger] same_client(s, x, i as int);
            assert(!first_of_client(s, i as int));
        }
        i += 1;
    }
    proof {
        assert forall|g: int| 0 <= g < drm_totals_of(s).len() implies #[trigger] drm_totals_of(
            s,
        )[g].vram_bytes <= u64::MAX by {
            assert(totals_view(out@)[g].vram_bytes == out@[g].vram_bytes);
        }
    }
    Some(out)
}

/// The walk's clients totalled per process and device: each client counted
/// once (at its first fd), its VRAM added to the total of its process and
/// device, the totals in the order their first client was found.
pub fn drm_totals(found: &Vec<(u32, DrmClient)>) -> (v: Vec<DrmTotal>)
    requires
        totals_fit(found@),
    ensures
        totals_view(v@) == drm_totals_of(found@),
{
    match drm_totals_checked(found) {
        Some(v) => v,
        None => Vec::new(),
    }
}

/// Whether every total of `drm_totals` fits in 64 bits.
pub fn drm_totals_in_range(found: &Vec<(u32, DrmClient)>) -> (b: bool)
    ensures
        b == totals_fit(found@),
{
    drm_totals_checked(found).is_some()
}


/// What each total holds: clients that were counted, of its process and
/// device, in the order found, with their VRAM; and every counted client
/// is in some total.
pub open spec fn totals_account(s: Seq<(u32, DrmClient)>, k: nat, ts: Seq<DrmTotalView>) -> bool {
    &&& forall|g: int, p: int|
        #![trigger ts[g].members[p]]
        0 <= g < ts.len() && 0 <= p < ts[g].members.len() ==> {
            let m = ts[g].members[p] as int;
            &&& m < k
            &&& first_of_client(s, m)
            &&& has_key(ts[g], s[m].0, s[m].1.pdev@)
        }
    &&& forall|g: int, p: int, q: int|
        #![trigger ts[g].members[p], ts[g].members[q]]
        0 <= g < ts.len() && 0 <= p < q < ts[g].members.len() ==> ts[g].members[p]
            < ts[g].members[q]
    &&& forall|g: int|
        0 <= g < ts.len() ==> (#[trigger] ts[g]).vram_bytes == member_vram(s, ts[g].members)
    &&& forall|m: int|
        0 <= m < k && #[trigger] first_of_client(s, m) ==> exists|g: int, p: int|
            0 <= g < ts.len() && 0 <= p < ts[g].members.len() && #[trigger] ts[g].members[p]
                == m
}

pub proof fn lemma_totals_account(s: Seq<(u32, DrmClient)>, k: nat)
    requires
        k <= s.len(),
        s.len() <= usize::MAX,
    ensures
        totals_account(s, k, totals_upto(s, k)),
    decreases k,
{
    if k > 0 {
        let i = k - 1;
        lemma_totals_account(s, (k - 1) as nat);
        lemma_totals_unique(s, (k - 1) as nat);
        let prev = totals_upto(s, (k - 1) as nat);
        let cur = totals_upto(s, k);
        if first_of_client(s, i) {
            let pid = s[i].0;
            let c = s[i].1@;
            if exists|g: int| 0 <= g < prev.len() && #[trigger] has_key(prev[g], pid, c.pdev) {
                let g0 = choose|g: int| 0 <= g < prev.len() && #[trigger] has_key(prev[g], pid, c.pdev);
                let old_ms = prev[g0].members;
                assert(cur[g0].members == old_ms.push(i as usize));
                assert(cur[g0].members.drop_last() =~= old_ms);
                assert forall|g: int, p: int|
                    #![trigger cur[g].members[p]]
                    0 <= g < cur.len() && 0 <= p < cur[g].members.len() implies {
                        let m = cur[g].members[p] as int;
                        &&& m < k
                        &&& first_of_client(s, m)
                        &&& has_key(cur[g], s[m].0, s[m].1.pdev@)
                    } by {
                    if g != g0 || p < old_ms.len() {
                        assert(cur[g].members[p] == prev[g].members[p]);
                    }
                }
                assert forall|g: int, p: int, q: int|
                    #![trigger cur[g].members[p], cur[g].members[q]]
                    0 <= g < cur.len() && 0 <= p < q < cur[g].members.len() implies cur[g].members[p]
                        < cur[g].members[q] by {
                    if g != g0 || q < old_ms.len() {
                        assert(cur[g].members[p] == prev[g].members[p]);
                        assert(cur[g].members[q] == prev[g].members[q]);
                    } else {
                        assert(cur[g].members[p] == prev[g].members[p]);
                        assert(prev[g].members[p] < k - 1);
                    }
                }
                assert forall|g: int| 0 <= g < cur.len() implies (#[trigger] cur[g]).vram_bytes
                    == member_vram(s, cur[g].members) by {
                    if g == g0 {
                        assert(member_vram(s, cur[g].members) == member_vram(s, old_ms)
                            + s[i].1.vram_bytes as nat);
                    }
                }
                assert forall|m: int| 0 <= m < k && #[trigger] first_of_client(s, m) implies exists|
                    g: int,
                    p: int,
                |
                    0 <= g < cur.len() && 0 <= p < cur[g].members.len() && #[trigger] cur[g].members[p]
                        == m by {
                    if m == i {
                        assert(cur[g0].members[old_ms.len() as int] == m);
                    } else {
                        let (g, p) = choose|g: int, p: int|
                            0 <= g < prev.len() && 0 <= p < prev[g].members.len()
                                && #[trigger] prev[g].members[p] == m;
                        assert(cur[g].members[p] == prev[g].members[p]);
                    }
                }
            } else {
                let n0 = prev.len() as int;
                assert(cur[n0].members == seq![i as usize]);
                assert(cur[n0].members.drop_last() =~= Seq::<usize>::empty());
                assert forall|g: int, p: int|
                    #![trigger cur[g].members[p]]
                    0 <= g < cur.len() && 0 <= p < cur[g].members.len() implies {
                        let m = cur[g].members[p] as int;
                        &&& m < k
                        &&& first_of_client(s, m)
                        &&& has_key(cur[g], s[m].0, s[m].1.pdev@)
                    } by {
                    if g < n0 {
                        assert(cur[g].members[p] == prev[g].members[p]);
                    }
                }
                assert forall|g: int, p: int, q: int|
                    #![trigger cur[g].members[p], cur[g].members[q]]
                    0 <= g < cur.len() && 0 <= p < q < cur[g].members.len() implies cur[g].members[p]
                        < cur[g].members[q] by {
                    assert(g < n0);
                    assert(cur[g].members[p] == prev[g].members[p]);
                    assert(cur[g].members[q] == prev[g].members[q]);
                }
                assert forall|g: int| 0 <= g < cur.len() implies (#[trigger] cur[g]).vram_bytes
                    == member_vram(s, cur[g].members) by {
                    if g == n0 {
                        assert(member_vram(s, cur[g].members) == member_vram(
                            s,
                            Seq::<usize>::empty(),
                        ) + s[i].1.vram_bytes as nat);
                    } else {
                        assert(cur[g] == prev[g]);
                    }
                }
                assert forall|m: int| 0 <= m < k && #[trigger] first_of_client(s, m) implies exists|
                    g: int,
                    p: int,
                |
                    0 <= g < cur.len() && 0 <= p < cur[g].members.len() && #[trigger] cur[g].members[p]
                        == m by {
                    if m == i {
                        assert(cur[n0].members[0] == m);
                    } else {
                        let (g, p) = choose|g: int, p: int|
                            0 <= g < prev.len() && 0 <= p < prev[g].members.len()
                                && #[trigger] prev[g].members[p] == m;
                        assert(cur[g] == prev[g]);
                    }
                }
            }
        } else {
            assert forall|m: int| 0 <= m < k && #[trigger] first_of_client(s, m) implies exists|
                g: int,
                p: int,
            |
                0 <= g < cur.len() && 0 <= p < cur[g].members.len() && #[trigger] cur[g].members[p]
                    == m by {
                assert(m != i);
            }
        }
    }
}

/// Several fds share one DRM client, and the process list counts each
/// client once: the clients in the totals are exactly those found at their
/// first fd, each in one total only (the one for its process and device),
/// and a total's VRAM is the sum of its clients' VRAM.
pub proof fn law_each_client_counted_once(s: Seq<(u32, DrmClient)>)
    requires
        s.len() <= usize::MAX,
    ensures
        forall|m: int|
            0 <= m < s.len() ==> (#[trigger] first_of_client(s, m) <==> exists|g: int, p: int|
                0 <= g < drm_totals_of(s).len() && 0 <= p < drm_totals_of(s)[g].members.len()
                    && #[trigger] drm_totals_of(s)[g].members[p] == m),
        forall|g: int, h: int, p: int, q: int|
            0 <= g < drm_totals_of(s).len() && 0 <= h < drm_totals_of(s).len() && 0 <= p
                < drm_totals_of(s)[g].members.len() && 0 <= q < drm_totals_of(s)[h].members.len()
                && #[trigger] drm_totals_of(s)[g].members[p] == #[trigger] drm_totals_of(
                s,
            )[h].members[q] ==> g == h && p == q,
        forall|g: int, p: int|
            #![trigger drm_totals_of(s)[g].members[p]]
            0 <= g < drm_totals_of(s).len() && 0 <= p < drm_totals_of(s)[g].members.len() ==> {
                let m = drm_totals_of(s)[g].members[p] as int;
                has_key(drm_totals_of(s)[g], s[m].0, s[m].1.pdev@)
            },
        forall|g: int|
            0 <= g < drm_totals_of(s).len() ==> (#[trigger] drm_totals_of(s)[g]).vram_bytes
                == member_vram(s, drm_totals_of(s)[g].members),
{
    let ts = drm_totals_of(s);
    lemma_totals_account(s, s.len());
    lemma_totals_unique(s, s.len());
    assert forall|g: int, h: int, p: int, q: int|
        0 <= g < ts.len() && 0 <= h < ts.len() && 0 <= p < ts[g].members.len() && 0 <= q
            < ts[h].members.len() && #[trigger] ts[g].members[p] == #[trigger] ts[h].members[q] implies g
        == h && p == q by {
        let m = ts[g].members[p] as int;
        assert(has_key(ts[g], s[m].0, s[m].1.pdev@));
        assert(has_key(ts[h], s[m].0, s[m].1.pdev@));
        if g < h {
            assert(has_key(ts[g], ts[h].pid, ts[h].pdev));
        } else if h < g {
            assert(has_key(ts[h], ts[g].pid, ts[g].pdev));
        }
        if p < q {
            assert(ts[g].members[p] < ts[g].members[q]);
        } else if q < p {
            assert(ts[g].members[q] < ts[g].members[p]);
        }
    }
    assert forall|m: int| 0 <= m < s.len() implies (#[trigger] first_of_client(s, m) <==> exists|
        g: int,
        p: int,
    |
        0 <= g < ts.len() && 0 <= p < ts[g].members.len() && #[trigger] ts[g].members[p] == m) by {
        if exists|g: int, p: int|
            0 <= g < ts.len() && 0 <= p < ts[g].members.len() && #[trigger] ts[g].members[p] == m {
            let (g, p) = choose|g: int, p: int|
                0 <= g < ts.len() && 0 <= p < ts[g].members.len() && #[trigger] ts[g].members[p] == m;
            assert(first_of_client(s, ts[g].members[p] as int));
        }
    }
}


/// Every character of `s` is ASCII and none is whitespace.
pub open spec fn plain_ascii(s: Seq<char>) -> bool {
    forall|i: int| 0 <= i < s.len() ==> (#[trigger] s[i]) as u32 <= 0x7f && !crate::text::is_ws(s[i])
}

proof fn lemma_ascii_utf8_len(s: Seq<char>)
    requires
        plain_ascii(s),
    ensures
        utf8_len(s) == s.len(),
    decreases s.len(),
{
    if s.len() > 0 {
        assert(s.last() == s[s.len() - 1]);
        assert(plain_ascii(s.drop_last())) by {
            assert forall|i: int| 0 <= i < s.drop_last().len() implies (#[trigger] s.drop_last()[i]) as u32
                <= 0x7f && !crate::text::is_ws(s.drop_last()[i]) by {
                assert(s.drop_last()[i] == s[i]);
            }
        }
        lemma_ascii_utf8_len(s.drop_last());
    }
}

proof fn lemma_ascii_byte_suffix(s: Seq<char>, n: nat)
    requires
        plain_ascii(s),
        n <= s.len(),
    ensures
        byte_suffix(s, n) == Some(s.skip(s.len() - n)),
    decreases n,
{
    if n > 0 {
        assert(s.last() == s[s.len() - 1]);
        let t = s.drop_last();
        assert(plain_ascii(t)) by {
            assert forall|i: int| 0 <= i < t.len() implies (#[trigger] t[i]) as u32 <= 0x7f
                && !crate::text::is_ws(t[i]) by {
                assert(t[i] == s[i]);
            }
        }
        lemma_ascii_byte_suffix(t, (n - 1) as nat);
        assert(t.skip(t.len() - (n - 1)).push(s.last()) =~= s.skip(s.len() - n));
    } else {
        assert(s.skip(s.len() as int) =~= Seq::<char>::empty());
    }
}

proof fn lemma_trim_plain(s: Seq<char>)
    requires
        plain_ascii(s),
    ensures
        trim(s) == s,
{
    if s.len() > 0 {
        assert(s[0] as u32 <= 0x7f);
        assert(crate::text::lead_ws(s) == 0);
        assert(s.skip(0) =~= s);
        assert(s.last() == s[s.len() - 1]);
        assert(crate::text::trail_ws(s) == 0);
        assert(s.take(s.len() as int) =~= s);
    } else {
        assert(trim(s) =~= s);
    }
}

proof fn lemma_find_char(s: Seq<char>, c: char, i: nat)
    ensures
        match crate::text::find_from(s, seq![c], i) {
            Some(k) => i <= k < s.len() && s[k] == c && forall|j: int| i <= j < k ==> s[j] != c,
            None => forall|j: int| i <= j < s.len() ==> s[j] != c,
        },
    decreases s.len() - i,
{
    if i + 1 <= s.len() {
        if s[i as int] == c {
            assert(s.subrange(i as int, i + 1int) =~= seq![c]);
        } else {
            assert(s.subrange(i as int, i + 1int)[0] == s[i as int]);
            lemma_find_char(s, c, i + 1);
        }
    }
}

/// `lower_seq(trim(s))` of a plain ASCII `s` is plain ASCII and fixed by
/// lower-casing.
proof fn lemma_lower_plain(s: Seq<char>)
    requires
        plain_ascii(s),
    ensures
        plain_ascii(lower_seq(s)),
        lower_seq(lower_seq(s)) == lower_seq(s),
{
    crate::text::lemma_lower_seq_idempotent(s);
    let l = lower_seq(s);
    assert forall|i: int| 0 <= i < l.len() implies (#[trigger] l[i]) as u32 <= 0x7f
        && !crate::text::is_ws(l[i]) by {
        let c = s[i];
        if crate::text::is_ascii_upper(c) {
            assert(((c as u32) + 32) as char as u32 == (c as u32) + 32);
        }
    }
}

/// Normalising a bus id twice gives what normalising once gives, for ids
/// of ASCII characters without whitespace (as PCI bus ids are).
pub proof fn law_normalized_bus_idempotent(bus: Seq<char>)
    requires
        plain_ascii(bus),
    ensures
        normalized_bus(normalized_bus(bus)) == normalized_bus(bus),
{
    reveal_strlit(":");
    let colon = ":"@;
    assert(colon == seq![':']);
    lemma_trim_plain(bus);
    lemma_lower_plain(bus);
    let b = lower_seq(trim(bus));
    assert(b == lower_seq(bus));
    lemma_trim_plain(b);
    lemma_find_char(b, ':', 0);
    let n1 = normalized_bus(bus);
    // Where the result is `b` itself, normalising again reads the same `b`.
    match split_once(b, colon) {
        None => {
            assert(n1 == b);
        },
        Some(dr) => {
            let i = crate::text::find_from(b, seq![':'], 0)->0;
            let d = dr.0;
            assert(d == b.take(i));
            assert(plain_ascii(d)) by {
                assert forall|j: int| 0 <= j < d.len() implies (#[trigger] d[j]) as u32 <= 0x7f
                    && !crate::text::is_ws(d[j]) by {
                    assert(d[j] == b[j]);
                }
            }
            lemma_ascii_utf8_len(d);
            if d.len() > 4 {
                lemma_ascii_byte_suffix(d, 4);
                let t = d.skip(d.len() - 4);
                let r = dr.1;
                assert(n1 == t + colon + r);
                assert(r == b.skip(i + 1));
                assert(n1 =~= b.subrange(i - 4, i) + seq![':'] + b.skip(i + 1));
                assert forall|j: int| 0 <= j < n1.len() implies (#[trigger] n1[j]) as u32 <= 0x7f
                    && !crate::text::is_ws(n1[j]) && crate::text::lower(n1[j]) == n1[j] by {
                    if j < 4 {
                        assert(n1[j] == b[i - 4 + j]);
                    } else if j > 4 {
                        assert(n1[j] == b[i + 1 + (j - 5)]);
                    }
                    if j != 4 {
                        assert(lower_seq(b)[(if j < 4 { i - 4 + j } else { i + 1 + (j - 5) })] == b[(if j < 4 { i - 4 + j } else { i + 1 + (j - 5) })]);
                    }
                }
                assert(plain_ascii(n1));
                lemma_trim_plain(n1);
                assert(lower_seq(n1) =~= n1);
                lemma_find_char(n1, ':', 0);
                assert(n1[4] == ':');
                assert forall|j: int| 0 <= j < 4 implies n1[j] != ':' by {
                    assert(n1[j] == b[i - 4 + j]);
                }
                let d2 = n1.take(4);
                assert(plain_ascii(d2)) by {
                    assert forall|j: int| 0 <= j < d2.len() implies (#[trigger] d2[j]) as u32 <= 0x7f
                        && !crate::text::is_ws(d2[j]) by {
                        assert(d2[j] == n1[j]);
                    }
                }
                lemma_ascii_utf8_len(d2);
            } else {
                assert(n1 == b);
            }
        },
    }
}

} // verus!
