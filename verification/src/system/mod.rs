//! Host telemetry for the Monitor page: CPU, memory and disk, parsed from
//! the text of `/proc` files and of `df` and `dmidecode` output.
pub mod disk;

use vstd::prelude::*;
use crate::text::{
    all_digits, chars_of, copy_vec, contains, contains_exec, ends_with, is_digit, join, join_exec, lines,
    lines_of, lit, parse_uint, parse_uint_exec, slice_of, split_once, split_once_exec, starts_with,
    starts_with_exec, string_of, trim, trim_vec, vec_eq, views, words, words_exec, words_of,
};

verus! {

/// The words that parse as `u64`, as numbers, in order.
pub open spec fn parsed_u64s(ws: Seq<Seq<char>>) -> Seq<nat>
    decreases ws.len(),
{
    if ws.len() == 0 {
        seq![]
    } else {
        let before = parsed_u64s(ws.drop_last());
        match parse_uint(ws.last(), u64::MAX as nat) {
            Some(n) => before.push(n),
            None => before,
        }
    }
}

pub open spec fn sum(ns: Seq<nat>) -> nat
    decreases ns.len(),
{
    if ns.len() == 0 {
        0
    } else {
        sum(ns.drop_last()) + ns.last()
    }
}

/// The numbers after the first word of a `/proc/stat` line.
pub open spec fn cpu_nums(line: Seq<char>) -> Seq<nat> {
    let ws = words(line);
    if ws.len() > 0 {
        parsed_u64s(ws.drop_first())
    } else {
        seq![]
    }
}

/// (idle, total) jiffies: idle + iowait, and the sum of the first eight
/// columns (user nice system idle iowait irq softirq steal).
pub open spec fn idle_total(ns: Seq<nat>) -> (nat, nat) {
    (
        ns[3] + if ns.len() > 4 {
            ns[4]
        } else {
            0
        },
        sum(ns.take(if ns.len() < 8 { ns.len() as int } else { 8 })),
    )
}

pub open spec fn cpu_reading(line: Seq<char>) -> Option<(nat, nat)> {
    let ns = cpu_nums(line);
    if ns.len() < 4 {
        None
    } else {
        Some(idle_total(ns))
    }
}

/// The sums of a `/proc/stat` line fit in `u64`.
pub open spec fn reading_fits(line: Seq<char>) -> bool {
    let ns = cpu_nums(line);
    ns.len() < 4 || sum(ns.take(if ns.len() < 8 { ns.len() as int } else { 8 })) <= u64::MAX
}

/// The first line that starts with `p`.
pub open spec fn first_with_prefix(ls: Seq<Seq<char>>, p: Seq<char>) -> Option<Seq<char>>
    decreases ls.len(),
{
    if ls.len() == 0 {
        None
    } else if starts_with(ls[0], p) {
        Some(ls[0])
    } else {
        first_with_prefix(ls.drop_first(), p)
    }
}

/// (idle, total) jiffies from the aggregate `cpu` line.
pub open spec fn proc_stat(text: Seq<char>) -> Option<(nat, nat)> {
    match first_with_prefix(lines(text), "cpu "@) {
        Some(l) => cpu_reading(l),
        None => None,
    }
}

pub open spec fn proc_stat_fits(text: Seq<char>) -> bool {
    match first_with_prefix(lines(text), "cpu "@) {
        Some(l) => reading_fits(l),
        None => true,
    }
}

pub open spec fn is_core_line(l: Seq<char>) -> bool {
    starts_with(l, "cpu"@) && !starts_with(l, "cpu "@)
}

/// (idle, total) of each `cpuN` line, in file order.
pub open spec fn core_readings(ls: Seq<Seq<char>>) -> Seq<(nat, nat)>
    decreases ls.len(),
{
    if ls.len() == 0 {
        seq![]
    } else {
        let before = core_readings(ls.drop_last());
        let l = ls.last();
        if is_core_line(l) {
            match cpu_reading(l) {
                Some(r) => before.push(r),
                None => before,
            }
        } else {
            before
        }
    }
}

pub open spec fn cores_fit(ls: Seq<Seq<char>>) -> bool {
    forall|i: int| 0 <= i < ls.len() && is_core_line(#[trigger] ls[i]) ==> reading_fits(ls[i])
}

pub open spec fn pair_view(p: (u64, u64)) -> (nat, nat) {
    (p.0 as nat, p.1 as nat)
}

pub open spec fn pairs_view(v: Seq<(u64, u64)>) -> Seq<(nat, nat)> {
    v.map_values(|p: (u64, u64)| pair_view(p))
}

pub proof fn lemma_sum_prefix_mono(s: Seq<nat>, i: int, j: int)
    requires
        0 <= i <= j <= s.len(),
    ensures
        sum(s.take(i)) <= sum(s.take(j)),
    decreases j - i,
{
    if i < j {
        lemma_sum_prefix_mono(s, i, j - 1);
        assert(s.take(j).drop_last() =~= s.take(j - 1));
    }
}

/// Parses every word of `ws[from..]` as `u64`, keeping those that parse.
fn parse_u64_words(ws: &Vec<Vec<char>>, from: usize) -> (out: Vec<u64>)
    requires
        from <= ws.len(),
    ensures
        out@.map_values(|x: u64| x as nat) == parsed_u64s(views(ws@).skip(from as int)),
{
    let mut out: Vec<u64> = Vec::new();
    let mut i = from;
    assert(views(ws@).skip(from as int).take(0) =~= seq![]);
    while i < ws.len()
        invariant
            from <= i <= ws.len(),
            out@.map_values(|x: u64| x as nat) == parsed_u64s(
                views(ws@).skip(from as int).take(i - from),
            ),
        decreases ws.len() - i,
    {
        let ghost t = views(ws@).skip(from as int).take(i + 1 - from);
        assert(t.drop_last() =~= views(ws@).skip(from as int).take(i - from));
        assert(t.last() == ws@[i as int]@);
        let ghost before = out@;
        match parse_uint_exec(&ws[i], u64::MAX) {
            Some(n) => {
                out.push(n);
                assert(out@.map_values(|x: u64| x as nat) =~= before.map_values(
                    |x: u64| x as nat,
                ).push(n as nat));
            },
            None => {},
        }
        i += 1;
    }
    assert(views(ws@).skip(from as int).take(ws.len() - from) =~= views(ws@).skip(from as int));
    out
}

/// (idle, total) from one `cpu` line.
fn cpu_reading_exec(line: &Vec<char>) -> (r: Option<(u64, u64)>)
    requires
        reading_fits(line@),
    ensures
        r matches Some(p) ==> cpu_reading(line@) == Some(pair_view(p)),
        r is None ==> cpu_reading(line@) is None,
{
    let ws = words_exec(line);
    let nums: Vec<u64> = if ws.len() > 0 {
        let n = parse_u64_words(&ws, 1);
        assert(views(ws@).skip(1) =~= views(ws@).drop_first());
        n
    } else {
        Vec::new()
    };
    let ghost ns = cpu_nums(line@);
    assert(nums@.map_values(|x: u64| x as nat) =~= ns);
    assert(nums.len() == ns.len());
    if nums.len() < 4 {
        return None;
    }
    let m: usize = if nums.len() < 8 {
        nums.len()
    } else {
        8
    };
    let mut total: u64 = 0;
    let mut j: usize = 0;
    while j < m
        invariant
            j <= m <= nums.len(),
            m == (if ns.len() < 8 { ns.len() as int } else { 8 }),
            ns == nums@.map_values(|x: u64| x as nat),
            total == sum(ns.take(j as int)),
            sum(ns.take(m as int)) <= u64::MAX,
        decreases m - j,
    {
        proof {
            lemma_sum_prefix_mono(ns, j + 1, m as int);
            assert(ns.take(j + 1).drop_last() =~= ns.take(j as int));
            assert(ns[j as int] == nums@[j as int]);
        }
        total = total + nums[j];
        j += 1;
    }
    proof {
        assert(ns.take(4).drop_last() =~= ns.take(3));
        assert(ns[3] == nums@[3]);
        assert(sum(ns.take(4)) == sum(ns.take(3)) + ns[3]);
        if ns.len() > 4 {
            lemma_sum_prefix_mono(ns, 5, m as int);
            assert(ns.take(5).drop_last() =~= ns.take(4));
            assert(sum(ns.take(5)) == sum(ns.take(4)) + ns[4]);
            assert(ns[4] == nums@[4]);
            assert(ns[3] + ns[4] <= u64::MAX);
        }
    }
    let idle: u64 = if nums.len() > 4 {
        nums[3] + nums[4]
    } else {
        nums[3]
    };
    Some((idle, total))
}

/// Returns (idle, total) jiffies from the aggregate `cpu` line of
/// `/proc/stat`.
pub fn parse_proc_stat(text: &str) -> (r: Option<(u64, u64)>)
    requires
        proc_stat_fits(text@),
    ensures
        r matches Some(p) ==> proc_stat(text@) == Some(pair_view(p)),
        r is None ==> proc_stat(text@) is None,
{
    let ls = lines_of(text);
    let p = lit("cpu ");
    let mut i: usize = 0;
    assert(views(ls@).skip(0) =~= views(ls@));
    while i < ls.len()
        invariant
            i <= ls.len(),
            p@ == "cpu "@,
            views(ls@) == lines(text@),
            proc_stat_fits(text@),
            first_with_prefix(views(ls@), p@) == first_with_prefix(views(ls@).skip(i as int), p@),
        decreases ls.len() - i,
    {
        assert(views(ls@).skip(i as int)[0] == ls@[i as int]@);
        if starts_with_exec(&ls[i], &p) {
            return cpu_reading_exec(&ls[i]);
        }
        assert(views(ls@).skip(i as int).drop_first() =~= views(ls@).skip(i + 1));
        i += 1;
    }
    None
}

/// (idle, total) per `cpuN` line of `/proc/stat`, in file order.
pub fn parse_proc_stat_cores(text: &str) -> (out: Vec<(u64, u64)>)
    requires
        cores_fit(lines(text@)),
    ensures
        pairs_view(out@) == core_readings(lines(text@)),
{
    let ls = lines_of(text);
    let ghost lv = views(ls@);
    let mut out: Vec<(u64, u64)> = Vec::new();
    let mut i: usize = 0;
    while i < ls.len()
        invariant
            i <= ls.len(),
            lv == views(ls@),
            lv == lines(text@),
            cores_fit(lv),
            pairs_view(out@) == core_readings(lv.take(i as int)),
        decreases ls.len() - i,
    {
        let ghost t = lv.take(i + 1);
        assert(t.drop_last() =~= lv.take(i as int));
        assert(t.last() == ls@[i as int]@);
        let l = &ls[i];
        if starts_with_exec(l, &lit("cpu")) && !starts_with_exec(l, &lit("cpu ")) {
            assert(is_core_line(lv[i as int]));
            let ghost before = out@;
            match cpu_reading_exec(l) {
                Some(r) => {
                    out.push(r);
                    assert(pairs_view(out@) =~= pairs_view(before).push(pair_view(r)));
                },
                None => {},
            }
        }
        i += 1;
    }
    assert(lv.take(ls.len() as int) =~= lv);
    out
}


/// The `model name` of `/proc/cpuinfo`, with its whitespace runs collapsed.
pub open spec fn cpu_model(text: Seq<char>) -> Option<Seq<char>> {
    match first_with_prefix(lines(text), "model name"@) {
        None => None,
        Some(l) => match split_once(l, ":"@) {
            None => None,
            Some(kv) => {
                let v = join(words(kv.1), " "@);
                if v.len() == 0 {
                    None
                } else {
                    Some(v)
                }
            },
        },
    }
}

pub fn parse_cpu_model(text: &str) -> (r: Option<String>)
    ensures
        r matches Some(m) ==> cpu_model(text@) == Some(m@),
        r is None ==> cpu_model(text@) is None,
{
    let ls = lines_of(text);
    let p = lit("model name");
    let mut i: usize = 0;
    assert(views(ls@).skip(0) =~= views(ls@));
    while i < ls.len()
        invariant
            i <= ls.len(),
            p@ == "model name"@,
            views(ls@) == lines(text@),
            first_with_prefix(views(ls@), p@) == first_with_prefix(views(ls@).skip(i as int), p@),
        decreases ls.len() - i,
    {
        assert(views(ls@).skip(i as int)[0] == ls@[i as int]@);
        if starts_with_exec(&ls[i], &p) {
            match split_once_exec(&ls[i], &lit(":")) {
                None => {
                    return None;
                },
                Some(kv) => {
                    let v = join_exec(&words_exec(&kv.1), &lit(" "));
                    if v.len() == 0 {
                        return None;
                    }
                    return Some(string_of(&v));
                },
            }
        }
        assert(views(ls@).skip(i as int).drop_first() =~= views(ls@).skip(i + 1));
        i += 1;
    }
    None
}

/// Memory totals, in bytes.
#[derive(Debug, Default, PartialEq, Eq, Structural)]
pub struct MemInfo {
    pub total: u64,
    pub available: u64,
    pub swap_total: u64,
    pub swap_free: u64,
}

/// `(total, available, swap_total, swap_free)` in bytes.
pub type MemView = (nat, nat, nat, nat);

/// The kB value of a `/proc/meminfo` line: its second word, or 0.
pub open spec fn meminfo_kb(line: Seq<char>) -> nat {
    let ws = words(line);
    if ws.len() > 1 {
        match parse_uint(ws[1], u64::MAX as nat) {
            Some(n) => n,
            None => 0,
        }
    } else {
        0
    }
}

pub open spec fn meminfo_key(line: Seq<char>) -> Seq<char> {
    let ws = words(line);
    if ws.len() > 0 {
        ws[0]
    } else {
        seq![]
    }
}

pub open spec fn meminfo_step(m: MemView, line: Seq<char>) -> MemView {
    let key = meminfo_key(line);
    let bytes = meminfo_kb(line) * 1024;
    if key == "MemTotal:"@ {
        (bytes, m.1, m.2, m.3)
    } else if key == "MemAvailable:"@ {
        (m.0, bytes, m.2, m.3)
    } else if key == "SwapTotal:"@ {
        (m.0, m.1, bytes, m.3)
    } else if key == "SwapFree:"@ {
        (m.0, m.1, m.2, bytes)
    } else {
        m
    }
}

pub open spec fn meminfo(ls: Seq<Seq<char>>) -> MemView
    decreases ls.len(),
{
    if ls.len() == 0 {
        (0, 0, 0, 0)
    } else {
        meminfo_step(meminfo(ls.drop_last()), ls.last())
    }
}

/// Every line's kB value converts to bytes within `u64`.
pub open spec fn meminfo_fits(ls: Seq<Seq<char>>) -> bool {
    forall|i: int| 0 <= i < ls.len() ==> meminfo_kb(#[trigger] ls[i]) * 1024 <= u64::MAX
}

impl MemInfo {
    pub open spec fn view(&self) -> MemView {
        (self.total as nat, self.available as nat, self.swap_total as nat, self.swap_free as nat)
    }
}

impl MemInfo {
    /// Memory in use: total less available (0 if available exceeds it).
    pub fn used(&self) -> (n: u64)
        ensures
            n == (if self.total >= self.available { self.total - self.available } else { 0 }),
    {
        self.total.saturating_sub(self.available)
    }

    /// Swap in use: total less free (0 if free exceeds it).
    pub fn swap_used(&self) -> (n: u64)
        ensures
            n == (if self.swap_total >= self.swap_free { self.swap_total - self.swap_free } else { 0 }),
    {
        self.swap_total.saturating_sub(self.swap_free)
    }
}

/// Values in /proc/meminfo are kB; returned in bytes.
pub fn parse_meminfo(text: &str) -> (m: MemInfo)
    requires
        meminfo_fits(lines(text@)),
    ensures
        m.view() == meminfo(lines(text@)),
{
    let ls = lines_of(text);
    let ghost lv = views(ls@);
    let mut m = MemInfo { total: 0, available: 0, swap_total: 0, swap_free: 0 };
    let mut i: usize = 0;
    while i < ls.len()
        invariant
            i <= ls.len(),
            lv == views(ls@),
            meminfo_fits(lv),
            m.view() == meminfo(lv.take(i as int)),
        decreases ls.len() - i,
    {
        let ghost t = lv.take(i + 1);
        assert(t.drop_last() =~= lv.take(i as int));
        assert(t.last() == ls@[i as int]@);
        assert(meminfo_kb(lv[i as int]) * 1024 <= u64::MAX);
        let ws = words_exec(&ls[i]);
        let key: Vec<char> = if ws.len() > 0 {
            slice_of(&ws[0], 0, ws[0].len())
        } else {
            Vec::new()
        };
        assert(key@ =~= meminfo_key(lv[i as int]));
        let kb: u64 = if ws.len() > 1 {
            match parse_uint_exec(&ws[1], u64::MAX) {
                Some(n) => n,
                None => 0,
            }
        } else {
            0
        };
        let bytes = kb * 1024;
        if vec_eq(&key, &lit("MemTotal:")) {
            m.total = bytes;
        } else if vec_eq(&key, &lit("MemAvailable:")) {
            m.available = bytes;
        } else if vec_eq(&key, &lit("SwapTotal:")) {
            m.swap_total = bytes;
        } else if vec_eq(&key, &lit("SwapFree:")) {
            m.swap_free = bytes;
        }
        i += 1;
    }
    assert(lv.take(ls.len() as int) =~= lv);
    m
}

/// True for device names like `sda`, `nvme0n1`, `vda`, `mmcblk0`, `md0`;
/// false for partitions (`sda1`, `nvme0n1p2`) and virtual devices.
pub open spec fn whole_disk(name: Seq<char>) -> bool {
    let ends_with_digit = name.len() > 0 && is_digit(name.last());
    if starts_with(name, "nvme"@) {
        let rest = name.skip(4);
        !contains(rest, "p"@) && contains(rest, "n"@)
    } else if starts_with(name, "mmcblk"@) {
        !contains(name.skip(6), "p"@)
    } else if starts_with(name, "md"@) {
        !contains(name, "p"@)
    } else if starts_with(name, "sd"@) {
        lowercase_tail(name.skip(2)) && !ends_with_digit
    } else if starts_with(name, "vd"@) {
        lowercase_tail(name.skip(2)) && !ends_with_digit
    } else if starts_with(name, "xvd"@) {
        lowercase_tail(name.skip(3)) && !ends_with_digit
    } else if starts_with(name, "hd"@) {
        lowercase_tail(name.skip(2)) && !ends_with_digit
    } else {
        false
    }
}

/// Non-empty and all ASCII lower-case letters.
pub open spec fn lowercase_tail(rest: Seq<char>) -> bool {
    rest.len() > 0 && forall|i: int| 0 <= i < rest.len() ==> 'a' <= #[trigger] rest[i] <= 'z'
}

fn lowercase_tail_exec(v: &Vec<char>, from: usize) -> (b: bool)
    requires
        from <= v.len(),
    ensures
        b == lowercase_tail(v@.skip(from as int)),
{
    if from >= v.len() {
        return false;
    }
    let mut i = from;
    while i < v.len()
        invariant
            from <= i <= v.len(),
            forall|j: int| from <= j < i ==> 'a' <= #[trigger] v@[j] <= 'z',
        decreases v.len() - i,
    {
        if !('a' <= v[i] && v[i] <= 'z') {
            assert(v@.skip(from as int)[i - from] == v@[i as int]);
            return false;
        }
        i += 1;
    }
    assert forall|j: int| 0 <= j < v@.skip(from as int).len() implies 'a' <= #[trigger] v@.skip(
        from as int,
    )[j] <= 'z' by {
        assert(v@.skip(from as int)[j] == v@[from + j]);
    }
    true
}

pub fn is_whole_disk(name: &str) -> (b: bool)
    ensures
        b == whole_disk(name@),
{
    let v = chars_of(name);
    proof {
        reveal_strlit("sd");
        reveal_strlit("vd");
        reveal_strlit("xvd");
        reveal_strlit("hd");
    }
    let ends_with_digit = v.len() > 0 && '0' <= v[v.len() - 1] && v[v.len() - 1] <= '9';
    if starts_with_exec(&v, &lit("nvme")) {
        proof {
            reveal_strlit("nvme");
        }
        let rest = slice_of(&v, 4, v.len());
        assert(rest@ =~= v@.skip(4));
        return !contains_exec(&rest, &lit("p")) && contains_exec(&rest, &lit("n"));
    }
    if starts_with_exec(&v, &lit("mmcblk")) {
        proof {
            reveal_strlit("mmcblk");
        }
        let rest = slice_of(&v, 6, v.len());
        assert(rest@ =~= v@.skip(6));
        return !contains_exec(&rest, &lit("p"));
    }
    if starts_with_exec(&v, &lit("md")) {
        return !contains_exec(&v, &lit("p"));
    }
    if starts_with_exec(&v, &lit("sd")) {
        return lowercase_tail_exec(&v, 2) && !ends_with_digit;
    }
    if starts_with_exec(&v, &lit("vd")) {
        return lowercase_tail_exec(&v, 2) && !ends_with_digit;
    }
    if starts_with_exec(&v, &lit("xvd")) {
        return lowercase_tail_exec(&v, 3) && !ends_with_digit;
    }
    if starts_with_exec(&v, &lit("hd")) {
        return lowercase_tail_exec(&v, 2) && !ends_with_digit;
    }
    false
}

/// A field of `/proc/diskstats` as `u64`, 0 when it does not parse.
pub open spec fn field_or_zero(w: Seq<char>) -> nat {
    match parse_uint(w, u64::MAX as nat) {
        Some(n) => n,
        None => 0,
    }
}

/// Bytes read and written (sectors times 512) summed over whole disks.
pub open spec fn diskstats(ls: Seq<Seq<char>>) -> (nat, nat)
    decreases ls.len(),
{
    if ls.len() == 0 {
        (0, 0)
    } else {
        let before = diskstats(ls.drop_last());
        let f = words(ls.last());
        if f.len() < 10 || !whole_disk(f[2]) {
            before
        } else {
            (before.0 + field_or_zero(f[5]) * 512, before.1 + field_or_zero(f[9]) * 512)
        }
    }
}

pub proof fn lemma_diskstats_mono(ls: Seq<Seq<char>>, i: int)
    requires
        0 <= i <= ls.len(),
    ensures
        diskstats(ls.take(i)).0 <= diskstats(ls).0,
        diskstats(ls.take(i)).1 <= diskstats(ls).1,
    decreases ls.len() - i,
{
    if i < ls.len() {
        lemma_diskstats_mono(ls, i + 1);
        assert(ls.take(i + 1).drop_last() =~= ls.take(i));
    } else {
        assert(ls.take(i) =~= ls);
    }
}

/// Sums sectors read/written across whole disks (not partitions, not
/// loop/ram devices) and returns bytes, assuming 512-byte sectors as
/// /proc/diskstats does regardless of the device's real sector size.
pub fn parse_diskstats(text: &str) -> (r: (u64, u64))
    requires
        diskstats(lines(text@)).0 <= u64::MAX,
        diskstats(lines(text@)).1 <= u64::MAX,
    ensures
        pair_view(r) == diskstats(lines(text@)),
{
    let ls = lines_of(text);
    let ghost lv = views(ls@);
    let mut read: u64 = 0;
    let mut write: u64 = 0;
    let mut i: usize = 0;
    while i < ls.len()
        invariant
            i <= ls.len(),
            lv == views(ls@),
            diskstats(lv).0 <= u64::MAX,
            diskstats(lv).1 <= u64::MAX,
            (read as nat, write as nat) == diskstats(lv.take(i as int)),
        decreases ls.len() - i,
    {
        let ghost t = lv.take(i + 1);
        assert(t.drop_last() =~= lv.take(i as int));
        assert(t.last() == ls@[i as int]@);
        proof {
            lemma_diskstats_mono(lv, i + 1);
        }
        let f = words_exec(&ls[i]);
        if f.len() >= 10 && is_whole_disk(string_of(&f[2]).as_str()) {
            let r = match parse_uint_exec(&f[5], u64::MAX) {
                Some(n) => n,
                None => 0,
            };
            let w = match parse_uint_exec(&f[9], u64::MAX) {
                Some(n) => n,
                None => 0,
            };
            read = read + r * 512;
            write = write + w * 512;
        }
        i += 1;
    }
    assert(lv.take(ls.len() as int) =~= lv);
    (read, write)
}

/// Size and free space of a filesystem, from `df`.
pub struct DiskSpace {
    pub total: u64,
    pub free: u64,
    pub mount: String,
}

/// The second line of `df -B1 --output=size,avail,target`: size, free
/// space and the mount point (the rest of the line, single-spaced).
pub open spec fn df_output(text: Seq<char>) -> Option<(nat, nat, Seq<char>)> {
    let ls = lines(text);
    if ls.len() < 2 {
        None
    } else {
        let ws = words(ls[1]);
        if ws.len() < 1 {
            None
        } else {
            match parse_uint(ws[0], u64::MAX as nat) {
                None => None,
                Some(t) => if ws.len() < 2 {
                    None
                } else {
                    match parse_uint(ws[1], u64::MAX as nat) {
                        None => None,
                        Some(f) => Some((t, f, join(ws.skip(2), " "@))),
                    }
                },
            }
        }
    }
}

pub fn parse_df_output(text: &str) -> (r: Option<DiskSpace>)
    ensures
        r matches Some(d) ==> df_output(text@) == Some((d.total as nat, d.free as nat, d.mount@)),
        r is None ==> df_output(text@) is None,
{
    let ls = lines_of(text);
    if ls.len() < 2 {
        return None;
    }
    let ws = words_exec(&ls[1]);
    if ws.len() < 1 {
        return None;
    }
    let total = match parse_uint_exec(&ws[0], u64::MAX) {
        Some(n) => n,
        None => {
            return None;
        },
    };
    if ws.len() < 2 {
        return None;
    }
    let free = match parse_uint_exec(&ws[1], u64::MAX) {
        Some(n) => n,
        None => {
            return None;
        },
    };
    let mut rest: Vec<Vec<char>> = Vec::new();
    let mut k: usize = 2;
    assert(views(rest@) =~= views(ws@).subrange(2, 2));
    while k < ws.len()
        invariant
            2 <= k <= ws.len(),
            views(rest@) == views(ws@).subrange(2, k as int),
        decreases ws.len() - k,
    {
        let ghost before = rest@;
        let w = copy_vec(&ws[k]);
        rest.push(w);
        assert(views(rest@) =~= views(before).push(ws@[k as int]@));
        assert(views(rest@) =~= views(ws@).subrange(2, k + 1));
        k += 1;
    }
    assert(views(rest@) =~= views(ws@).skip(2));
    let mount = string_of(&join_exec(&rest, &lit(" ")));
    Some(DiskSpace { total, free, mount })
}


/// "16 GB" / "16384 MB" / "1 TB" as bytes; "No Module Installed" and
/// "Unknown" as 0; anything else as nothing.
pub open spec fn dmi_size(value: Seq<char>) -> Option<int> {
    if starts_with(value, "No Module"@) || value == "Unknown"@ {
        Some(0)
    } else {
        match split_once(value, " "@) {
            None => None,
            Some(nu) => match parse_uint(nu.0, u64::MAX as nat) {
                None => None,
                Some(n) => if nu.1 == "GB"@ {
                    Some(n * 0x4000_0000int)
                } else if nu.1 == "MB"@ {
                    Some(n * 0x10_0000int)
                } else if nu.1 == "TB"@ {
                    Some(n * 0x100_0000_0000int)
                } else {
                    None
                },
            },
        }
    }
}

/// "4800 MT/s" / "2133 MHz" as 4800 / 2133; "Unknown" as nothing.
pub open spec fn dmi_speed(value: Seq<char>) -> Option<u32> {
    let ws = words(value);
    if ws.len() == 0 {
        None
    } else {
        match parse_uint(ws[0], u32::MAX as nat) {
            Some(n) => Some(n as u32),
            None => None,
        }
    }
}

/// "16 GB" / "16384 MB" -> bytes; "No Module Installed" -> Some(0).
pub fn parse_dmi_size(value: &str) -> (r: Option<u64>)
    requires
        dmi_size(value@) matches Some(b) ==> b <= u64::MAX,
    ensures
        r matches Some(b) ==> dmi_size(value@) == Some(b as int),
        r is None ==> dmi_size(value@) is None,
{
    let v = chars_of(value);
    if starts_with_exec(&v, &lit("No Module")) || vec_eq(&v, &lit("Unknown")) {
        return Some(0);
    }
    let (num, unit) = match split_once_exec(&v, &lit(" ")) {
        Some(nu) => nu,
        None => {
            return None;
        },
    };
    let n = match parse_uint_exec(&num, u64::MAX) {
        Some(n) => n,
        None => {
            return None;
        },
    };
    if vec_eq(&unit, &lit("GB")) {
        Some(n * 0x4000_0000)
    } else if vec_eq(&unit, &lit("MB")) {
        Some(n * 0x10_0000)
    } else if vec_eq(&unit, &lit("TB")) {
        Some(n * 0x100_0000_0000)
    } else {
        None
    }
}

/// "4800 MT/s" / "2133 MHz" -> 4800 / 2133; "Unknown" -> None.
pub fn parse_dmi_speed(value: &str) -> (r: Option<u32>)
    ensures
        r == dmi_speed(value@),
{
    let ws = words_of(value);
    if ws.len() == 0 {
        return None;
    }
    assert(views(ws@)[0] == ws@[0]@);
    match parse_uint_exec(&ws[0], u32::MAX as u64) {
        Some(n) => Some(n as u32),
        None => None,
    }
}

/// One populated memory slot.
#[derive(Debug, Clone, PartialEq)]
pub struct DimmInfo {
    pub locator: String,
    pub size_bytes: u64,
    pub mem_type: String,
    /// Rated speed in MT/s (dmidecode reports MHz on older firmware).
    pub speed_mts: Option<u32>,
    /// Speed the slot actually runs at, when the firmware reports it.
    pub configured_speed_mts: Option<u32>,
    pub manufacturer: String,
    pub part_number: String,
}

pub struct DimmView {
    pub locator: Seq<char>,
    pub size_bytes: u64,
    pub mem_type: Seq<char>,
    pub speed_mts: Option<u32>,
    pub configured_speed_mts: Option<u32>,
    pub manufacturer: Seq<char>,
    pub part_number: Seq<char>,
}

impl DimmInfo {
    pub open spec fn view(&self) -> DimmView {
        DimmView {
            locator: self.locator@,
            size_bytes: self.size_bytes,
            mem_type: self.mem_type@,
            speed_mts: self.speed_mts,
            configured_speed_mts: self.configured_speed_mts,
            manufacturer: self.manufacturer@,
            part_number: self.part_number@,
        }
    }
}

pub open spec fn empty_dimm() -> DimmView {
    DimmView {
        locator: seq![],
        size_bytes: 0,
        mem_type: seq![],
        speed_mts: None,
        configured_speed_mts: None,
        manufacturer: seq![],
        part_number: seq![],
    }
}

pub open spec fn dimms_view(v: Seq<DimmInfo>) -> Seq<DimmView> {
    v.map_values(|d: DimmInfo| d.view())
}

/// Where a `dmidecode -t 17` reading stands after some lines: slots seen,
/// populated slots kept, the slot being read, whether it holds a module,
/// and whether every number so far fitted its type.
pub struct DmiState {
    pub slots: nat,
    pub dimms: Seq<DimmView>,
    pub current: Option<DimmView>,
    pub populated: bool,
    pub fits: bool,
}

/// Ends the slot being read, keeping it when it holds a module.
pub open spec fn dmi_flush(st: DmiState) -> DmiState {
    DmiState {
        dimms: if st.current is Some && st.populated {
            st.dimms.push(st.current->0)
        } else {
            st.dimms
        },
        current: None,
        populated: false,
        ..st
    }
}

pub open spec fn dmi_field(st: DmiState, d: DimmView, key: Seq<char>, value: Seq<char>) -> DmiState {
    if key == "Size"@ {
        match dmi_size(value) {
            Some(b) => if b <= u64::MAX {
                DmiState { current: Some(DimmView { size_bytes: b as u64, ..d }), populated: b > 0, ..st }
            } else {
                DmiState { fits: false, ..st }
            },
            None => st,
        }
    } else if key == "Locator"@ {
        DmiState { current: Some(DimmView { locator: value, ..d }), ..st }
    } else if key == "Type"@ {
        DmiState { current: Some(DimmView { mem_type: value, ..d }), ..st }
    } else if key == "Speed"@ {
        DmiState { current: Some(DimmView { speed_mts: dmi_speed(value), ..d }), ..st }
    } else if key == "Configured Memory Speed"@ || key == "Configured Clock Speed"@ {
        DmiState { current: Some(DimmView { configured_speed_mts: dmi_speed(value), ..d }), ..st }
    } else if key == "Manufacturer"@ {
        DmiState { current: Some(DimmView { manufacturer: value, ..d }), ..st }
    } else if key == "Part Number"@ {
        DmiState { current: Some(DimmView { part_number: value, ..d }), ..st }
    } else {
        st
    }
}

pub open spec fn dmi_step(st: DmiState, line: Seq<char>) -> DmiState {
    if starts_with(line, "Memory Device"@) {
        let f = dmi_flush(st);
        DmiState {
            slots: f.slots + 1,
            current: Some(empty_dimm()),
            fits: f.fits && f.slots + 1 <= u32::MAX,
            ..f
        }
    } else {
        match st.current {
            None => st,
            Some(d) => match split_once(trim(line), ":"@) {
                None => st,
                Some(kv) => dmi_field(st, d, trim(kv.0), trim(kv.1)),
            },
        }
    }
}

pub open spec fn dmi_fold(ls: Seq<Seq<char>>) -> DmiState
    decreases ls.len(),
{
    if ls.len() == 0 {
        DmiState { slots: 0, dimms: seq![], current: None, populated: false, fits: true }
    } else {
        dmi_step(dmi_fold(ls.drop_last()), ls.last())
    }
}

/// (slot count, populated slots) of `dmidecode -t 17` output.
pub open spec fn dmidecode(text: Seq<char>) -> (nat, Seq<DimmView>) {
    let f = dmi_flush(dmi_fold(lines(text)));
    (f.slots, f.dimms)
}

pub proof fn lemma_dmi_fits_prefix(ls: Seq<Seq<char>>, i: int)
    requires
        0 <= i <= ls.len(),
        dmi_fold(ls).fits,
    ensures
        dmi_fold(ls.take(i)).fits,
    decreases ls.len() - i,
{
    if i < ls.len() {
        lemma_dmi_fits_prefix(ls, i + 1);
        assert(ls.take(i + 1).drop_last() =~= ls.take(i));
    } else {
        assert(ls.take(i) =~= ls);
    }
}

fn new_dimm() -> (d: DimmInfo)
    ensures
        d.view() == empty_dimm(),
{
    let d = DimmInfo {
        locator: String::new(),
        size_bytes: 0,
        mem_type: String::new(),
        speed_mts: None,
        configured_speed_mts: None,
        manufacturer: String::new(),
        part_number: String::new(),
    };
    assert(d.view().locator =~= seq![]);
    assert(d.view().mem_type =~= seq![]);
    assert(d.view().manufacturer =~= seq![]);
    assert(d.view().part_number =~= seq![]);
    d
}

/// Parses `dmidecode -t 17` into (slot count, populated slots).
pub fn parse_dmidecode_memory(text: &str) -> (r: (u32, Vec<DimmInfo>))
    requires
        dmi_fold(lines(text@)).fits,
    ensures
        (r.0 as nat, dimms_view(r.1@)) == dmidecode(text@),
{
    let ls = lines_of(text);
    let ghost lv = views(ls@);
    let mut slots: u32 = 0;
    let mut dimms: Vec<DimmInfo> = Vec::new();
    let mut has_cur = false;
    let mut cur = new_dimm();
    let mut populated = false;
    let mut i: usize = 0;
    while i < ls.len()
        invariant
            i <= ls.len(),
            lv == views(ls@),
            dmi_fold(lv).fits,
            ({
                let st = dmi_fold(lv.take(i as int));
                &&& st.slots == slots as nat
                &&& st.dimms == dimms_view(dimms@)
                &&& st.current == (if has_cur { Some(cur.view()) } else { None::<DimmView> })
                &&& st.populated == populated
                &&& st.fits
            }),
        decreases ls.len() - i,
    {
        let ghost t = lv.take(i + 1);
        assert(t.drop_last() =~= lv.take(i as int));
        assert(t.last() == ls@[i as int]@);
        proof {
            lemma_dmi_fits_prefix(lv, i + 1);
        }
        let ghost st = dmi_fold(lv.take(i as int));
        let l = &ls[i];
        if starts_with_exec(l, &lit("Memory Device")) {
            if has_cur && populated {
                let ghost before = dimms@;
                dimms.push(cur);
                assert(dimms_view(dimms@) =~= dimms_view(before).push(st.current->0));
            }
            cur = new_dimm();
            has_cur = true;
            populated = false;
            slots = slots + 1;
        } else if has_cur {
            let tl = trim_vec(l);
            match split_once_exec(&tl, &lit(":")) {
                None => {},
                Some(kv) => {
                    let key = trim_vec(&kv.0);
                    let value = trim_vec(&kv.1);
                    let ghost d = cur.view();
                    if vec_eq(&key, &lit("Size")) {
                        let vs = string_of(&value);
                        proof {
                            assert(vs@ == value@);
                        }
                        match parse_dmi_size(vs.as_str()) {
                            Some(b) => {
                                cur.size_bytes = b;
                                populated = b > 0;
                                assert(cur.view() == DimmView { size_bytes: b, ..d });
                            },
                            None => {},
                        }
                    } else if vec_eq(&key, &lit("Locator")) {
                        cur.locator = string_of(&value);
                        assert(cur.view() == DimmView { locator: value@, ..d });
                    } else if vec_eq(&key, &lit("Type")) {
                        cur.mem_type = string_of(&value);
                        assert(cur.view() == DimmView { mem_type: value@, ..d });
                    } else if vec_eq(&key, &lit("Speed")) {
                        cur.speed_mts = parse_dmi_speed(string_of(&value).as_str());
                        assert(cur.view() == DimmView { speed_mts: dmi_speed(value@), ..d });
                    } else if vec_eq(&key, &lit("Configured Memory Speed")) || vec_eq(
                        &key,
                        &lit("Configured Clock Speed"),
                    ) {
                        cur.configured_speed_mts = parse_dmi_speed(string_of(&value).as_str());
                        assert(cur.view() == DimmView {
                            configured_speed_mts: dmi_speed(value@),
                            ..d
                        });
                    } else if vec_eq(&key, &lit("Manufacturer")) {
                        cur.manufacturer = string_of(&value);
                        assert(cur.view() == DimmView { manufacturer: value@, ..d });
                    } else if vec_eq(&key, &lit("Part Number")) {
                        cur.part_number = string_of(&value);
                        assert(cur.view() == DimmView { part_number: value@, ..d });
                    }
                },
            }
        }
        i += 1;
    }
    assert(lv.take(ls.len() as int) =~= lv);
    if has_cur && populated {
        let ghost before = dimms@;
        let ghost st = dmi_fold(lv);
        dimms.push(cur);
        assert(dimms_view(dimms@) =~= dimms_view(before).push(st.current->0));
    }
    (slots, dimms)
}


/// Whether the sums of one `/proc/stat` line fit in `u64`.
fn reading_fits_exec(line: &Vec<char>) -> (b: bool)
    ensures
        b == reading_fits(line@),
{
    let ws = words_exec(line);
    let nums: Vec<u64> = if ws.len() > 0 {
        let n = parse_u64_words(&ws, 1);
        assert(views(ws@).skip(1) =~= views(ws@).drop_first());
        n
    } else {
        Vec::new()
    };
    let ghost ns = cpu_nums(line@);
    assert(nums@.map_values(|x: u64| x as nat) =~= ns);
    assert(nums.len() == ns.len());
    if nums.len() < 4 {
        return true;
    }
    let m: usize = if nums.len() < 8 {
        nums.len()
    } else {
        8
    };
    let mut total: u128 = 0;
    let mut j: usize = 0;
    while j < m
        invariant
            j <= m <= nums.len(),
            m <= 8,
            m == (if ns.len() < 8 { ns.len() as int } else { 8 }),
            ns == nums@.map_values(|x: u64| x as nat),
            total == sum(ns.take(j as int)),
            total <= j * 0xffff_ffff_ffff_ffffu128,
        decreases m - j,
    {
        assert(ns.take(j + 1).drop_last() =~= ns.take(j as int));
        assert(ns[j as int] == nums@[j as int]);
        total = total + nums[j] as u128;
        j += 1;
    }
    total <= 0xffff_ffff_ffff_ffffu128
}

/// Whether `parse_proc_stat` can add up the aggregate line of `text`
/// within `u64`.
pub fn proc_stat_in_range(text: &str) -> (b: bool)
    ensures
        b == proc_stat_fits(text@),
{
    let ls = lines_of(text);
    let p = lit("cpu ");
    let mut i: usize = 0;
    assert(views(ls@).skip(0) =~= views(ls@));
    while i < ls.len()
        invariant
            i <= ls.len(),
            p@ == "cpu "@,
            views(ls@) == lines(text@),
            first_with_prefix(views(ls@), p@) == first_with_prefix(views(ls@).skip(i as int), p@),
        decreases ls.len() - i,
    {
        assert(views(ls@).skip(i as int)[0] == ls@[i as int]@);
        if starts_with_exec(&ls[i], &p) {
            return reading_fits_exec(&ls[i]);
        }
        assert(views(ls@).skip(i as int).drop_first() =~= views(ls@).skip(i + 1));
        i += 1;
    }
    true
}

/// Whether `parse_proc_stat_cores` can add up every `cpuN` line of `text`
/// within `u64`.
pub fn cores_in_range(text: &str) -> (b: bool)
    ensures
        b == cores_fit(lines(text@)),
{
    let ls = lines_of(text);
    let ghost lv = views(ls@);
    let mut i: usize = 0;
    while i < ls.len()
        invariant
            i <= ls.len(),
            lv == views(ls@),
            lv == lines(text@),
            forall|j: int| 0 <= j < i && is_core_line(#[trigger] lv[j]) ==> reading_fits(lv[j]),
        decreases ls.len() - i,
    {
        let l = &ls[i];
        assert(lv[i as int] == l@);
        if starts_with_exec(l, &lit("cpu")) && !starts_with_exec(l, &lit("cpu ")) {
            if !reading_fits_exec(l) {
                return false;
            }
        }
        i += 1;
    }
    true
}

/// Whether every kB value of `/proc/meminfo` text converts to bytes within
/// `u64`.
pub fn meminfo_in_range(text: &str) -> (b: bool)
    ensures
        b == meminfo_fits(lines(text@)),
{
    let ls = lines_of(text);
    let ghost lv = views(ls@);
    let mut i: usize = 0;
    while i < ls.len()
        invariant
            i <= ls.len(),
            lv == views(ls@),
            lv == lines(text@),
            forall|j: int| 0 <= j < i ==> meminfo_kb(#[trigger] lv[j]) * 1024 <= u64::MAX,
        decreases ls.len() - i,
    {
        assert(lv[i as int] == ls@[i as int]@);
        let ws = words_exec(&ls[i]);
        let kb: u64 = if ws.len() > 1 {
            assert(views(ws@)[1] == ws@[1]@);
            match parse_uint_exec(&ws[1], u64::MAX) {
                Some(n) => n,
                None => 0,
            }
        } else {
            0
        };
        assert(kb == meminfo_kb(lv[i as int]));
        if kb > u64::MAX / 1024 {
            return false;
        }
        i += 1;
    }
    true
}

/// Whether `parse_diskstats` can add up the bytes of `text` within `u64`.
pub fn diskstats_in_range(text: &str) -> (b: bool)
    ensures
        b == (diskstats(lines(text@)).0 <= u64::MAX && diskstats(lines(text@)).1 <= u64::MAX),
{
    let ls = lines_of(text);
    let ghost lv = views(ls@);
    let mut read: u128 = 0;
    let mut write: u128 = 0;
    let mut i: usize = 0;
    while i < ls.len()
        invariant
            i <= ls.len(),
            lv == views(ls@),
            lv == lines(text@),
            read <= u64::MAX,
            write <= u64::MAX,
            (read as nat, write as nat) == diskstats(lv.take(i as int)),
        decreases ls.len() - i,
    {
        let ghost t = lv.take(i + 1);
        assert(t.drop_last() =~= lv.take(i as int));
        assert(t.last() == ls@[i as int]@);
        let f = words_exec(&ls[i]);
        if f.len() >= 10 && is_whole_disk(string_of(&f[2]).as_str()) {
            let r = match parse_uint_exec(&f[5], u64::MAX) {
                Some(n) => n,
                None => 0,
            };
            let w = match parse_uint_exec(&f[9], u64::MAX) {
                Some(n) => n,
                None => 0,
            };
            read = read + r as u128 * 512;
            write = write + w as u128 * 512;
            if read > u64::MAX as u128 || write > u64::MAX as u128 {
                proof {
                    lemma_diskstats_mono(lv, i + 1);
                }
                return false;
            }
        }
        i += 1;
    }
    assert(lv.take(ls.len() as int) =~= lv);
    true
}

/// Whether `dmi_size` of `value`, where there is one, fits in `u64`.
pub fn dmi_size_in_range(value: &str) -> (b: bool)
    ensures
        b == (dmi_size(value@) matches Some(n) ==> n <= u64::MAX),
{
    let v = chars_of(value);
    if starts_with_exec(&v, &lit("No Module")) || vec_eq(&v, &lit("Unknown")) {
        return true;
    }
    let (num, unit) = match split_once_exec(&v, &lit(" ")) {
        Some(nu) => nu,
        None => {
            return true;
        },
    };
    let n = match parse_uint_exec(&num, u64::MAX) {
        Some(n) => n,
        None => {
            return true;
        },
    };
    if vec_eq(&unit, &lit("GB")) {
        n <= u64::MAX / 0x4000_0000
    } else if vec_eq(&unit, &lit("MB")) {
        n <= u64::MAX / 0x10_0000
    } else if vec_eq(&unit, &lit("TB")) {
        n <= u64::MAX / 0x100_0000_0000
    } else {
        true
    }
}

/// Whether `parse_dmidecode_memory` can count the slots of `text` in `u32`
/// and every module size in `u64`.
pub fn dmidecode_in_range(text: &str) -> (b: bool)
    ensures
        b == dmi_fold(lines(text@)).fits,
{
    let ls = lines_of(text);
    let ghost lv = views(ls@);
    let mut slots: u64 = 0;
    let mut in_device = false;
    let mut i: usize = 0;
    while i < ls.len()
        invariant
            i <= ls.len(),
            lv == views(ls@),
            lv == lines(text@),
            slots <= i,
            ({
                let st = dmi_fold(lv.take(i as int));
                &&& st.slots == slots as nat
                &&& (st.current is Some) == in_device
                &&& st.fits
            }),
        decreases ls.len() - i,
    {
        let ghost t = lv.take(i + 1);
        assert(t.drop_last() =~= lv.take(i as int));
        assert(t.last() == ls@[i as int]@);
        let l = &ls[i];
        if starts_with_exec(l, &lit("Memory Device")) {
            if slots >= u32::MAX as u64 {
                proof {
                    lemma_dmi_fits_prefix_rev(lv, i + 1);
                }
                return false;
            }
            slots = slots + 1;
            in_device = true;
        } else if in_device {
            let tl = trim_vec(l);
            match split_once_exec(&tl, &lit(":")) {
                None => {},
                Some(kv) => {
                    let key = trim_vec(&kv.0);
                    let value = trim_vec(&kv.1);
                    if vec_eq(&key, &lit("Size")) {
                        let vs = string_of(&value);
                        if !dmi_size_in_range(vs.as_str()) {
                            proof {
                                lemma_dmi_fits_prefix_rev(lv, i + 1);
                            }
                            return false;
                        }
                    }
                },
            }
        }
        i += 1;
    }
    assert(lv.take(ls.len() as int) =~= lv);
    true
}

/// Once a prefix of the lines does not fit, neither do all of them.
proof fn lemma_dmi_fits_prefix_rev(ls: Seq<Seq<char>>, i: int)
    requires
        0 <= i <= ls.len(),
        !dmi_fold(ls.take(i)).fits,
    ensures
        !dmi_fold(ls).fits,
{
    if dmi_fold(ls).fits {
        lemma_dmi_fits_prefix(ls, i);
    }
}

/// Jiffies gone by between two (idle, total) readings, as (idle, total);
/// nothing when no time passed. A counter that went backwards counts as 0.
pub open spec fn busy_deltas(prev: (nat, nat), cur: (nat, nat)) -> Option<(nat, nat)> {
    let d_total = if cur.1 >= prev.1 {
        cur.1 - prev.1
    } else {
        0
    };
    let d_idle = if cur.0 >= prev.0 {
        cur.0 - prev.0
    } else {
        0
    };
    if d_total == 0 {
        None
    } else {
        Some((d_idle as nat, d_total as nat))
    }
}

pub open spec fn opt_pair_view(p: Option<(u64, u64)>) -> Option<(nat, nat)> {
    match p {
        Some(q) => Some(pair_view(q)),
        None => None,
    }
}

/// The deltas between two (idle, total) readings; the caller turns them
/// into a percentage.
pub fn cpu_deltas(prev: (u64, u64), cur: (u64, u64)) -> (r: Option<(u64, u64)>)
    ensures
        opt_pair_view(r) == busy_deltas(pair_view(prev), pair_view(cur)),
{
    let d_total = cur.1.saturating_sub(prev.1);
    let d_idle = cur.0.saturating_sub(prev.0);
    if d_total == 0 {
        None
    } else {
        Some((d_idle, d_total))
    }
}

/// Rolling state between samples: the deltas need a previous reading.
pub struct SystemSampler {
    prev_cpu: Option<(u64, u64)>,
    prev_cores: Vec<(u64, u64)>,
    prev_disk: Option<(u64, u64)>,
}

impl SystemSampler {
    pub closed spec fn prev_cpu(&self) -> Option<(nat, nat)> {
        opt_pair_view(self.prev_cpu)
    }

    pub closed spec fn prev_cores(&self) -> Seq<(nat, nat)> {
        pairs_view(self.prev_cores@)
    }

    pub closed spec fn prev_disk(&self) -> Option<(nat, nat)> {
        opt_pair_view(self.prev_disk)
    }

    /// A sampler with no baseline yet.
    pub fn new() -> (s: Self)
        ensures
            s.prev_cpu() is None,
            s.prev_cores() == Seq::<(nat, nat)>::empty(),
            s.prev_disk() is None,
    {
        let s = SystemSampler { prev_cpu: None, prev_cores: Vec::new(), prev_disk: None };
        assert(pairs_view(s.prev_cores@) =~= Seq::<(nat, nat)>::empty());
        s
    }

    /// Records an aggregate CPU reading; returns the deltas against the
    /// previous one, if there was one and time passed.
    pub fn observe_cpu(&mut self, cur: (u64, u64)) -> (r: Option<(u64, u64)>)
        ensures
            opt_pair_view(r) == match old(self).prev_cpu() {
                Some(p) => busy_deltas(p, pair_view(cur)),
                None => None,
            },
            final(self).prev_cpu() == Some(pair_view(cur)),
            final(self).prev_cores() == old(self).prev_cores(),
            final(self).prev_disk() == old(self).prev_disk(),
    {
        let r = match self.prev_cpu {
            Some(p) => cpu_deltas(p, cur),
            None => None,
        };
        self.prev_cpu = Some(cur);
        r
    }

    /// Records per-core readings; each core's deltas against the same core
    /// in the previous reading, when it had one.
    pub fn observe_cores(&mut self, cores: Vec<(u64, u64)>) -> (r: Vec<Option<(u64, u64)>>)
        ensures
            r.len() == cores.len(),
            forall|i: int|
                0 <= i < cores.len() ==> opt_pair_view(#[trigger] r@[i]) == if i < old(
                    self,
                ).prev_cores().len() {
                    busy_deltas(old(self).prev_cores()[i], pair_view(cores@[i]))
                } else {
                    None
                },
            final(self).prev_cores() == pairs_view(cores@),
            final(self).prev_cpu() == old(self).prev_cpu(),
            final(self).prev_disk() == old(self).prev_disk(),
    {
        let mut r: Vec<Option<(u64, u64)>> = Vec::new();
        let mut i: usize = 0;
        while i < cores.len()
            invariant
                i <= cores.len(),
                r.len() == i,
                forall|j: int|
                    0 <= j < i ==> opt_pair_view(#[trigger] r@[j]) == if j
                        < pairs_view(self.prev_cores@).len() {
                        busy_deltas(pairs_view(self.prev_cores@)[j], pair_view(cores@[j]))
                    } else {
                        None
                    },
            decreases cores.len() - i,
        {
            let d = if i < self.prev_cores.len() {
                cpu_deltas(self.prev_cores[i], cores[i])
            } else {
                None
            };
            r.push(d);
            i += 1;
        }
        self.prev_cores = cores;
        r
    }

    /// Records disk byte counters; the bytes read and written since the
    /// previous reading, if there was one.
    pub fn observe_disk(&mut self, cur: (u64, u64)) -> (r: Option<(u64, u64)>)
        ensures
            opt_pair_view(r) == match old(self).prev_disk() {
                Some(p) => Some(
                    (
                        if cur.0 >= p.0 {
                            (cur.0 - p.0) as nat
                        } else {
                            0
                        },
                        if cur.1 >= p.1 {
                            (cur.1 - p.1) as nat
                        } else {
                            0
                        },
                    ),
                ),
                None => None,
            },
            final(self).prev_disk() == Some(pair_view(cur)),
            final(self).prev_cpu() == old(self).prev_cpu(),
            final(self).prev_cores() == old(self).prev_cores(),
    {
        let r = match self.prev_disk {
            Some(p) => Some((cur.0.saturating_sub(p.0), cur.1.saturating_sub(p.1))),
            None => None,
        };
        self.prev_disk = Some(cur);
        r
    }
}


/// The fold never keeps more modules than it has seen slots.
pub proof fn lemma_dmi_counts(ls: Seq<Seq<char>>)
    ensures
        dmi_fold(ls).dimms.len() + (if dmi_fold(ls).current is Some {
            1int
        } else {
            0int
        }) <= dmi_fold(ls).slots,
        dmi_fold(ls).current is None ==> !dmi_fold(ls).populated,
    decreases ls.len(),
{
    if ls.len() > 0 {
        lemma_dmi_counts(ls.drop_last());
    }
}

/// A machine never reports more populated slots than slots.
pub proof fn law_dimms_within_slots(text: Seq<char>)
    ensures
        dmidecode(text).1.len() <= dmidecode(text).0,
{
    lemma_dmi_counts(lines(text));
}


/// The fold keeps only modules with a size, and marks a slot populated only
/// once it read a non-zero size for it.
pub proof fn lemma_dmi_sizes(ls: Seq<Seq<char>>)
    ensures
        forall|i: int|
            0 <= i < dmi_fold(ls).dimms.len() ==> (#[trigger] dmi_fold(ls).dimms[i]).size_bytes > 0,
        dmi_fold(ls).populated ==> dmi_fold(ls).current is Some && dmi_fold(ls).current->0.size_bytes
            > 0,
    decreases ls.len(),
{
    if ls.len() > 0 {
        lemma_dmi_sizes(ls.drop_last());
        let st = dmi_fold(ls.drop_last());
        let f = dmi_flush(st);
        assert forall|i: int| 0 <= i < f.dimms.len() implies (#[trigger] f.dimms[i]).size_bytes
            > 0 by {
            if i < st.dimms.len() {
                assert(f.dimms[i] == st.dimms[i]);
            }
        }
    }
}

/// Every module `dmidecode` reports has a non-zero size (empty slots are
/// counted, not listed).
pub proof fn law_dimms_have_size(text: Seq<char>)
    ensures
        forall|i: int|
            0 <= i < dmidecode(text).1.len() ==> (#[trigger] dmidecode(text).1[i]).size_bytes > 0,
{
    let ls = lines(text);
    lemma_dmi_sizes(ls);
    let st = dmi_fold(ls);
    let f = dmi_flush(st);
    assert forall|i: int| 0 <= i < f.dimms.len() implies (#[trigger] f.dimms[i]).size_bytes > 0 by {
        if i < st.dimms.len() {
            assert(f.dimms[i] == st.dimms[i]);
        }
    }
}


/// What `dmidecode` reports of the memory: no more modules than slots, and
/// every module with a non-zero size.
pub proof fn law_dimms(text: Seq<char>)
    ensures
        dmidecode(text).1.len() <= dmidecode(text).0,
        forall|i: int|
            0 <= i < dmidecode(text).1.len() ==> (#[trigger] dmidecode(text).1[i]).size_bytes > 0,
{
    law_dimms_within_slots(text);
    law_dimms_have_size(text);
}

} // verus!
