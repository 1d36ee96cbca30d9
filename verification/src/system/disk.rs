//! The disk that holds the models: finding it from `findmnt` and `lsblk`
//! output, its kind, and the health summary read from `smartctl -j -H -A`.
use vstd::prelude::*;
use crate::text::{
    chars_of, lines, lines_of, lit, rfind, rfind_exec, slice_of, split_char, split_char_exec,
    starts_with, starts_with_exec, string_of, trim, trim_vec, views,
};

verus! {

pub open spec fn disk_kind_spec(device: Seq<char>, rotational: bool) -> Seq<char> {
    if starts_with(device, "nvme"@) {
        "NVMe"@
    } else if rotational {
        "HDD"@
    } else {
        "SSD"@
    }
}

/// "NVMe" for an NVMe device, else "HDD" or "SSD" by the rotational flag.
pub fn disk_kind(device: &str, rotational: bool) -> (k: &'static str)
    ensures
        k@ == disk_kind_spec(device@, rotational),
{
    if starts_with_exec(&lit(device), &lit("nvme")) {
        "NVMe"
    } else if rotational {
        "HDD"
    } else {
        "SSD"
    }
}


/// The fields of the NVMe health log in smartctl's JSON report.
#[derive(Debug, Clone, Copy, Default, PartialEq)]
pub struct NvmeHealth {
    pub percentage_used: Option<u64>,
    pub available_spare: Option<u64>,
    pub media_errors: Option<u64>,
    /// In units of 1000 blocks of 512 bytes.
    pub data_units_written: Option<u64>,
    pub critical_warning: Option<u64>,
}

/// One row of smartctl's ATA attribute table: its id, normalised value and
/// raw value.
#[derive(Debug, Clone, Copy, Default, PartialEq)]
pub struct AtaAttribute {
    pub id: Option<u64>,
    pub value: Option<u64>,
    pub raw: Option<u64>,
}

/// What the health summary reads of smartctl's JSON report: the overall
/// assessment, the power-on hours, and the NVMe health log or the ATA
/// attribute table when the report has one.
#[derive(Debug, Clone, Default, PartialEq)]
pub struct SmartReport {
    pub passed: Option<bool>,
    pub power_on_hours: Option<u64>,
    pub nvme: Option<NvmeHealth>,
    pub ata: Option<Vec<AtaAttribute>>,
}

/// SMART health of a disk (its temperature is a reading the caller adds).
#[derive(Debug, Clone, Copy, Default, PartialEq)]
pub struct SmartData {
    /// The overall assessment: true = passed.
    pub passed: Option<bool>,
    pub power_on_hours: Option<u64>,
    /// 0 = new, 100 = rated life used up.
    pub wear_percent: Option<u32>,
    pub available_spare_percent: Option<u32>,
    pub media_errors: Option<u64>,
    pub reallocated_sectors: Option<u64>,
    pub data_written_bytes: Option<u64>,
    /// The NVMe critical-warning bitmask, when non-zero.
    pub critical_warning: Option<u32>,
}

/// `a * b`, or `u64::MAX` when that does not fit.
pub open spec fn sat_mul(a: u64, b: u64) -> u64 {
    if a * b > u64::MAX {
        u64::MAX
    } else {
        (a * b) as u64
    }
}

/// The summary before the ATA table is read: the NVMe log turned into
/// percentages and bytes.
pub open spec fn smart_base(r: SmartReport) -> SmartData {
    match r.nvme {
        None => SmartData {
            passed: r.passed,
            power_on_hours: r.power_on_hours,
            wear_percent: None,
            available_spare_percent: None,
            media_errors: None,
            reallocated_sectors: None,
            data_written_bytes: None,
            critical_warning: None,
        },
        Some(n) => SmartData {
            passed: r.passed,
            power_on_hours: r.power_on_hours,
            wear_percent: match n.percentage_used {
                Some(x) => Some(if x > u32::MAX { u32::MAX } else { x as u32 }),
                None => None,
            },
            available_spare_percent: match n.available_spare {
                Some(x) => Some(x as u32),
                None => None,
            },
            media_errors: n.media_errors,
            reallocated_sectors: None,
            data_written_bytes: match n.data_units_written {
                Some(u) => Some(sat_mul(u, 512_000)),
                None => None,
            },
            critical_warning: match n.critical_warning {
                Some(x) => if x != 0 {
                    Some(x as u32)
                } else {
                    None
                },
                None => None,
            },
        },
    }
}

/// Remaining life normalised 100 -> 0, as a wear percentage.
pub open spec fn wear_of(normalized: Option<u64>) -> Option<u32> {
    match normalized {
        Some(n) => Some((100 - if n > 100 { 100 } else { n }) as u32),
        None => None,
    }
}

/// One ATA attribute applied: 5 is the reallocated-sector count, 9 the
/// power-on hours (unless known), 177, 231 and 233 the remaining life
/// (unless the wear is known).
pub open spec fn ata_step(s: SmartData, a: AtaAttribute) -> SmartData {
    let id = match a.id {
        Some(i) => i,
        None => 0,
    };
    if id == 5 {
        SmartData { reallocated_sectors: a.raw, ..s }
    } else if id == 9 && s.power_on_hours is None {
        SmartData { power_on_hours: a.raw, ..s }
    } else if (id == 177 || id == 231 || id == 233) && s.wear_percent is None {
        SmartData { wear_percent: wear_of(a.value), ..s }
    } else {
        s
    }
}

pub open spec fn ata_fold(s: SmartData, table: Seq<AtaAttribute>) -> SmartData
    decreases table.len(),
{
    if table.len() == 0 {
        s
    } else {
        ata_step(ata_fold(s, table.drop_last()), table.last())
    }
}

pub open spec fn smart_summary(r: SmartReport) -> SmartData {
    match r.ata {
        Some(t) => ata_fold(smart_base(r), t@),
        None => smart_base(r),
    }
}

/// The health summary of a smartctl report, for NVMe and ATA drives.
pub fn smart_data(r: &SmartReport) -> (s: SmartData)
    ensures
        s == smart_summary(*r),
{
    let mut s = match r.nvme {
        None => SmartData {
            passed: r.passed,
            power_on_hours: r.power_on_hours,
            wear_percent: None,
            available_spare_percent: None,
            media_errors: None,
            reallocated_sectors: None,
            data_written_bytes: None,
            critical_warning: None,
        },
        Some(n) => SmartData {
            passed: r.passed,
            power_on_hours: r.power_on_hours,
            wear_percent: match n.percentage_used {
                Some(x) => Some(
                    if x > u32::MAX as u64 {
                        u32::MAX
                    } else {
                        x as u32
                    },
                ),
                None => None,
            },
            available_spare_percent: match n.available_spare {
                Some(x) => Some(#[verifier::truncate] (x as u32)),
                None => None,
            },
            media_errors: n.media_errors,
            reallocated_sectors: None,
            data_written_bytes: match n.data_units_written {
                Some(u) => Some(
                    if u > u64::MAX / 512_000 {
                        u64::MAX
                    } else {
                        u * 512_000
                    },
                ),
                None => None,
            },
            critical_warning: match n.critical_warning {
                Some(x) => if x != 0 {
                    Some(#[verifier::truncate] (x as u32))
                } else {
                    None
                },
                None => None,
            },
        },
    };
    assert(s == smart_base(*r));
    match &r.ata {
        None => {},
        Some(table) => {
            let mut i: usize = 0;
            while i < table.len()
                invariant
                    i <= table.len(),
                    s == ata_fold(smart_base(*r), table@.take(i as int)),
                decreases table.len() - i,
            {
                assert(table@.take(i + 1).drop_last() =~= table@.take(i as int));
                let a = table[i];
                let id = match a.id {
                    Some(x) => x,
                    None => 0,
                };
                if id == 5 {
                    s.reallocated_sectors = a.raw;
                } else if id == 9 && s.power_on_hours.is_none() {
                    s.power_on_hours = a.raw;
                } else if (id == 177 || id == 231 || id == 233) && s.wear_percent.is_none() {
                    s.wear_percent = match a.value {
                        Some(n) => Some(
                            (100 - if n > 100 {
                                100
                            } else {
                                n
                            }) as u32,
                        ),
                        None => None,
                    };
                }
                i += 1;
            }
            assert(table@.take(table.len() as int) =~= table@);
        },
    }
    s
}


/// The device `findmnt -n -o SOURCE` names for a filesystem: the output
/// trimmed, with a btrfs subvolume suffix (`/dev/sda2[/@home]`) cut off;
/// nothing unless it is a `/dev/` path.
pub open spec fn mount_source_of(out: Seq<char>) -> Option<Seq<char>> {
    let s = trim(split_char(trim(out), '[')[0]);
    if starts_with(s, "/dev/"@) {
        Some(s)
    } else {
        None
    }
}

pub fn mount_source(findmnt_out: &str) -> (r: Option<String>)
    ensures
        match r {
            Some(s) => mount_source_of(findmnt_out@) == Some(s@),
            None => mount_source_of(findmnt_out@) is None,
        },
{
    let t = trim_vec(&chars_of(findmnt_out));
    let parts = split_char_exec(&t, '[');
    assert(views(parts@)[0] == parts@[0]@);
    let s = trim_vec(&parts[0]);
    if starts_with_exec(&s, &lit("/dev/")) {
        Some(string_of(&s))
    } else {
        None
    }
}

/// `s` with every leading `/dev/` removed (`str::trim_start_matches`).
pub open spec fn without_dev(s: Seq<char>) -> Seq<char>
    decreases s.len(),
{
    if starts_with(s, "/dev/"@) {
        proof {
            reveal_strlit("/dev/");
        }
        without_dev(s.skip(5))
    } else {
        s
    }
}

/// The kernel name of a `/dev/` path: `/dev/nvme0n1p2` -> `nvme0n1p2`,
/// `/dev/mapper/root` -> `mapper/root`.
pub fn device_name(source: &str) -> (n: String)
    ensures
        n@ == without_dev(source@),
{
    proof {
        reveal_strlit("/dev/");
    }
    let p = lit("/dev/");
    let mut rest = chars_of(source);
    while starts_with_exec(&rest, &p)
        invariant
            p@ == "/dev/"@,
            p@.len() == 5,
            without_dev(source@) == without_dev(rest@),
        decreases rest.len(),
    {
        let next = slice_of(&rest, 5, rest.len());
        assert(next@ =~= rest@.skip(5));
        rest = next;
    }
    string_of(&rest)
}

/// The last part of a path-like name (`mapper/root` -> `root`).
pub open spec fn last_part(name: Seq<char>) -> Seq<char> {
    match rfind(name, "/"@) {
        Some(k) => name.skip(k + 1),
        None => name,
    }
}

pub fn short_name(name: &str) -> (n: String)
    ensures
        n@ == last_part(name@),
{
    let v = chars_of(name);
    proof {
        reveal_strlit("/");
    }
    let slash = lit("/");
    assert(slash@.len() == 1);
    match rfind_exec(&v, &slash) {
        Some(k) => {
            assert(k + 1 <= v.len());
            let out = slice_of(&v, k + 1, v.len());
            assert(out@ =~= v@.skip(k + 1));
            string_of(&out)
        },
        None => string_of(&v),
    }
}

/// The first non-blank line of `lsblk -no PKNAME`, trimmed: the parent
/// of the device asked about.
pub open spec fn parent_of_lines(ls: Seq<Seq<char>>) -> Option<Seq<char>>
    decreases ls.len(),
{
    if ls.len() == 0 {
        None
    } else if trim(ls[0]).len() > 0 {
        Some(trim(ls[0]))
    } else {
        parent_of_lines(ls.drop_first())
    }
}

pub fn parent_device(lsblk_out: &str) -> (r: Option<String>)
    ensures
        match r {
            Some(p) => parent_of_lines(lines(lsblk_out@)) == Some(p@),
            None => parent_of_lines(lines(lsblk_out@)) is None,
        },
{
    let ls = lines_of(lsblk_out);
    let ghost lv = views(ls@);
    let mut i: usize = 0;
    assert(lv.skip(0) =~= lv);
    while i < ls.len()
        invariant
            i <= ls.len(),
            lv == views(ls@),
            lv == lines(lsblk_out@),
            parent_of_lines(lv) == parent_of_lines(lv.skip(i as int)),
        decreases ls.len() - i,
    {
        assert(lv.skip(i as int)[0] == ls@[i as int]@);
        let t = trim_vec(&ls[i]);
        if t.len() > 0 {
            return Some(string_of(&t));
        }
        assert(lv.skip(i as int).drop_first() =~= lv.skip(i + 1));
        i += 1;
    }
    None
}


/// How long a SMART reading is kept before the disk is asked again.
pub const SMART_INTERVAL_MS: u64 = 60000;

/// What the disk card remembers between samples: the path it resolved a
/// device for, that device, and the last SMART reading (of type `T`) with
/// when it was taken, or why none could be taken.
pub struct DiskProbe<T> {
    resolved_for: Option<String>,
    device: Option<String>,
    smart_at: Option<u64>,
    smart: Option<T>,
    smart_error: Option<String>,
}

pub struct DiskProbeView<T> {
    pub resolved_for: Option<Seq<char>>,
    pub device: Option<Seq<char>>,
    pub smart_at: Option<u64>,
    pub smart: Option<T>,
    pub smart_error: Option<Seq<char>>,
}

pub open spec fn opt_str(o: Option<String>) -> Option<Seq<char>> {
    match o {
        Some(s) => Some(s@),
        None => None,
    }
}

/// The probe's state when nothing is known yet (and after a new target).
pub open spec fn fresh_probe<T>(resolved_for: Option<Seq<char>>) -> DiskProbeView<T> {
    DiskProbeView {
        resolved_for,
        device: None,
        smart_at: None,
        smart: None,
        smart_error: None,
    }
}

/// A reading is due when none was taken, or the last is at least
/// `SMART_INTERVAL_MS` old.
pub open spec fn smart_due_at(smart_at: Option<u64>, now_ms: u64) -> bool {
    match smart_at {
        None => true,
        Some(at) => now_ms >= at && now_ms - at >= SMART_INTERVAL_MS,
    }
}

/// An error is shown only while no reading has been taken.
pub open spec fn error_only_without_reading<T>(p: DiskProbeView<T>) -> bool {
    p.smart_error is Some ==> p.smart is None
}

impl<T> DiskProbe<T> {
    pub closed spec fn view(&self) -> DiskProbeView<T> {
        DiskProbeView {
            resolved_for: opt_str(self.resolved_for),
            device: opt_str(self.device),
            smart_at: self.smart_at,
            smart: self.smart,
            smart_error: opt_str(self.smart_error),
        }
    }

    pub fn new() -> (p: DiskProbe<T>)
        ensures
            p@ == fresh_probe::<T>(None),
            error_only_without_reading(p@),
    {
        DiskProbe { resolved_for: None, device: None, smart_at: None, smart: None, smart_error: None }
    }

    /// Points the probe at `target`. A new target forgets the device and
    /// the SMART state, and answers true: the device must be resolved
    /// again.
    pub fn retarget(&mut self, target: &str) -> (changed: bool)
        ensures
            changed == (old(self)@.resolved_for != Some(target@)),
            changed ==> final(self)@ == fresh_probe::<T>(Some(target@)),
            !changed ==> final(self)@ == old(self)@,
            error_only_without_reading(old(self)@) ==> error_only_without_reading(final(self)@),
    {
        let same = match &self.resolved_for {
            Some(r) => crate::text::str_eq(r.as_str(), target),
            None => false,
        };
        if same {
            return false;
        }
        self.resolved_for = Some(string_of(&lit(target)));
        self.device = None;
        self.smart_at = None;
        self.smart = None;
        self.smart_error = None;
        true
    }

    /// Remembers the device resolved for the current target.
    pub fn set_device(&mut self, device: Option<String>)
        ensures
            final(self)@ == (DiskProbeView { device: opt_str(device), ..old(self)@ }),
            error_only_without_reading(old(self)@) ==> error_only_without_reading(final(self)@),
    {
        self.device = device;
    }

    /// The device of the current target, if one was resolved.
    pub fn device(&self) -> (d: Option<String>)
        ensures
            opt_str(d) == self@.device,
    {
        match &self.device {
            Some(d) => Some(d.clone()),
            None => None,
        }
    }

    /// Whether SMART should be read again at `now_ms`.
    pub fn smart_due(&self, now_ms: u64) -> (b: bool)
        ensures
            b == smart_due_at(self@.smart_at, now_ms),
    {
        match self.smart_at {
            None => true,
            Some(at) => now_ms >= at && now_ms - at >= SMART_INTERVAL_MS,
        }
    }

    /// Records a SMART attempt made at `now_ms`: a reading replaces the last
    /// one and clears the error; a failure is shown only while there is no
    /// earlier reading to keep showing.
    pub fn record(&mut self, now_ms: u64, result: Result<T, String>)
        ensures
            final(self)@.resolved_for == old(self)@.resolved_for,
            final(self)@.device == old(self)@.device,
            final(self)@.smart_at == Some(now_ms),
            match result {
                Ok(v) => final(self)@.smart == Some(v) && final(self)@.smart_error is None,
                Err(e) => final(self)@.smart == old(self)@.smart && final(self)@.smart_error == (
                if old(self)@.smart is None {
                    Some(e@)
                } else {
                    old(self)@.smart_error
                }),
            },
            error_only_without_reading(old(self)@) ==> error_only_without_reading(final(self)@),
    {
        self.smart_at = Some(now_ms);
        match result {
            Ok(v) => {
                self.smart = Some(v);
                self.smart_error = None;
            },
            Err(e) => {
                if self.smart.is_none() {
                    self.smart_error = Some(e);
                }
            },
        }
    }

    /// The last SMART reading, if any.
    pub fn reading(&self) -> (r: Option<&T>)
        ensures
            match (r, self@.smart) {
                (Some(a), Some(b)) => *a == b,
                (None, None) => true,
                _ => false,
            },
    {
        self.smart.as_ref()
    }

    /// Why SMART could not be read, while no reading has been.
    pub fn smart_error(&self) -> (e: Option<String>)
        ensures
            opt_str(e) == self@.smart_error,
    {
        match &self.smart_error {
            Some(e) => Some(e.clone()),
            None => None,
        }
    }
}


/// Where smartctl's JSON keeps the NVMe health log and the ATA table.
pub open spec fn nvme_ptr() -> Seq<char> {
    "/nvme_smart_health_information_log"@
}

pub open spec fn table_ptr() -> Seq<char> {
    "/ata_smart_attributes/table"@
}

/// Row `i` of the ATA table, as JSON pointers read it.
pub open spec fn ata_row_of(text: Seq<char>, i: nat) -> AtaAttribute {
    let row = table_ptr() + "/"@ + crate::text::dec(i);
    AtaAttribute {
        id: crate::doc::json_u64_at(text, row + "/id"@),
        value: crate::doc::json_u64_at(text, row + "/value"@),
        raw: crate::doc::json_u64_at(text, row + "/raw/value"@),
    }
}

/// The NVMe health log of smartctl's JSON, when the report has one.
pub open spec fn nvme_of(text: Seq<char>) -> Option<NvmeHealth> {
    if crate::doc::json_has(text, nvme_ptr()) {
        Some(
            NvmeHealth {
                percentage_used: crate::doc::json_u64_at(text, nvme_ptr() + "/percentage_used"@),
                available_spare: crate::doc::json_u64_at(text, nvme_ptr() + "/available_spare"@),
                media_errors: crate::doc::json_u64_at(text, nvme_ptr() + "/media_errors"@),
                data_units_written: crate::doc::json_u64_at(text, nvme_ptr() + "/data_units_written"@),
                critical_warning: crate::doc::json_u64_at(text, nvme_ptr() + "/critical_warning"@),
            },
        )
    } else {
        None
    }
}

/// The health summary of smartctl's JSON report `text` (`-j -H -A`):
/// nothing when it is not JSON; else the overall assessment, the power-on
/// hours, the NVMe log and the ATA table as `smart_summary` reads them.
pub open spec fn smartctl_summary(text: Seq<char>) -> Option<SmartData> {
    if !crate::doc::json_parses(text) {
        None
    } else {
        let base = smart_base(
            SmartReport {
                passed: crate::doc::json_bool_at(text, "/smart_status/passed"@),
                power_on_hours: crate::doc::json_u64_at(text, "/power_on_time/hours"@),
                nvme: nvme_of(text),
                ata: None,
            },
        );
        Some(
            match crate::doc::json_len_at(text, table_ptr()) {
                Some(n) => ata_fold(base, Seq::new(n as nat, |i: int| ata_row_of(text, i as nat))),
                None => base,
            },
        )
    }
}

fn json_u64_at_ptr(text: &str, base: &Vec<char>, rest: &str) -> (r: Option<u64>)
    ensures
        r == crate::doc::json_u64_at(text@, base@ + rest@),
{
    let mut p = crate::text::copy_vec(base);
    crate::text::extend(&mut p, &lit(rest));
    let ps = string_of(&p);
    crate::doc::json_u64(text, ps.as_str())
}

/// The health summary of smartctl's JSON report (the temperature, a
/// floating-point reading, is left to the caller).
pub fn parse_smartctl_json(text: &str) -> (r: Option<SmartData>)
    ensures
        r == smartctl_summary(text@),
{
    if !crate::doc::json_valid(text) {
        return None;
    }
    proof {
        reveal_strlit("/nvme_smart_health_information_log");
        reveal_strlit("/ata_smart_attributes/table");
    }
    let nv = lit("/nvme_smart_health_information_log");
    let nvme = if crate::doc::json_found(text, "/nvme_smart_health_information_log") {
        Some(
            NvmeHealth {
                percentage_used: json_u64_at_ptr(text, &nv, "/percentage_used"),
                available_spare: json_u64_at_ptr(text, &nv, "/available_spare"),
                media_errors: json_u64_at_ptr(text, &nv, "/media_errors"),
                data_units_written: json_u64_at_ptr(text, &nv, "/data_units_written"),
                critical_warning: json_u64_at_ptr(text, &nv, "/critical_warning"),
            },
        )
    } else {
        None
    };
    assert(nvme == nvme_of(text@));
    let table = lit("/ata_smart_attributes/table");
    let ata = match crate::doc::json_len(text, "/ata_smart_attributes/table") {
        None => None,
        Some(n) => {
            let mut rows: Vec<AtaAttribute> = Vec::new();
            let mut i: usize = 0;
            while i < n
                invariant
                    i <= n,
                    table@ == table_ptr(),
                    rows@ == Seq::new(i as nat, |k: int| ata_row_of(text@, k as nat)),
                decreases n - i,
            {
                let mut row = crate::text::copy_vec(&table);
                crate::text::extend(&mut row, &lit("/"));
                crate::text::push_dec(&mut row, i as u64);
                assert(row@ == table_ptr() + "/"@ + crate::text::dec(i as nat));
                rows.push(
                    AtaAttribute {
                        id: json_u64_at_ptr(text, &row, "/id"),
                        value: json_u64_at_ptr(text, &row, "/value"),
                        raw: json_u64_at_ptr(text, &row, "/raw/value"),
                    },
                );
                assert(rows@ =~= Seq::new((i + 1) as nat, |k: int| ata_row_of(text@, k as nat)));
                i += 1;
            }
            Some(rows)
        },
    };
    let report = SmartReport {
        passed: crate::doc::json_bool(text, "/smart_status/passed"),
        power_on_hours: crate::doc::json_u64(text, "/power_on_time/hours"),
        nvme,
        ata,
    };
    let s = smart_data(&report);
    proof {
        let base_report = SmartReport { ata: None, ..report };
        assert(smart_base(report) == smart_base(base_report));
    }
    Some(s)
}

/// smartctl's exit status is a bitmask: bits 0 and 1 are command-line and
/// device-open errors (bit 3, SMART failing, still comes with a report).
pub fn smartctl_failed(code: i32) -> (b: bool)
    ensures
        b == (code % 4 != 0),
{
    code % 4 != 0
}

/// Why smartctl gave no report: the first of its JSON messages that has a
/// text, else the first line of its error output (trimmed), else
/// "permission denied".
pub open spec fn smartctl_error_of(stdout: Seq<char>, stderr: Seq<char>) -> Seq<char> {
    match first_message(stdout, 0) {
        Some(m) => m,
        None => if lines(stderr).len() > 0 {
            trim(lines(stderr)[0])
        } else {
            "permission denied"@
        },
    }
}

/// The first smartctl message at or after `i` that has a text.
pub open spec fn first_message(stdout: Seq<char>, i: nat) -> Option<Seq<char>>
    decreases (match crate::doc::json_len_at(stdout, "/smartctl/messages"@) {
        Some(n) => n as int,
        None => 0,
    }) - i,
{
    match crate::doc::json_len_at(stdout, "/smartctl/messages"@) {
        None => None,
        Some(n) => if i >= n {
            None
        } else {
            match crate::doc::json_str_at(
                stdout,
                "/smartctl/messages/"@ + crate::text::dec(i) + "/string"@,
            ) {
                Some(m) => Some(m),
                None => first_message(stdout, i + 1),
            }
        },
    }
}

pub fn smartctl_error(stdout: &str, stderr: &str) -> (e: String)
    ensures
        e@ == smartctl_error_of(stdout@, stderr@),
{
    proof {
        reveal_strlit("/smartctl/messages");
    }
    let mut i: usize = 0;
    match crate::doc::json_len(stdout, "/smartctl/messages") {
        None => {},
        Some(n) => {
            while i < n
                invariant
                    i <= n,
                    crate::doc::json_len_at(stdout@, "/smartctl/messages"@) == Some(n),
                    first_message(stdout@, 0) == first_message(stdout@, i as nat),
                decreases n - i,
            {
                let mut p = lit("/smartctl/messages/");
                crate::text::push_dec(&mut p, i as u64);
                crate::text::extend(&mut p, &lit("/string"));
                let ps = string_of(&p);
                assert(ps@ == "/smartctl/messages/"@ + crate::text::dec(i as nat) + "/string"@);
                match crate::doc::json_str(stdout, ps.as_str()) {
                    Some(m) => {
                        return m;
                    },
                    None => {},
                }
                i += 1;
            }
        },
    }
    let ls = lines_of(stderr);
    if ls.len() > 0 {
        assert(views(ls@)[0] == ls@[0]@);
        string_of(&trim_vec(&ls[0]))
    } else {
        string_of(&lit("permission denied"))
    }
}

} // verus!
