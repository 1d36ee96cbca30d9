//! `nvidia-smi --query-gpu=... --format=csv,noheader,nounits` rows. The
//! floating-point columns are kept as text for the caller to read.
use vstd::prelude::*;
use crate::gpu::{keys_view, numbers_exhausted, unique_card_key, unique_key};
use crate::text::{
    lines, lines_of, parse_uint, parse_uint_exec, split_char, split_char_exec, string_of, trim,
    trim_vec, views,
};

verus! {

/// One card's row, keyed by its (made unique) name.
#[derive(Debug, Clone, PartialEq)]
pub struct NvidiaRow {
    pub key: String,
    pub temp: String,
    pub load: u32,
    pub power_draw: String,
    pub power_limit: String,
    /// MiB.
    pub vram_used: u64,
    /// MiB.
    pub vram_total: u64,
    pub sclk_mhz: u32,
    pub mclk_mhz: u32,
}

pub struct RowView {
    pub key: Seq<char>,
    pub temp: Seq<char>,
    pub load: nat,
    pub power_draw: Seq<char>,
    pub power_limit: Seq<char>,
    pub vram_used: nat,
    pub vram_total: nat,
    pub sclk_mhz: nat,
    pub mclk_mhz: nat,
}

impl NvidiaRow {
    pub open spec fn view(&self) -> RowView {
        RowView {
            key: self.key@,
            temp: self.temp@,
            load: self.load as nat,
            power_draw: self.power_draw@,
            power_limit: self.power_limit@,
            vram_used: self.vram_used as nat,
            vram_total: self.vram_total as nat,
            sclk_mhz: self.sclk_mhz as nat,
            mclk_mhz: self.mclk_mhz as nat,
        }
    }
}

pub open spec fn rows_view(v: Seq<NvidiaRow>) -> Seq<RowView> {
    v.map_values(|r: NvidiaRow| r.view())
}

/// The comma-separated fields of a line, each trimmed.
pub open spec fn csv_fields(line: Seq<char>) -> Seq<Seq<char>> {
    split_char(trim(line), ',').map_values(|f: Seq<char>| trim(f))
}

/// A number column; 0 when it does not parse.
pub open spec fn num_or_zero(f: Seq<char>, max: nat) -> nat {
    match parse_uint(f, max) {
        Some(n) => n,
        None => 0,
    }
}

pub open spec fn row_of(f: Seq<Seq<char>>, key: Seq<char>) -> RowView {
    RowView {
        key: key,
        temp: f[2],
        load: num_or_zero(f[3], u32::MAX as nat),
        power_draw: f[4],
        power_limit: f[5],
        vram_used: num_or_zero(f[6], u64::MAX as nat),
        vram_total: num_or_zero(f[7], u64::MAX as nat),
        sclk_mhz: num_or_zero(f[8], u32::MAX as nat),
        mclk_mhz: num_or_zero(f[9], u32::MAX as nat),
    }
}

pub open spec fn row_keys(rows: Seq<RowView>) -> Seq<Seq<char>> {
    rows.map_values(|r: RowView| r.key)
}

/// The rows of `ls`: blank lines and lines with fewer than ten fields are
/// skipped; each card is keyed by its name, made unique against the cards
/// before it. Nothing when a name ran out of numbers.
pub open spec fn csv_rows(ls: Seq<Seq<char>>) -> Option<Seq<RowView>>
    decreases ls.len(),
{
    if ls.len() == 0 {
        Some(seq![])
    } else {
        match csv_rows(ls.drop_last()) {
            None => None,
            Some(rows) => {
                let f = csv_fields(ls.last());
                if trim(ls.last()).len() == 0 || f.len() < 10 {
                    Some(rows)
                } else if numbers_exhausted(row_keys(rows), f[1]) {
                    None
                } else {
                    Some(rows.push(row_of(f, unique_key(row_keys(rows), f[1]))))
                }
            },
        }
    }
}

fn num_or_zero_exec(f: &Vec<char>, max: u64) -> (n: u64)
    requires
        max >= 9,
    ensures
        n == num_or_zero(f@, max as nat),
        n <= max,
{
    match parse_uint_exec(f, max) {
        Some(n) => n,
        None => 0,
    }
}

/// Parses `nvidia-smi` CSV output into one row per card.
pub fn parse_nvidia_csv(csv: &str) -> (out: Vec<NvidiaRow>)
    requires
        csv_rows(lines(csv@)) is Some,
    ensures
        csv_rows(lines(csv@)) == Some(rows_view(out@)),
{
    let ls = lines_of(csv);
    let ghost lv = views(ls@);
    let mut out: Vec<NvidiaRow> = Vec::new();
    let mut keys: Vec<String> = Vec::new();
    let mut i: usize = 0;
    while i < ls.len()
        invariant
            i <= ls.len(),
            lv == views(ls@),
            lv == lines(csv@),
            csv_rows(lv) is Some,
            csv_rows(lv.take(i as int)) == Some(rows_view(out@)),
            keys_view(keys@) == row_keys(rows_view(out@)),
        decreases ls.len() - i,
    {
        let ghost t = lv.take(i + 1);
        assert(t.drop_last() =~= lv.take(i as int));
        assert(t.last() == ls@[i as int]@);
        proof {
            lemma_rows_prefix(lv, i + 1);
        }
        let line = trim_vec(&ls[i]);
        let parts = split_char_exec(&line, ',');
        let mut f: Vec<Vec<char>> = Vec::new();
        let mut k: usize = 0;
        while k < parts.len()
            invariant
                k <= parts.len(),
                views(f@) == views(parts@).take(k as int).map_values(|x: Seq<char>| trim(x)),
            decreases parts.len() - k,
        {
            let ghost before = f@;
            let tk = trim_vec(&parts[k]);
            f.push(tk);
            assert(views(f@) =~= views(before).push(tk@));
            assert(views(parts@)[k as int] == parts@[k as int]@);
            assert(views(parts@).take(k + 1).map_values(|x: Seq<char>| trim(x)) =~= views(
                parts@,
            ).take(k as int).map_values(|x: Seq<char>| trim(x)).push(trim(parts@[k as int]@)));
            k += 1;
        }
        assert(views(parts@).take(parts.len() as int) =~= views(parts@));
        assert(views(f@) =~= csv_fields(lv[i as int]));
        if line.len() > 0 && f.len() >= 10 {
            let ghost rows = rows_view(out@);
            let name = string_of(&f[1]);
            assert(name@ == csv_fields(lv[i as int])[1]);
            let key = unique_card_key(keys.as_slice(), name.as_str());
            let row = NvidiaRow {
                key: key.clone(),
                temp: string_of(&f[2]),
                load: num_or_zero_exec(&f[3], u32::MAX as u64) as u32,
                power_draw: string_of(&f[4]),
                power_limit: string_of(&f[5]),
                vram_used: num_or_zero_exec(&f[6], u64::MAX),
                vram_total: num_or_zero_exec(&f[7], u64::MAX),
                sclk_mhz: num_or_zero_exec(&f[8], u32::MAX as u64) as u32,
                mclk_mhz: num_or_zero_exec(&f[9], u32::MAX as u64) as u32,
            };
            let ghost kb = keys@;
            keys.push(key);
            out.push(row);
            proof {
                assert(rows_view(out@) =~= rows.push(row.view()));
                assert(keys_view(keys@) =~= keys_view(kb).push(row.view().key));
                assert(row_keys(rows_view(out@)) =~= row_keys(rows).push(row.view().key));
            }
        }
        i += 1;
    }
    assert(lv.take(ls.len() as int) =~= lv);
    out
}

/// Once the rows run out of numbers they stay so.
pub proof fn lemma_rows_prefix(ls: Seq<Seq<char>>, i: int)
    requires
        0 <= i <= ls.len(),
        csv_rows(ls) is Some,
    ensures
        csv_rows(ls.take(i)) is Some,
    decreases ls.len() - i,
{
    if i < ls.len() {
        lemma_rows_prefix(ls, i + 1);
        assert(ls.take(i + 1).drop_last() =~= ls.take(i));
    } else {
        assert(ls.take(i) =~= ls);
    }
}


/// Every card gets its own key: two identical cards are both kept rather
/// than one overwriting the other.
pub proof fn law_row_keys_distinct(ls: Seq<Seq<char>>)
    requires
        csv_rows(ls) is Some,
    ensures
        forall|i: int, j: int|
            0 <= i < j < csv_rows(ls)->0.len() ==> #[trigger] csv_rows(ls)->0[i].key
                != #[trigger] csv_rows(ls)->0[j].key,
    decreases ls.len(),
{
    if ls.len() > 0 {
        law_row_keys_distinct(ls.drop_last());
        let rows = csv_rows(ls.drop_last())->0;
        let f = csv_fields(ls.last());
        if !(trim(ls.last()).len() == 0 || f.len() < 10) {
            let keys = row_keys(rows);
            crate::gpu::lemma_unique_key_free(keys, f[1]);
            let new = csv_rows(ls)->0;
            assert forall|i: int, j: int| 0 <= i < j < new.len() implies #[trigger] new[i].key
                != #[trigger] new[j].key by {
                if j == new.len() - 1 {
                    assert(keys[i] == rows[i].key);
                    assert(keys.contains(rows[i].key));
                }
            }
        }
    }
}


/// Rows never outnumber lines.
proof fn lemma_rows_len(ls: Seq<Seq<char>>)
    requires
        ls.len() < 0x7fff_fffe,
    ensures
        csv_rows(ls) is Some,
        csv_rows(ls)->0.len() <= ls.len(),
    decreases ls.len(),
{
    if ls.len() > 0 {
        lemma_rows_len(ls.drop_last());
        let rows = csv_rows(ls.drop_last())->0;
        let f = csv_fields(ls.last());
        if !(trim(ls.last()).len() == 0 || f.len() < 10) {
            crate::gpu::lemma_keys_leave_room(row_keys(rows), f[1]);
        }
    }
}

/// A quick test that `parse_nvidia_csv` can key every row: true whenever
/// the text has fewer lines than the key counter has numbers.
pub fn nvidia_csv_in_range(csv: &str) -> (b: bool)
    ensures
        b ==> csv_rows(lines(csv@)) is Some,
        b == (lines(csv@).len() < 0x7fff_fffe),
{
    let ls = lines_of(csv);
    proof {
        if ls.len() < 0x7fff_fffe {
            lemma_rows_len(views(ls@));
        }
    }
    ls.len() < 0x7fff_fffe
}

} // verus!
