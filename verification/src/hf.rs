//! Hugging Face: the shapes of its answers, the URLs the monitor asks,
//! and which files of a repository are offered.
use vstd::prelude::*;
use crate::models::{mmproj_name, size_display, format_size, is_mmproj_filename};
use crate::text::{views, chars_of, ends_with, ends_with_exec, extend, hex_char_upper, lit, string_of};

verus! {

pub const HF_API_BASE: &'static str = "https://huggingface.co";

#[derive(Debug, Clone)]
pub struct HfRepo {
    pub id: String,
    pub downloads: u64,
    pub likes: u64,
}

#[derive(Debug, Clone)]
pub struct HfFile {
    pub filename: String,
    pub size_bytes: u64,
    pub size_display: String,
    pub is_mmproj: bool,
}

#[derive(Debug, Clone, Default)]
pub struct HfRepoInfo {
    pub downloads: u64,
    pub last_modified: Option<String>,
}

#[derive(Debug, Clone, Default)]
pub struct DownloadProgress {
    pub repo: String,
    /// The file currently transferring.
    pub filename: String,
    pub downloaded_bytes: u64,
    pub total_bytes: u64,
    /// 1-based position of `filename` in the job, and the job's length,
    /// so the UI can show "2 / 2" when a companion projector follows.
    pub file_index: usize,
    pub file_count: usize,
    /// Final on-disk paths of the files completed so far.
    pub completed_paths: Vec<String>,
    pub done: bool,
    /// Unix seconds when `done` became true.
    pub done_at: Option<u64>,
    pub error: Option<String>,
}

/// The UTF-8 bytes of `c`.
pub open spec fn utf8_bytes(c: char) -> Seq<u8> {
    let u = c as u32;
    if u < 0x80 {
        seq![u as u8]
    } else if u < 0x800 {
        seq![(0xC0 + u / 64) as u8, (0x80 + u % 64) as u8]
    } else if u < 0x10000 {
        seq![(0xE0 + u / 4096) as u8, (0x80 + (u / 64) % 64) as u8, (0x80 + u % 64) as u8]
    } else {
        seq![
            (0xF0 + u / 262144) as u8,
            (0x80 + (u / 4096) % 64) as u8,
            (0x80 + (u / 64) % 64) as u8,
            (0x80 + u % 64) as u8,
        ]
    }
}

/// Characters a URL query keeps as they are.
pub open spec fn unreserved(b: u8) -> bool {
    (0x41 <= b <= 0x5A) || (0x61 <= b <= 0x7A) || (0x30 <= b <= 0x39) || b == 0x2D || b == 0x5F
        || b == 0x2E || b == 0x7E
}

/// One byte percent-encoded: unreserved bytes as themselves, a space as
/// `%20`, anything else as `%` and two upper-case hex digits.
pub open spec fn encode_byte(b: u8) -> Seq<char> {
    if unreserved(b) {
        seq![b as char]
    } else if b == 0x20 {
        "%20"@
    } else {
        seq!['%', hex_char_upper((b / 16) as nat), hex_char_upper((b % 16) as nat)]
    }
}

pub open spec fn encode_bytes(bs: Seq<u8>) -> Seq<char>
    decreases bs.len(),
{
    if bs.len() == 0 {
        seq![]
    } else {
        encode_bytes(bs.drop_last()) + encode_byte(bs.last())
    }
}

/// The UTF-8 bytes of `s`.
pub open spec fn utf8_of(s: Seq<char>) -> Seq<u8>
    decreases s.len(),
{
    if s.len() == 0 {
        seq![]
    } else {
        utf8_of(s.drop_last()) + utf8_bytes(s.last())
    }
}

/// `s` percent-encoded for a URL query.
pub open spec fn percent_encoded(s: Seq<char>) -> Seq<char> {
    encode_bytes(utf8_of(s))
}

pub proof fn lemma_encode_bytes_append(a: Seq<u8>, b: Seq<u8>)
    ensures
        encode_bytes(a + b) == encode_bytes(a) + encode_bytes(b),
    decreases b.len(),
{
    if b.len() == 0 {
        assert(a + b =~= a);
        assert(encode_bytes(a) + encode_bytes(b) =~= encode_bytes(a));
    } else {
        lemma_encode_bytes_append(a, b.drop_last());
        assert((a + b).drop_last() =~= a + b.drop_last());
        assert((a + b).last() == b.last());
        assert(encode_bytes(a + b) =~= encode_bytes(a) + encode_bytes(b.drop_last()) + encode_byte(
            b.last(),
        ));
    }
}

fn utf8_bytes_exec(c: char) -> (v: Vec<u8>)
    ensures
        v@ == utf8_bytes(c),
{
    let u = c as u32;
    let v = if u < 0x80 {
        vec![u as u8]
    } else if u < 0x800 {
        vec![(0xC0 + u / 64) as u8, (0x80 + u % 64) as u8]
    } else if u < 0x10000 {
        vec![(0xE0 + u / 4096) as u8, (0x80 + (u / 64) % 64) as u8, (0x80 + u % 64) as u8]
    } else {
        vec![
            (0xF0 + u / 262144) as u8,
            (0x80 + (u / 4096) % 64) as u8,
            (0x80 + (u / 64) % 64) as u8,
            (0x80 + u % 64) as u8,
        ]
    };
    assert(v@ =~= utf8_bytes(c));
    v
}

fn hex_upper_char(d: u8) -> (c: char)
    requires
        d < 16,
    ensures
        c == hex_char_upper(d as nat),
{
    if d < 10 {
        (48u8 + d) as char
    } else {
        (55u8 + d) as char
    }
}

fn encode_byte_exec(out: &mut Vec<char>, b: u8)
    ensures
        final(out)@ == old(out)@ + encode_byte(b),
{
    if (0x41 <= b && b <= 0x5A) || (0x61 <= b && b <= 0x7A) || (0x30 <= b && b <= 0x39) || b == 0x2D
        || b == 0x5F || b == 0x2E || b == 0x7E {
        out.push(b as char);
    } else if b == 0x20 {
        extend(out, &lit("%20"));
    } else {
        out.push('%');
        out.push(hex_upper_char(b / 16));
        out.push(hex_upper_char(b % 16));
    }
    assert(out@ =~= old(out)@ + encode_byte(b));
}

pub fn percent_encode(s: &str) -> (out: String)
    ensures
        out@ == percent_encoded(s@),
{
    let cs = chars_of(s);
    let mut out: Vec<char> = Vec::new();
    let mut i: usize = 0;
    while i < cs.len()
        invariant
            i <= cs.len(),
            cs@ == s@,
            out@ == encode_bytes(utf8_of(cs@.take(i as int))),
        decreases cs.len() - i,
    {
        let bs = utf8_bytes_exec(cs[i]);
        let ghost before = out@;
        let mut k: usize = 0;
        while k < bs.len()
            invariant
                k <= bs.len(),
                out@ == before + encode_bytes(bs@.take(k as int)),
            decreases bs.len() - k,
        {
            encode_byte_exec(&mut out, bs[k]);
            assert(bs@.take(k + 1).drop_last() =~= bs@.take(k as int));
            k += 1;
        }
        proof {
            assert(bs@.take(bs.len() as int) =~= bs@);
            assert(cs@.take(i + 1).drop_last() =~= cs@.take(i as int));
            lemma_encode_bytes_append(utf8_of(cs@.take(i as int)), bs@);
        }
        i += 1;
    }
    assert(cs@.take(cs.len() as int) =~= cs@);
    string_of(&out)
}

/// The search the model browser runs: GGUF repositories matching `query`,
/// most downloaded first.
pub fn search_url(query: &str) -> (u: String)
    ensures
        u@ == HF_API_BASE@ + "/api/models?search="@ + percent_encoded(query@)
            + "&filter=gguf&limit=20&sort=downloads&direction=-1"@,
{
    let mut v = lit(HF_API_BASE);
    extend(&mut v, &lit("/api/models?search="));
    extend(&mut v, &lit(percent_encode(query).as_str()));
    extend(&mut v, &lit("&filter=gguf&limit=20&sort=downloads&direction=-1"));
    string_of(&v)
}

pub fn repo_info_url(repo_id: &str) -> (u: String)
    ensures
        u@ == HF_API_BASE@ + "/api/models/"@ + repo_id@,
{
    let mut v = lit(HF_API_BASE);
    extend(&mut v, &lit("/api/models/"));
    extend(&mut v, &lit(repo_id));
    string_of(&v)
}

pub fn tree_url(repo_id: &str) -> (u: String)
    ensures
        u@ == HF_API_BASE@ + "/api/models/"@ + repo_id@ + "/tree/main"@,
{
    let mut v = lit(HF_API_BASE);
    extend(&mut v, &lit("/api/models/"));
    extend(&mut v, &lit(repo_id));
    extend(&mut v, &lit("/tree/main"));
    string_of(&v)
}

pub fn download_url(repo_id: &str, filename: &str) -> (u: String)
    ensures
        u@ == HF_API_BASE@ + "/"@ + repo_id@ + "/resolve/main/"@ + filename@ + "?download=true"@,
{
    let mut v = lit(HF_API_BASE);
    extend(&mut v, &lit("/"));
    extend(&mut v, &lit(repo_id));
    extend(&mut v, &lit("/resolve/main/"));
    extend(&mut v, &lit(filename));
    extend(&mut v, &lit("?download=true"));
    string_of(&v)
}

/// One entry of a repository's file tree.
#[derive(Debug, Clone)]
pub struct TreeEntry {
    pub entry_type: String,
    pub path: String,
    pub size: u64,
    /// The LFS object's size, when the entry has one.
    pub lfs_size: Option<u64>,
}

/// The file the model browser offers for a tree entry: GGUF files only,
/// sized by their LFS object when it reports a size.
pub open spec fn offered(e: TreeEntry) -> Option<(Seq<char>, u64, Seq<char>, bool)> {
    if e.entry_type@ == "file"@ && ends_with(e.path@, ".gguf"@) {
        let size = match e.lfs_size {
            Some(s) => if s > 0 {
                s
            } else {
                e.size
            },
            None => e.size,
        };
        Some((e.path@, size, size_display(size as nat), mmproj_name(e.path@)))
    } else {
        None
    }
}

pub open spec fn file_view(f: HfFile) -> (Seq<char>, u64, Seq<char>, bool) {
    (f.filename@, f.size_bytes, f.size_display@, f.is_mmproj)
}

pub fn offered_file(e: &TreeEntry) -> (r: Option<HfFile>)
    ensures
        match r {
            Some(f) => offered(*e) == Some(file_view(f)),
            None => offered(*e) is None,
        },
{
    if !(crate::text::vec_eq(&chars_of(e.entry_type.as_str()), &lit("file")) && ends_with_exec(
        &chars_of(e.path.as_str()),
        &lit(".gguf"),
    )) {
        return None;
    }
    let size = match e.lfs_size {
        Some(s) => if s > 0 {
            s
        } else {
            e.size
        },
        None => e.size,
    };
    Some(
        HfFile {
            filename: e.path.clone(),
            size_bytes: size,
            size_display: format_size(size),
            is_mmproj: is_mmproj_filename(e.path.as_str()),
        },
    )
}


/// The files a repository offers, in tree order.
pub open spec fn offered_files(entries: Seq<TreeEntry>) -> Seq<(Seq<char>, u64, Seq<char>, bool)>
    decreases entries.len(),
{
    if entries.len() == 0 {
        seq![]
    } else {
        match offered(entries.last()) {
            Some(f) => offered_files(entries.drop_last()).push(f),
            None => offered_files(entries.drop_last()),
        }
    }
}

impl HfFile {
    /// A copy.
    pub fn duplicate(&self) -> (f: HfFile)
        ensures
            file_view(f) == file_view(*self),
    {
        HfFile {
            filename: self.filename.clone(),
            size_bytes: self.size_bytes,
            size_display: self.size_display.clone(),
            is_mmproj: self.is_mmproj,
        }
    }
}

pub open spec fn file_names(files: Seq<(Seq<char>, u64, Seq<char>, bool)>) -> Seq<Seq<char>> {
    files.map_values(|f: (Seq<char>, u64, Seq<char>, bool)| f.0)
}

/// The GGUF files of a repository's tree, sorted by filename (a stable
/// sort of `offered_files`).
pub fn list_gguf_files(entries: &[TreeEntry]) -> (out: Vec<HfFile>)
    ensures
        ({
            let files = offered_files(entries@);
            exists|order: Seq<usize>|
                #![trigger crate::order::stable_order(file_names(files), order)]
                crate::order::stable_order(file_names(files), order)
                && out@.len() == files.len() && forall|i: int|
                0 <= i < out@.len() ==> file_view(#[trigger] out@[i]) == files[order[i] as int]
        }),
{
    let mut files: Vec<HfFile> = Vec::new();
    let mut i: usize = 0;
    while i < entries.len()
        invariant
            i <= entries.len(),
            files@.map_values(|f: HfFile| file_view(f)) == offered_files(entries@.take(i as int)),
        decreases entries.len() - i,
    {
        let ghost t = entries@.take(i + 1);
        assert(t.drop_last() =~= entries@.take(i as int));
        assert(t.last() == entries@[i as int]);
        let ghost before = files@;
        match offered_file(&entries[i]) {
            Some(f) => {
                files.push(f);
                assert(files@.map_values(|f: HfFile| file_view(f)) =~= before.map_values(
                    |f: HfFile| file_view(f),
                ).push(file_view(f)));
            },
            None => {},
        }
        i += 1;
    }
    assert(entries@.take(entries.len() as int) =~= entries@);
    let ghost fv = files@.map_values(|f: HfFile| file_view(f));
    let mut keys: Vec<Vec<char>> = Vec::new();
    let mut k: usize = 0;
    while k < files.len()
        invariant
            k <= files.len(),
            fv == files@.map_values(|f: HfFile| file_view(f)),
            views(keys@) == file_names(fv.take(k as int)),
        decreases files.len() - k,
    {
        let ghost before = keys@;
        keys.push(chars_of(files[k].filename.as_str()));
        assert(views(keys@) =~= views(before).push(fv[k as int].0));
        assert(file_names(fv.take(k + 1)) =~= file_names(fv.take(k as int)).push(fv[k as int].0));
        k += 1;
    }
    assert(fv.take(files.len() as int) =~= fv);
    let order = crate::order::sorted_order(&keys);
    let mut out: Vec<HfFile> = Vec::new();
    let mut j: usize = 0;
    while j < order.len()
        invariant
            j <= order.len(),
            order.len() == files.len(),
            fv == files@.map_values(|f: HfFile| file_view(f)),
            crate::order::stable_order(views(keys@), order@),
            views(keys@) == file_names(fv),
            out@.len() == j,
            forall|a: int| 0 <= a < j ==> file_view(#[trigger] out@[a]) == fv[order@[a] as int],
        decreases order.len() - j,
    {
        assert(order@[j as int] < files.len());
        out.push(files[order[j]].duplicate());
        j += 1;
    }
    out
}


impl DownloadProgress {
    /// The progress of a job fetching `filenames` from `repo`: at the
    /// first file, nothing transferred yet.
    pub fn started(repo: &str, filenames: &[String]) -> (p: DownloadProgress)
        ensures
            p.repo@ == repo@,
            p.filename@ == (if filenames@.len() > 0 {
                filenames@[0]@
            } else {
                Seq::<char>::empty()
            }),
            p.file_index == 1,
            p.file_count == filenames@.len(),
            p.downloaded_bytes == 0,
            p.total_bytes == 0,
            p.completed_paths@.len() == 0,
            !p.done,
            p.done_at is None,
            p.error is None,
    {
        DownloadProgress {
            repo: string_of(&chars_of(repo)),
            filename: if filenames.len() > 0 {
                filenames[0].clone()
            } else {
                String::new()
            },
            downloaded_bytes: 0,
            total_bytes: 0,
            file_index: 1,
            file_count: filenames.len(),
            completed_paths: Vec::new(),
            done: false,
            done_at: None,
            error: None,
        }
    }

    /// Moves on to the `i`-th file (0-based) of the job.
    pub fn file_started(&mut self, i: usize, filename: &str)
        requires
            i < usize::MAX,
        ensures
            final(self).filename@ == filename@,
            final(self).file_index == i + 1,
            final(self).downloaded_bytes == 0,
            final(self).total_bytes == 0,
            final(self).repo == old(self).repo,
            final(self).file_count == old(self).file_count,
            final(self).completed_paths == old(self).completed_paths,
            final(self).done == old(self).done,
            final(self).done_at == old(self).done_at,
            final(self).error == old(self).error,
    {
        self.filename = string_of(&chars_of(filename));
        self.file_index = i + 1;
        self.downloaded_bytes = 0;
        self.total_bytes = 0;
    }

    /// Records a completed file's final path.
    pub fn file_done(&mut self, path: String)
        ensures
            final(self).completed_paths@ == old(self).completed_paths@.push(path),
            final(self).filename == old(self).filename,
            final(self).file_index == old(self).file_index,
            final(self).downloaded_bytes == old(self).downloaded_bytes,
            final(self).total_bytes == old(self).total_bytes,
            final(self).repo == old(self).repo,
            final(self).file_count == old(self).file_count,
            final(self).done == old(self).done,
            final(self).done_at == old(self).done_at,
            final(self).error == old(self).error,
    {
        self.completed_paths.push(path);
    }

    /// Ends the job at Unix time `now`, with the error that stopped it, if
    /// one did.
    pub fn finished(&mut self, error: Option<String>, now: u64)
        ensures
            final(self).done,
            final(self).done_at == Some(now),
            final(self).error == (match error {
                Some(e) => Some(e),
                None => old(self).error,
            }),
            final(self).completed_paths == old(self).completed_paths,
            final(self).filename == old(self).filename,
            final(self).file_index == old(self).file_index,
            final(self).downloaded_bytes == old(self).downloaded_bytes,
            final(self).total_bytes == old(self).total_bytes,
            final(self).repo == old(self).repo,
            final(self).file_count == old(self).file_count,
    {
        self.done = true;
        self.done_at = Some(now);
        if let Some(e) = error {
            self.error = Some(e);
        }
    }
}

} // verus!
