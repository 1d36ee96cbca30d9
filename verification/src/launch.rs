//! Where a llama-server launch runs, and which offload devices the build
//! offers (`llama-server --list-devices`).
use vstd::prelude::*;
use crate::builds::{InstalledBuild, first_build, installed_build, safe_build_id};
use crate::text::{
    char_pos, chars_of, contains, contains_exec, copy_vec, ends_with, ends_with_exec, extend,
    find, find_exec, lines, lines_of, lit, parse_uint, parse_uint_exec, rsplit_once,
    rsplit_once_exec, slice_of, split_char, split_char_exec, split_once, split_once_exec,
    starts_with, starts_with_exec, string_of, trim, trim_vec, views, replace_all,
    replace_all_exec,
};

verus! {

/// One offload device as printed by `llama-server --list-devices`.
#[derive(Debug, Clone, PartialEq)]
pub struct GgmlDevice {
    pub id: String,
    pub name: String,
    pub total_mib: Option<u64>,
    pub free_mib: Option<u64>,
}

pub struct DeviceView {
    pub id: Seq<char>,
    pub name: Seq<char>,
    pub total_mib: Option<nat>,
    pub free_mib: Option<nat>,
}

pub open spec fn opt_nat(o: Option<u64>) -> Option<nat> {
    match o {
        Some(n) => Some(n as nat),
        None => None,
    }
}

impl GgmlDevice {
    pub open spec fn view(&self) -> DeviceView {
        DeviceView {
            id: self.id@,
            name: self.name@,
            total_mib: opt_nat(self.total_mib),
            free_mib: opt_nat(self.free_mib),
        }
    }
}

/// `str::trim_end_matches` with a character.
pub open spec fn trim_end_char(s: Seq<char>, c: char) -> Seq<char>
    decreases s.len(),
{
    if s.len() > 0 && s.last() == c {
        trim_end_char(s.drop_last(), c)
    } else {
        s
    }
}

/// The numbers that start the comma-separated parts, e.g. 16368 and 16000
/// in "16368 MiB, 16000 MiB free".
pub open spec fn leading_numbers(parts: Seq<Seq<char>>) -> Seq<nat>
    decreases parts.len(),
{
    if parts.len() == 0 {
        seq![]
    } else {
        let before = leading_numbers(parts.drop_last());
        let t = trim(parts.last());
        match parse_uint(t.take(char_pos(t, ' ') as int), u64::MAX as nat) {
            Some(n) => before.push(n),
            None => before,
        }
    }
}

/// The device a `--list-devices` line describes, e.g.
/// `  Vulkan1: NVIDIA GeForce RTX 3080 (10240 MiB, 9800 MiB free)`. Device
/// lines are indented; backend chatter and the header are not.
pub open spec fn device_of(raw: Seq<char>) -> Option<DeviceView> {
    if !starts_with(raw, "  "@) {
        None
    } else {
        match split_once(trim(raw), ": "@) {
            None => None,
            Some(ir) => {
                let (id, rest) = ir;
                if contains(id, " "@) || id.len() == 0 {
                    None
                } else {
                    let (name, mem) = match rsplit_once(rest, " ("@) {
                        Some(nm) => if ends_with(nm.1, ")"@) {
                            (nm.0, trim_end_char(nm.1, ')'))
                        } else {
                            (rest, seq![])
                        },
                        None => (rest, seq![]),
                    };
                    let nums = leading_numbers(split_char(mem, ','));
                    Some(
                        DeviceView {
                            id: id,
                            name: trim(name),
                            total_mib: if nums.len() > 0 {
                                Some(nums[0])
                            } else {
                                None
                            },
                            free_mib: if nums.len() > 1 {
                                Some(nums[1])
                            } else {
                                None
                            },
                        },
                    )
                }
            },
        }
    }
}

pub open spec fn device_list(ls: Seq<Seq<char>>) -> Seq<DeviceView>
    decreases ls.len(),
{
    if ls.len() == 0 {
        seq![]
    } else {
        let before = device_list(ls.drop_last());
        match device_of(ls.last()) {
            Some(d) => before.push(d),
            None => before,
        }
    }
}

pub open spec fn devices_view(v: Seq<GgmlDevice>) -> Seq<DeviceView> {
    v.map_values(|d: GgmlDevice| d.view())
}

fn trim_end_char_exec(v: &Vec<char>, c: char) -> (out: Vec<char>)
    ensures
        out@ == trim_end_char(v@, c),
{
    let mut k = v.len();
    assert(v@.take(k as int) =~= v@);
    while k > 0 && v[k - 1] == c
        invariant
            k <= v.len(),
            trim_end_char(v@, c) == trim_end_char(v@.take(k as int), c),
        decreases k,
    {
        assert(v@.take(k as int).drop_last() =~= v@.take(k - 1));
        k -= 1;
    }
    slice_of(v, 0, k)
}

fn leading_numbers_exec(parts: &Vec<Vec<char>>) -> (out: Vec<u64>)
    ensures
        out@.map_values(|x: u64| x as nat) == leading_numbers(views(parts@)),
{
    let mut out: Vec<u64> = Vec::new();
    let mut i: usize = 0;
    while i < parts.len()
        invariant
            i <= parts.len(),
            out@.map_values(|x: u64| x as nat) == leading_numbers(views(parts@).take(i as int)),
        decreases parts.len() - i,
    {
        let ghost t = views(parts@).take(i + 1);
        assert(t.drop_last() =~= views(parts@).take(i as int));
        assert(t.last() == parts@[i as int]@);
        let tp = trim_vec(&parts[i]);
        let mut e: usize = 0;
        while e < tp.len() && tp[e] != ' '
            invariant
                e <= tp.len(),
                forall|j: int| 0 <= j < e ==> tp@[j] != ' ',
            decreases tp.len() - e,
        {
            e += 1;
        }
        proof {
            crate::text::lemma_char_pos_at(tp@, ' ', e as int);
        }
        let first = slice_of(&tp, 0, e);
        assert(first@ =~= tp@.take(e as int));
        let ghost before = out@;
        match parse_uint_exec(&first, u64::MAX) {
            Some(n) => {
                out.push(n);
                assert(out@.map_values(|x: u64| x as nat) =~= before.map_values(
                    |x: u64| x as nat,
                ).push(n as nat));
            },
            None => {},
        }
        i += 1;
    }
    assert(views(parts@).take(parts.len() as int) =~= views(parts@));
    out
}

fn device_of_exec(raw: &Vec<char>) -> (r: Option<GgmlDevice>)
    ensures
        r matches Some(d) ==> device_of(raw@) == Some(d.view()),
        r is None ==> device_of(raw@) is None,
{
    if !starts_with_exec(raw, &lit("  ")) {
        return None;
    }
    let (id, rest) = match split_once_exec(&trim_vec(raw), &lit(": ")) {
        Some(ir) => ir,
        None => {
            return None;
        },
    };
    if contains_exec(&id, &lit(" ")) || id.len() == 0 {
        return None;
    }
    let (name, mem): (Vec<char>, Vec<char>) = match rsplit_once_exec(&rest, &lit(" (")) {
        Some(nm) => {
            if ends_with_exec(&nm.1, &lit(")")) {
                let m = trim_end_char_exec(&nm.1, ')');
                (nm.0, m)
            } else {
                (copy_vec(&rest), Vec::new())
            }
        },
        None => (copy_vec(&rest), Vec::new()),
    };
    let nums = leading_numbers_exec(&split_char_exec(&mem, ','));
    let ghost ns = nums@.map_values(|x: u64| x as nat);
    let total_mib = if nums.len() > 0 {
        Some(nums[0])
    } else {
        None
    };
    let free_mib = if nums.len() > 1 {
        Some(nums[1])
    } else {
        None
    };
    let d = GgmlDevice {
        id: string_of(&id),
        name: string_of(&trim_vec(&name)),
        total_mib,
        free_mib,
    };
    proof {
        if nums.len() > 0 {
            assert(ns[0] == nums@[0] as nat);
        }
        if nums.len() > 1 {
            assert(ns[1] == nums@[1] as nat);
        }
    }
    Some(d)
}

/// Parses `--list-devices` output: lines like
/// `  Vulkan1: NVIDIA GeForce RTX 3080 (10240 MiB, 9800 MiB free)`.
pub fn parse_device_list(text: &str) -> (out: Vec<GgmlDevice>)
    ensures
        devices_view(out@) == device_list(lines(text@)),
{
    let ls = lines_of(text);
    let ghost lv = views(ls@);
    let mut out: Vec<GgmlDevice> = Vec::new();
    let mut i: usize = 0;
    while i < ls.len()
        invariant
            i <= ls.len(),
            lv == views(ls@),
            devices_view(out@) == device_list(lv.take(i as int)),
        decreases ls.len() - i,
    {
        let ghost t = lv.take(i + 1);
        assert(t.drop_last() =~= lv.take(i as int));
        assert(t.last() == ls@[i as int]@);
        let ghost before = out@;
        match device_of_exec(&ls[i]) {
            Some(d) => {
                out.push(d);
                assert(devices_view(out@) =~= devices_view(before).push(d.view()));
            },
            None => {},
        }
        i += 1;
    }
    assert(lv.take(ls.len() as int) =~= lv);
    out
}


/// Where a launch runs: the binary and its working directory.
#[derive(Debug, Clone, PartialEq)]
pub struct LaunchTarget {
    pub binary: String,
    pub cwd: String,
}

/// Why a preset's backend cannot be launched.
#[derive(Debug, Clone, PartialEq)]
pub enum LaunchError {
    /// `build:<id>` names a build that is not installed.
    NotInstalled(String),
    /// The legacy sibling `build-cuda` binary is missing at this path.
    CudaMissing(String),
}

pub open spec fn not_installed_message(id: Seq<char>) -> Seq<char> {
    "the preset uses llama.cpp build "@ + id + ", which is not installed (see Install)"@
}

pub open spec fn cuda_missing_message(path: Seq<char>) -> Seq<char> {
    "CUDA build not found at "@ + path
        + ". Either build it (cmake -B build-cuda -DGGML_CUDA=ON && cmake --build build-cuda --config Release) or rebuild the main binary with -DGGML_CUDA=ON -DGGML_VULKAN=ON and pick CUDA0 under Devices instead."@
}

impl LaunchError {
    pub open spec fn text(&self) -> Seq<char> {
        match self {
            LaunchError::NotInstalled(id) => not_installed_message(id@),
            LaunchError::CudaMissing(p) => cuda_missing_message(p@),
        }
    }

    /// The sentence shown to the user.
    pub fn message(&self) -> (m: String)
        ensures
            m@ == self.text(),
    {
        let v = match self {
            LaunchError::NotInstalled(id) => {
                let mut v = lit("the preset uses llama.cpp build ");
                extend(&mut v, &lit(id.as_str()));
                extend(&mut v, &lit(", which is not installed (see Install)"));
                v
            },
            LaunchError::CudaMissing(p) => {
                let mut v = lit("CUDA build not found at ");
                extend(&mut v, &lit(p.as_str()));
                extend(
                    &mut v,
                    &lit(
                        ". Either build it (cmake -B build-cuda -DGGML_CUDA=ON && cmake --build build-cuda --config Release) or rebuild the main binary with -DGGML_CUDA=ON -DGGML_VULKAN=ON and pick CUDA0 under Devices instead.",
                    ),
                );
                v
            },
        };
        assert(v@ =~= self.text());
        string_of(&v)
    }
}

/// The legacy CUDA binary: the configured one with `/build/bin/` swapped
/// for `/build-cuda/bin/`.
pub open spec fn cuda_path(server_path: Seq<char>) -> Seq<char> {
    replace_all(server_path, "/build/bin/"@, "/build-cuda/bin/"@)
}

pub fn cuda_binary_path(server_path: &str) -> (p: String)
    ensures
        p@ == cuda_path(server_path@),
{
    proof {
        reveal_strlit("/build/bin/");
    }
    string_of(&replace_all_exec(&chars_of(server_path), &lit("/build/bin/"), &lit("/build-cuda/bin/")))
}

/// Where a launch runs, as (binary, working directory), or the error. A
/// preset's backend is one of: "" / "vulkan" / anything else (the
/// configured binary and cwd), "cuda" (the legacy sibling build-cuda
/// tree, when its binary exists), or "build:<id>" for an installed build,
/// which runs inside its own directory so its bundled libraries resolve.
pub open spec fn launch_of(
    backend: Seq<char>,
    server_path: Seq<char>,
    server_cwd: Seq<char>,
    builds: Seq<InstalledBuild>,
    cuda_exists: bool,
) -> Result<(Seq<char>, Seq<char>), LaunchError> {
    if starts_with(backend, "build:"@) {
        let id = backend.skip(6);
        if safe_build_id(id) && first_build(builds, id) is Some {
            let b = builds[first_build(builds, id)->0];
            Ok((b.server_path@, b.dir@))
        } else {
            Err(LaunchError::NotInstalled(id_string(id)))
        }
    } else if backend != "cuda"@ {
        Ok((server_path, server_cwd))
    } else if cuda_exists {
        Ok((cuda_path(server_path), server_cwd))
    } else {
        Err(LaunchError::CudaMissing(id_string(cuda_path(server_path))))
    }
}

/// Some `String` holding `s`.
pub open spec fn id_string(s: Seq<char>) -> String {
    choose|t: String| t@ == s
}

pub open spec fn launch_result_matches(
    r: Result<LaunchTarget, LaunchError>,
    want: Result<(Seq<char>, Seq<char>), LaunchError>,
) -> bool {
    match (r, want) {
        (Ok(t), Ok(w)) => t.binary@ == w.0 && t.cwd@ == w.1,
        (Err(LaunchError::NotInstalled(a)), Err(LaunchError::NotInstalled(b))) => a@ == b@,
        (Err(LaunchError::CudaMissing(a)), Err(LaunchError::CudaMissing(b))) => a@ == b@,
        _ => false,
    }
}

/// Where a launch of `backend` runs, given the configured binary and
/// working directory, the installed builds (newest first) and whether the
/// legacy CUDA binary (`cuda_binary_path`) exists.
pub fn launch_target(
    backend: &str,
    server_path: &str,
    server_cwd: &str,
    builds: &[InstalledBuild],
    cuda_exists: bool,
) -> (r: Result<LaunchTarget, LaunchError>)
    ensures
        launch_result_matches(
            r,
            launch_of(backend@, server_path@, server_cwd@, builds@, cuda_exists),
        ),
{
    let b = chars_of(backend);
    proof {
        reveal_strlit("build:");
        reveal_strlit("cuda");
    }
    if starts_with_exec(&b, &lit("build:")) {
        let id = string_of(&slice_of(&b, 6, b.len()));
        assert(id@ =~= backend@.skip(6));
        return match installed_build(builds, id.as_str()) {
            Some(build) => Ok(
                LaunchTarget { binary: build.server_path.clone(), cwd: build.dir.clone() },
            ),
            None => Err(LaunchError::NotInstalled(id)),
        };
    }
    if !crate::text::vec_eq(&b, &lit("cuda")) {
        return Ok(
            LaunchTarget {
                binary: string_of(&chars_of(server_path)),
                cwd: string_of(&chars_of(server_cwd)),
            },
        );
    }
    let p = cuda_binary_path(server_path);
    if cuda_exists {
        Ok(LaunchTarget { binary: p, cwd: string_of(&chars_of(server_cwd)) })
    } else {
        Err(LaunchError::CudaMissing(p))
    }
}


/// Why a preset cannot be started for its model: no model path, or no
/// file at it (`exists` says whether there is one).
pub open spec fn model_refusal_of(model_path: Seq<char>, exists: bool) -> Option<Seq<char>> {
    if model_path.len() == 0 {
        Some("Model path is empty. Edit the preset and set a model path."@)
    } else if !exists {
        Some("Model file not found: "@ + model_path)
    } else {
        None
    }
}

pub fn model_refusal(model_path: &str, exists: bool) -> (r: Option<String>)
    ensures
        match r {
            Some(m) => model_refusal_of(model_path@, exists) == Some(m@),
            None => model_refusal_of(model_path@, exists) is None,
        },
{
    let p = chars_of(model_path);
    if p.len() == 0 {
        return Some(string_of(&lit("Model path is empty. Edit the preset and set a model path.")));
    }
    if !exists {
        let mut v = lit("Model file not found: ");
        extend(&mut v, &p);
        return Some(string_of(&v));
    }
    None
}

/// The message when a preset's projector is missing and no other projector
/// for its model is found beside it.
pub open spec fn projector_missing_of(stale: Seq<char>, model_path: Seq<char>) -> Seq<char> {
    "Multimodal projector not found: "@ + stale + ". No projector matching "@ + model_path
        + " was found in the same directory; download a companion mmproj (HF downloads page) or set/clear the mmproj field in the preset editor."@
}

pub fn projector_missing(stale: &str, model_path: &str) -> (m: String)
    ensures
        m@ == projector_missing_of(stale@, model_path@),
{
    let mut v = lit("Multimodal projector not found: ");
    extend(&mut v, &lit(stale));
    extend(&mut v, &lit(". No projector matching "));
    extend(&mut v, &lit(model_path));
    extend(
        &mut v,
        &lit(
            " was found in the same directory; download a companion mmproj (HF downloads page) or set/clear the mmproj field in the preset editor.",
        ),
    );
    assert(v@ =~= projector_missing_of(stale@, model_path@));
    string_of(&v)
}

/// Preset `i` (model path `models[i]`, projector `mmprojs[i]`) is one of
/// `model_path` with the stale projector `stale`.
pub open spec fn stale_preset(
    models: Seq<Seq<char>>,
    mmprojs: Seq<Seq<char>>,
    model_path: Seq<char>,
    stale: Seq<char>,
    i: int,
) -> bool {
    0 <= i < models.len() && i < mmprojs.len() && models[i] == model_path && mmprojs[i] == stale
}

/// The presets' projectors with every stale one of `model_path` pointed at
/// `found`.
pub open spec fn repointed_projectors(
    models: Seq<Seq<char>>,
    mmprojs: Seq<Seq<char>>,
    model_path: Seq<char>,
    stale: Seq<char>,
    found: Seq<char>,
) -> Seq<Seq<char>> {
    Seq::new(
        mmprojs.len(),
        |i: int|
            if stale_preset(models, mmprojs, model_path, stale, i) {
                found
            } else {
                mmprojs[i]
            },
    )
}

/// Points every preset of `model_path` whose projector is `stale` at
/// `found` (presets are given as their model paths and projectors, side by
/// side); true when any preset changed, so they must be saved.
pub fn repoint_projector(
    model_paths: &[String],
    mmprojs: &mut Vec<String>,
    model_path: &str,
    stale: &str,
    found: &str,
) -> (changed: bool)
    ensures
        crate::diagnose::string_views(final(mmprojs)@) == repointed_projectors(
            crate::diagnose::string_views(model_paths@),
            crate::diagnose::string_views(old(mmprojs)@),
            model_path@,
            stale@,
            found@,
        ),
        changed == exists|i: int|
            stale_preset(
                crate::diagnose::string_views(model_paths@),
                crate::diagnose::string_views(old(mmprojs)@),
                model_path@,
                stale@,
                i,
            ),
{
    let ghost ms = crate::diagnose::string_views(model_paths@);
    let ghost ps = crate::diagnose::string_views(mmprojs@);
    let mut changed = false;
    let mut i: usize = 0;
    while i < mmprojs.len()
        invariant
            ms == crate::diagnose::string_views(model_paths@),
            i <= mmprojs@.len(),
            mmprojs@.len() == ps.len(),
            forall|j: int|
                0 <= j < mmprojs@.len() ==> (#[trigger] mmprojs@[j])@ == (if j < i {
                    repointed_projectors(ms, ps, model_path@, stale@, found@)[j]
                } else {
                    ps[j]
                }),
            changed == exists|j: int| 0 <= j < i && stale_preset(ms, ps, model_path@, stale@, j),
        decreases ps.len() - i,
    {
        if i < model_paths.len() && crate::text::str_eq(model_paths[i].as_str(), model_path)
            && crate::text::str_eq(mmprojs[i].as_str(), stale) {
            assert(stale_preset(ms, ps, model_path@, stale@, i as int));
            mmprojs.set(i, string_of(&lit(found)));
            changed = true;
        } else {
            assert(!stale_preset(ms, ps, model_path@, stale@, i as int));
        }
        i += 1;
    }
    proof {
        assert(crate::diagnose::string_views(mmprojs@) =~= repointed_projectors(
            ms,
            ps,
            model_path@,
            stale@,
            found@,
        ));
        assert(changed ==> exists|j: int| stale_preset(ms, ps, model_path@, stale@, j));
        if exists|j: int| stale_preset(ms, ps, model_path@, stale@, j) {
            let j = choose|j: int| stale_preset(ms, ps, model_path@, stale@, j);
            assert(0 <= j < i);
        }
    }
    changed
}

} // verus!
