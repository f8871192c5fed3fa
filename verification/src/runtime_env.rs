//! Where the runtime looks for `.env` files, and which one it prefers for
//! writing API keys: explicit file, runtime and project directories, the user
//! configuration and data directories, then the ancestors of the AppImage,
//! the executable and the working directory.
use vstd::prelude::*;
use vstd::string::StrSliceExecFns;
use crate::text::{owned, push_str, push_char, str_eq, str_trim, trimmed};
use crate::server::ServerConfig;
use crate::syntax_tree::str_view;

verus! {

/// The variable that names the AppImage a desktop build runs from.
pub const APPIMAGE_ENV_VAR: &'static str = "APPIMAGE";
/// The variable that names an explicit `.env` file.
pub const EXPLICIT_ENV_FILE_ENV_VAR: &'static str = "SCPF_ENV_FILE";
/// The variable that names the project root.
pub const PROJECT_ROOT_ENV_VAR: &'static str = "SCPF_PROJECT_ROOT";
/// The variable that names the runtime directory.
pub const RUNTIME_DIR_ENV_VAR: &'static str = "SCPF_RUNTIME_DIR";
/// The directory name of the desktop bundle.
pub const DESKTOP_BUNDLE_DIR: &'static str = "com.teycir.scpf.desktop";

/// The places the runtime knows of, each a path if known.
#[derive(Debug, Clone, Default)]
pub struct RuntimeEnvContext {
    pub explicit_env_file: Option<String>,
    pub project_root: Option<String>,
    pub runtime_dir: Option<String>,
    pub config_dir: Option<String>,
    pub data_local_dir: Option<String>,
    pub appimage_path: Option<String>,
    pub current_exe: Option<String>,
    pub current_dir: Option<String>,
}

/// The `.env` files found, in priority order, and the file to write keys to.
#[derive(Debug, Clone, PartialEq, Eq)]
pub struct RuntimeEnvPaths {
    pub env_files: Vec<String>,
    pub preferred_env_file: String,
}

/// What the runtime tells its front end.
#[derive(Debug, Clone)]
pub struct FrontendRuntimeConfig {
    pub service: &'static str,
    pub api_base_url: String,
    pub server_addr: String,
    pub preferred_env_file: String,
    pub env_files: Vec<String>,
    pub has_explorer_keys: bool,
    pub has_github_token: bool,
}

/// `name` appended to `base` after the separator `sep`, as joining a
/// relative one-component name does: no separator is added after an empty
/// base or one that already ends with `sep`.
pub open spec fn join_spec(base: Seq<char>, name: Seq<char>, sep: char) -> Seq<char> {
    if base.len() == 0 || base.last() == sep {
        base + name
    } else {
        base.push(sep) + name
    }
}

/// `base` joined with the relative name `name` using the separator `sep`.
pub fn join_path(base: &str, name: &str, sep: char) -> (r: String)
    ensures
        r@ == join_spec(base@, name@, sep),
{
    let n = base.unicode_len();
    let mut r = owned(base);
    if n > 0 && base.get_char(n - 1) != sep {
        push_char(&mut r, sep);
    }
    push_str(&mut r, name);
    r
}

/// The file a key should be written to: the explicit file, else `.env` in
/// the runtime directory, the project root, the working directory, the
/// desktop bundle's data directory, else `.env`.
pub open spec fn preferred_env_file(c: RuntimeEnvContext, sep: char) -> Seq<char> {
    if c.explicit_env_file is Some {
        c.explicit_env_file.unwrap()@
    } else if c.runtime_dir is Some {
        join_spec(c.runtime_dir.unwrap()@, ".env"@, sep)
    } else if c.project_root is Some {
        join_spec(c.project_root.unwrap()@, ".env"@, sep)
    } else if c.current_dir is Some {
        join_spec(c.current_dir.unwrap()@, ".env"@, sep)
    } else if c.data_local_dir is Some {
        join_spec(join_spec(c.data_local_dir.unwrap()@, DESKTOP_BUNDLE_DIR@, sep), ".env"@, sep)
    } else {
        ".env"@
    }
}

/// The file a key should be written to for `context`.
pub fn preferred_env_file_for(context: &RuntimeEnvContext, sep: char) -> (r: String)
    ensures
        r@ == preferred_env_file(*context, sep),
{
    if let Some(path) = &context.explicit_env_file {
        return owned(path.as_str());
    }
    if let Some(dir) = &context.runtime_dir {
        return join_path(dir.as_str(), ".env", sep);
    }
    if let Some(dir) = &context.project_root {
        return join_path(dir.as_str(), ".env", sep);
    }
    if let Some(dir) = &context.current_dir {
        return join_path(dir.as_str(), ".env", sep);
    }
    if let Some(dir) = &context.data_local_dir {
        let bundle = join_path(dir.as_str(), DESKTOP_BUNDLE_DIR, sep);
        return join_path(bundle.as_str(), ".env", sep);
    }
    owned(".env")
}

/// The path itself, if known.
pub open spec fn path_if(o: Option<String>) -> Seq<Seq<char>> {
    match o {
        Some(p) => seq![p@],
        None => Seq::empty(),
    }
}

/// `.env` in a directory, if known.
pub open spec fn dir_env(o: Option<String>, sep: char) -> Seq<Seq<char>> {
    match o {
        Some(d) => seq![join_spec(d@, ".env"@, sep)],
        None => Seq::empty(),
    }
}

/// `.env` in the application's three directories under a directory, if known.
pub open spec fn app_envs(o: Option<String>, sep: char) -> Seq<Seq<char>> {
    match o {
        Some(d) => seq![
            join_spec(join_spec(d@, "smartcontractpatternfinder"@, sep), ".env"@, sep),
            join_spec(join_spec(d@, "scpf"@, sep), ".env"@, sep),
            join_spec(join_spec(d@, DESKTOP_BUNDLE_DIR@, sep), ".env"@, sep),
        ],
        None => Seq::empty(),
    }
}

/// The fixed candidates, in priority order: the explicit file, `.env` in the
/// runtime and project directories, then in the application directories of
/// the configuration and then of the data directory.
pub open spec fn fixed_candidates(c: RuntimeEnvContext, sep: char) -> Seq<Seq<char>> {
    path_if(c.explicit_env_file) + dir_env(c.runtime_dir, sep) + dir_env(c.project_root, sep)
        + app_envs(c.config_dir, sep) + app_envs(c.data_local_dir, sep)
}

/// `is_file` may answer `b` for the path `p`.
pub open spec fn answers<F: Fn(&str) -> bool>(f: F, p: Seq<char>, b: bool) -> bool {
    exists|x: &str| x@ == p && #[trigger] call_ensures(f, (x,), b)
}

/// `kept` are the paths among `cands` that `is_file` answered `true` for.
pub open spec fn kept_files<F: Fn(&str) -> bool>(f: F, cands: Seq<Seq<char>>, kept: Seq<Seq<char>>) -> bool
    decreases cands.len(),
{
    if cands.len() == 0 {
        kept.len() == 0
    } else {
        ||| (answers(f, cands.last(), true) && kept.len() > 0 && kept.last() == cands.last()
            && kept_files(f, cands.drop_last(), kept.drop_last()))
        ||| (answers(f, cands.last(), false) && kept_files(f, cands.drop_last(), kept))
    }
}

/// The paths of `ps`, each kept at its first place.
pub open spec fn dedupe(ps: Seq<Seq<char>>) -> Seq<Seq<char>>
    decreases ps.len(),
{
    if ps.len() == 0 {
        Seq::empty()
    } else {
        let prev = ps.drop_last();
        dedupe(prev) + if prev.contains(ps.last()) { Seq::empty() } else { seq![ps.last()] }
    }
}

/// The texts of a list of paths.
pub open spec fn path_texts(v: Seq<String>) -> Seq<Seq<char>> {
    v.map_values(|s: String| s@)
}

/// Appends `path` to `paths` when `is_file` says it is a file.
pub fn push_if_existing_file<F: Fn(&str) -> bool>(paths: &mut Vec<String>, path: Option<String>, is_file: &F)
    requires
        forall|s: &str| call_requires(*is_file, (s,)),
    ensures
        match path {
            None => final(paths)@ == old(paths)@,
            Some(p) => (answers(*is_file, p@, true) && path_texts(final(paths)@) == path_texts(old(paths)@).push(p@))
                || (answers(*is_file, p@, false) && final(paths)@ == old(paths)@),
        },
{
    if let Some(p) = path {
        let b = is_file(p.as_str());
        assert(answers(*is_file, p@, b));
        if b {
            let ghost before = paths@;
            paths.push(p);
            assert(path_texts(paths@) =~= path_texts(before).push(p@));
        }
    }
}

/// The paths of `paths`, each kept at its first place.
pub fn dedupe_paths(paths: Vec<String>) -> (r: Vec<String>)
    ensures
        path_texts(r@) == dedupe(path_texts(paths@)),
{
    let ghost pv = path_texts(paths@);
    let mut out: Vec<String> = Vec::new();
    let mut i: usize = 0;
    while i < paths.len()
        invariant
            i <= paths.len(),
            pv == path_texts(paths@),
            path_texts(out@) == dedupe(pv.subrange(0, i as int)),
        decreases paths.len() - i,
    {
        let p = paths[i].as_str();
        let ghost prev = pv.subrange(0, i as int);
        assert(pv.subrange(0, i + 1).drop_last() =~= prev);
        assert(pv[i as int] == p@);
        let mut seen = false;
        let mut j: usize = 0;
        while j < i
            invariant
                j <= i < paths.len(),
                pv == path_texts(paths@),
                prev == pv.subrange(0, i as int),
                p@ == pv[i as int],
                seen == exists|q: int| 0 <= q < j && prev[q] == p@,
            decreases i - j,
        {
            assert(prev[j as int] == paths@[j as int]@);
            if str_eq(paths[j].as_str(), p) {
                seen = true;
            }
            j = j + 1;
        }
        assert(seen == prev.contains(p@));
        if !seen {
            let ghost before = out@;
            out.push(owned(p));
            assert(path_texts(out@) =~= path_texts(before).push(p@));
        }
        i = i + 1;
    }
    assert(pv.subrange(0, paths.len() as int) =~= pv);
    out
}

/// What `Path::parent` gives for the path `p`: the path without its final
/// component, `None` for a root or empty path.
pub uninterp spec fn parent_path(p: Seq<char>) -> Option<Seq<char>>;

/// `Path::parent`: the path without its final component, `None` for a root
/// or empty path. Its result is named by `parent_path`; beside that only its
/// documented shape is stated: the parent is a prefix of the path, shorter
/// than it.
#[verifier::external_body]
fn path_parent(p: &str) -> (r: Option<String>)
    ensures
        parent_path(p@) == match r {
            Some(q) => Some(q@),
            None => None::<Seq<char>>,
        },
        r matches Some(q) ==> q@.len() < p@.len() && q@ == p@.subrange(0, q@.len() as int),
{
    std::path::Path::new(p).parent().map(|q| q.to_string_lossy().into_owned())
}

/// `a` is `p` or a prefix of it.
pub open spec fn is_prefix_of(a: Seq<char>, p: Seq<char>) -> bool {
    a.len() <= p.len() && p.subrange(0, a.len() as int) == a
}

/// A `.env` found by walking up from `start`: `.env` in `start` or one of
/// its ancestors, which `is_file` answered `true` for.
pub open spec fn ancestor_env<F: Fn(&str) -> bool>(f: F, start: Seq<char>, sep: char, c: Seq<char>) -> bool {
    answers(f, c, true) && exists|a: Seq<char>| is_prefix_of(a, start) && c == join_spec(a, ".env"@, sep)
}

/// The `k`-th ancestor of `s` by `Path::parent`: `s` itself for 0.
pub open spec fn nth_ancestor(s: Seq<char>, k: nat) -> Option<Seq<char>>
    decreases k,
{
    if k == 0 {
        Some(s)
    } else {
        match nth_ancestor(s, (k - 1) as nat) {
            Some(a) => parent_path(a),
            None => None,
        }
    }
}

/// The `.env` looked for in the `k`-th ancestor of `s`.
pub open spec fn env_candidate(s: Seq<char>, k: nat, sep: char) -> Seq<char> {
    match nth_ancestor(s, k) {
        Some(a) => join_spec(a, ".env"@, sep),
        None => Seq::empty(),
    }
}

/// `is_file` answered `false` for the `.env` of each of the first `k`
/// ancestors of `s` (that exist).
pub open spec fn none_before<F: Fn(&str) -> bool>(f: F, s: Seq<char>, k: nat, sep: char) -> bool {
    forall|j: nat| j < k && #[trigger] nth_ancestor(s, j) is Some ==> answers(f, env_candidate(s, j, sep), false)
}

/// `c` is the `.env` of the `k`-th ancestor of `s`, `is_file` answered `true`
/// for it, and `false` for the `.env` of each nearer ancestor.
pub open spec fn first_env_at<F: Fn(&str) -> bool>(f: F, s: Seq<char>, k: nat, sep: char, c: Seq<char>) -> bool {
    nth_ancestor(s, k) is Some && c == env_candidate(s, k, sep) && answers(f, c, true) && none_before(f, s, k, sep)
}

/// The first `.env` in `start` or its ancestors, looking at most `depth`
/// directories up: the `.env` of the first of `start` and its first
/// `depth - 1` ancestors that `is_file` answers `true` for; `None` when it
/// answers `false` for each of them, or when there is no `start`.
pub fn find_first_ancestor_env_file<F: Fn(&str) -> bool>(start: Option<&str>, depth: usize, sep: char, is_file: &F) -> (r: Option<String>)
    requires
        forall|s: &str| call_requires(*is_file, (s,)),
    ensures
        r matches Some(c) ==> start matches Some(s) && ancestor_env(*is_file, s@, sep, c@),
        match r {
            Some(c) => start is Some && exists|k: nat| k < depth && #[trigger] first_env_at(*is_file, start.unwrap()@, k, sep, c@),
            None => start is Some ==> none_before(*is_file, start.unwrap()@, depth as nat, sep),
        },
        ancestor_result(*is_file, str_view(start), depth as nat, sep, opt_view(r)),
{
    let s = match start {
        Some(s) => s,
        None => return None,
    };
    let mut current = owned(s);
    assert(s@.subrange(0, s@.len() as int) =~= s@);
    let mut k: usize = 0;
    while k < depth
        invariant
            start == Some(s),
            is_prefix_of(current@, s@),
            forall|x: &str| call_requires(*is_file, (x,)),
            nth_ancestor(s@, k as nat) == Some(current@),
            none_before(*is_file, s@, k as nat, sep),
        decreases depth - k,
    {
        let candidate = join_path(current.as_str(), ".env", sep);
        assert(candidate@ == env_candidate(s@, k as nat, sep));
        let cs = candidate.as_str();
        if is_file(cs) {
            assert(answers(*is_file, candidate@, true));
            assert(is_prefix_of(current@, s@) && candidate@ == join_spec(current@, ".env"@, sep));
            let ghost kn = k as nat;
            assert(kn < depth && first_env_at(*is_file, s@, kn, sep, candidate@));
            let r = Some(candidate);
            assert(first_env_at(*is_file, start.unwrap()@, kn, sep, r.unwrap()@));
            assert(first_env_at(*is_file, str_view(start).unwrap(), kn, sep, opt_view(r).unwrap()));
            return r;
        }
        assert(answers(*is_file, candidate@, false)) by {
            assert(cs@ == candidate@);
        }
        let parent = match path_parent(current.as_str()) {
            Some(p) => p,
            None => {
                proof {
                    assert forall|j: nat| j < depth && #[trigger] nth_ancestor(s@, j) is Some implies answers(*is_file, env_candidate(s@, j, sep), false) by {
                        if j > k {
                            lemma_no_ancestor_after(s@, (k + 1) as nat, j);
                        }
                    }
                }
                return None;
            },
        };
        assert(is_prefix_of(parent@, s@)) by {
            assert(s@.subrange(0, parent@.len() as int) =~= s@.subrange(0, current@.len() as int).subrange(0, parent@.len() as int));
        }
        current = parent;
        k = k + 1;
    }
    None
}

/// Past the last ancestor there is none.
proof fn lemma_no_ancestor_after(s: Seq<char>, k: nat, j: nat)
    requires
        nth_ancestor(s, k) is None,
        k <= j,
    ensures
        nth_ancestor(s, j) is None,
    decreases j - k,
{
    if j > k {
        lemma_no_ancestor_after(s, k, (j - 1) as nat);
    }
}

/// The text of an optional path, as a list of at most one.
pub open spec fn opt_seq(o: Option<String>) -> Seq<Seq<char>> {
    match o {
        Some(p) => seq![p@],
        None => Seq::empty(),
    }
}

fn push_candidate<F: Fn(&str) -> bool>(
    paths: &mut Vec<String>,
    path: Option<String>,
    is_file: &F,
    cands: Ghost<Seq<Seq<char>>>,
)
    requires
        forall|s: &str| call_requires(*is_file, (s,)),
        kept_files(*is_file, cands@, path_texts(old(paths)@)),
    ensures
        kept_files(*is_file, cands@ + opt_seq(path), path_texts(final(paths)@)),
{
    let ghost before = path_texts(paths@);
    let ghost o = path;
    push_if_existing_file(paths, path, is_file);
    proof {
        match o {
            Some(p) => {
                let c2 = cands@ + seq![p@];
                assert(c2.drop_last() =~= cands@);
                if path_texts(paths@) == before.push(p@) {
                    assert(path_texts(paths@).drop_last() =~= before);
                }
            },
            None => {
                assert(cands@ + Seq::<Seq<char>>::empty() =~= cands@);
            },
        }
    }
}

/// What an ancestor search from `start` may give: the `.env` of the first
/// of `start` and its first `depth - 1` ancestors `is_file` answered `true`
/// for, or nothing when it answered `false` for all of them (or there is no
/// `start`).
pub open spec fn ancestor_result<F: Fn(&str) -> bool>(f: F, start: Option<Seq<char>>, depth: nat, sep: char, res: Option<Seq<char>>) -> bool {
    match res {
        Some(c) => start is Some && exists|k: nat| k < depth && #[trigger] first_env_at(f, start.unwrap(), k, sep, c),
        None => start is Some ==> none_before(f, start.unwrap(), depth, sep),
    }
}

/// `found` is what checking the search result `res` once more with `is_file`
/// keeps: `res` when the check answered `true`, nothing otherwise.
pub open spec fn rechecked<F: Fn(&str) -> bool>(f: F, res: Option<Seq<char>>, found: Seq<Seq<char>>) -> bool {
    match res {
        None => found.len() == 0,
        Some(c) => (answers(f, c, true) && found == seq![c]) || (answers(f, c, false) && found.len() == 0),
    }
}

/// The text of an optional path.
pub open spec fn opt_view(o: Option<String>) -> Option<Seq<char>> {
    match o {
        Some(p) => Some(p@),
        None => None,
    }
}

/// The parent, by `Path::parent`, of an optional path.
pub open spec fn opt_parent(o: Option<String>) -> Option<Seq<char>> {
    match o {
        Some(p) => parent_path(p@),
        None => None,
    }
}

fn push_found<F: Fn(&str) -> bool>(paths: &mut Vec<String>, path: Option<String>, is_file: &F) -> (found: Ghost<Seq<Seq<char>>>)
    requires
        forall|s: &str| call_requires(*is_file, (s,)),
    ensures
        path_texts(final(paths)@) == path_texts(old(paths)@) + found@,
        rechecked(*is_file, opt_view(path), found@),
{
    let ghost before = path_texts(paths@);
    let ghost o = path;
    push_if_existing_file(paths, path, is_file);
    let ghost found = if path_texts(paths@) == before { Seq::<Seq<char>>::empty() } else { seq![o.unwrap()@] };
    proof {
        if path_texts(paths@) == before {
            assert(before + found =~= before);
            match o {
                Some(p) => {
                    if answers(*is_file, p@, true) && path_texts(paths@) == before.push(p@) {
                        assert(path_texts(paths@).len() == before.len() + 1);
                    }
                },
                None => {},
            }
        } else {
            assert(before + found =~= path_texts(paths@));
        }
    }
    Ghost(found)
}

/// The parent of an optional path.
fn parent_of(p: &Option<String>) -> (r: Option<String>)
    ensures
        match p {
            Some(q) => parent_path(q@) == match r {
                Some(x) => Some(x@),
                None => None::<Seq<char>>,
            },
            None => r is None,
        },
{
    match p {
        Some(p) => path_parent(p.as_str()),
        None => None,
    }
}

/// The `.env` files `files` for `context`: the fixed candidates `is_file`
/// answered `true` for (`kept`), then what the ancestor searches from the
/// AppImage's directory, the executable's directory and the current
/// directory gave (`r1`, `r2`, `r3`, eight levels each) and a second check
/// kept (`f1`, `f2`, `f3`), each path once, at its first place.
pub open spec fn resolved<F: Fn(&str) -> bool>(
    f: F,
    context: RuntimeEnvContext,
    sep: char,
    kept: Seq<Seq<char>>,
    r1: Option<Seq<char>>,
    r2: Option<Seq<char>>,
    r3: Option<Seq<char>>,
    f1: Seq<Seq<char>>,
    f2: Seq<Seq<char>>,
    f3: Seq<Seq<char>>,
    files: Seq<Seq<char>>,
) -> bool {
    &&& kept_files(f, fixed_candidates(context, sep), kept)
    &&& ancestor_result(f, opt_parent(context.appimage_path), 8, sep, r1)
    &&& ancestor_result(f, opt_parent(context.current_exe), 8, sep, r2)
    &&& ancestor_result(f, opt_view(context.current_dir), 8, sep, r3)
    &&& rechecked(f, r1, f1)
    &&& rechecked(f, r2, f2)
    &&& rechecked(f, r3, f3)
    &&& files == dedupe(kept + f1 + f2 + f3)
}

/// The `.env` files for `context`, in priority order and each once, and the
/// file keys should be written to: the fixed candidates that are files, then
/// the first `.env` found (and still a file) walking up at most eight
/// levels from the AppImage's directory, from the executable's directory and
/// from the current directory. `sep` is the platform's path separator and
/// `is_file` tells which paths are files.
pub fn resolve_runtime_env_paths<F: Fn(&str) -> bool>(context: &RuntimeEnvContext, sep: char, is_file: &F) -> (r: RuntimeEnvPaths)
    requires
        forall|s: &str| call_requires(*is_file, (s,)),
    ensures
        r.preferred_env_file@ == preferred_env_file(*context, sep),
        exists|kept: Seq<Seq<char>>, r1: Option<Seq<char>>, r2: Option<Seq<char>>, r3: Option<Seq<char>>, f1: Seq<Seq<char>>, f2: Seq<Seq<char>>, f3: Seq<Seq<char>>|
            #[trigger] resolved(*is_file, *context, sep, kept, r1, r2, r3, f1, f2, f3, path_texts(r.env_files@)),
{
    let mut candidates: Vec<String> = Vec::new();
    let ghost c0: Seq<Seq<char>> = Seq::empty();
    assert(path_texts(candidates@) =~= Seq::<Seq<char>>::empty());
    let explicit = match &context.explicit_env_file {
        Some(p) => Some(owned(p.as_str())),
        None => None,
    };
    let ghost c1 = c0 + opt_seq(explicit);
    push_candidate(&mut candidates, explicit, is_file, Ghost(c0));
    let runtime = match &context.runtime_dir {
        Some(d) => Some(join_path(d.as_str(), ".env", sep)),
        None => None,
    };
    let ghost c2 = c1 + opt_seq(runtime);
    push_candidate(&mut candidates, runtime, is_file, Ghost(c1));
    let project = match &context.project_root {
        Some(d) => Some(join_path(d.as_str(), ".env", sep)),
        None => None,
    };
    let ghost c3 = c2 + opt_seq(project);
    push_candidate(&mut candidates, project, is_file, Ghost(c2));
    let ghost mut c = c3;
    let mut di: usize = 0;
    while di < 2
        invariant
            di <= 2,
            forall|x: &str| call_requires(*is_file, (x,)),
            kept_files(*is_file, c, path_texts(candidates@)),
            c == c3 + if di >= 1 { app_envs(context.config_dir, sep) } else { Seq::empty() }
                + if di >= 2 { app_envs(context.data_local_dir, sep) } else { Seq::empty() },
        decreases 2 - di,
    {
        let d = if di == 0 { &context.config_dir } else { &context.data_local_dir };
        let ghost cb = c;
        match d {
            Some(d) => {
                let a = join_path(d.as_str(), "smartcontractpatternfinder", sep);
                let pa = join_path(a.as_str(), ".env", sep);
                let ghost ca = c + seq![pa@];
                push_candidate(&mut candidates, Some(pa), is_file, Ghost(c));
                let b = join_path(d.as_str(), "scpf", sep);
                let pb = join_path(b.as_str(), ".env", sep);
                let ghost cbb = ca + seq![pb@];
                push_candidate(&mut candidates, Some(pb), is_file, Ghost(ca));
                let e = join_path(d.as_str(), DESKTOP_BUNDLE_DIR, sep);
                let pe = join_path(e.as_str(), ".env", sep);
                push_candidate(&mut candidates, Some(pe), is_file, Ghost(cbb));
                proof {
                    c = cbb + seq![pe@];
                }
            },
            None => {},
        }
        proof {
            if di == 0 {
                assert(c =~= c3 + app_envs(context.config_dir, sep) + Seq::<Seq<char>>::empty());
            } else {
                assert(c =~= c3 + app_envs(context.config_dir, sep) + app_envs(context.data_local_dir, sep));
            }
        }
        di = di + 1;
    }
    proof {
        assert(c =~= fixed_candidates(*context, sep));
    }
    let ghost kept = path_texts(candidates@);
    let appimage_parent = parent_of(&context.appimage_path);
    let a1 = find_first_ancestor_env_file(
        match &appimage_parent { Some(p) => Some(p.as_str()), None => None },
        8,
        sep,
        is_file,
    );
    let ghost r1 = opt_view(a1);
    assert(opt_view(appimage_parent) == opt_parent(context.appimage_path));
    let Ghost(f1) = push_found(&mut candidates, a1, is_file);
    let exe_parent = parent_of(&context.current_exe);
    let a2 = find_first_ancestor_env_file(
        match &exe_parent { Some(p) => Some(p.as_str()), None => None },
        8,
        sep,
        is_file,
    );
    let ghost r2 = opt_view(a2);
    assert(opt_view(exe_parent) == opt_parent(context.current_exe));
    let Ghost(f2) = push_found(&mut candidates, a2, is_file);
    let a3 = find_first_ancestor_env_file(
        match &context.current_dir { Some(p) => Some(p.as_str()), None => None },
        8,
        sep,
        is_file,
    );
    let ghost r3 = opt_view(a3);
    let Ghost(f3) = push_found(&mut candidates, a3, is_file);
    proof {
        assert(path_texts(candidates@) =~= kept + f1 + f2 + f3);
    }
    let env_files = dedupe_paths(candidates);
    let r = RuntimeEnvPaths { env_files, preferred_env_file: preferred_env_file_for(context, sep) };
    assert(resolved(*is_file, *context, sep, kept, r1, r2, r3, f1, f2, f3, path_texts(r.env_files@)));
    r
}

/// The file API keys should be written to for `context`.
pub fn preferred_api_key_env_file(context: &RuntimeEnvContext, sep: char) -> (r: String)
    ensures
        r@ == preferred_env_file(*context, sep),
{
    preferred_env_file_for(context, sep)
}

/// The hint shown when no explorer key is configured, naming the file keys
/// should go to.
pub fn api_key_help_message(preferred_env_file: &str) -> (r: String)
    ensures
        r@ == "Set ETHERSCAN_API_KEY in your environment or create "@ + preferred_env_file@ + "."@,
{
    let mut m = owned("Set ETHERSCAN_API_KEY in your environment or create ");
    push_str(&mut m, preferred_env_file);
    push_str(&mut m, ".");
    m
}

/// What the runtime tells its front end: the server's origin and address,
/// the `.env` files, whether explorer keys are configured and whether a
/// GitHub token (not blank) is set.
pub fn frontend_runtime_config(
    server: ServerConfig,
    paths: RuntimeEnvPaths,
    has_explorer_keys: bool,
    github_token: Option<String>,
) -> (r: FrontendRuntimeConfig)
    ensures
        r.service@ == "scpf-runtime"@,
        r.api_base_url@ == server.origin@,
        r.server_addr@ == server.addr@,
        r.preferred_env_file@ == paths.preferred_env_file@,
        r.env_files@ == paths.env_files@,
        r.has_explorer_keys == has_explorer_keys,
        r.has_github_token == match github_token {
            Some(t) => trimmed(t@).len() > 0,
            None => false,
        },
{
    let has_github_token = match &github_token {
        Some(t) => str_trim(t.as_str()).unicode_len() > 0,
        None => false,
    };
    FrontendRuntimeConfig {
        service: "scpf-runtime",
        api_base_url: owned(server.origin.as_str()),
        server_addr: server.addr,
        preferred_env_file: paths.preferred_env_file,
        env_files: paths.env_files,
        has_explorer_keys,
        has_github_token,
    }
}

} // verus!
