//! Where OpenCode and OMO keep their files, derived from the process environment.
//!
//! Paths are strings joined as `PathBuf::join` joins them, with `\\` between components on
//! Windows and `/` elsewhere. The environment is handed in as plain values
//! ([`Env`]); the home directory that the `dirs` crate reports is filled in by
//! [`capture_dirs`].
use vstd::prelude::*;

use crate::text::{concat, owned, str_eq, string_from_chars, to_chars, trim, trim_spec};

verus! {

/// Name of the OMO cache directory.
pub const OMO_CACHE_DIR_NAME: &'static str = "oh-my-opencode";

/// Name of this application's configuration directory.
pub const OMO_SWITCH_DIR_NAME: &'static str = "OMO-Switch";

/// Name of OpenCode's directories.
pub const OPENCODE_DIR_NAME: &'static str = "opencode";

/// The environment values that path resolution reads.
#[derive(Debug)]
pub struct Env {
    /// The program runs on Windows.
    pub windows: bool,
    pub home: Option<String>,
    pub userprofile: Option<String>,
    pub xdg_config_home: Option<String>,
    pub xdg_cache_home: Option<String>,
    pub xdg_data_home: Option<String>,
    pub opencode_config_dir: Option<String>,
    pub opencode_config: Option<String>,
    pub opencode_bin: Option<String>,
    pub appdata: Option<String>,
    pub localappdata: Option<String>,
    pub pnpm_home: Option<String>,
    pub bun_install: Option<String>,
    pub program_files: Option<String>,
    pub program_files_x86: Option<String>,
    /// The home directory that `dirs::home_dir` reports.
    pub dirs_home: Option<String>,
}

/// The text of an optional string.
pub open spec fn opt_text(o: Option<String>) -> Option<Seq<char>> {
    match o {
        Some(s) => Some(s@),
        None => None,
    }
}

/// A path from an environment value: the trimmed value, where it is not empty.
pub open spec fn env_path(raw: Option<String>) -> Option<Seq<char>> {
    match raw {
        Some(v) => if trim_spec(v@).len() > 0 {
            Some(trim_spec(v@))
        } else {
            None
        },
        None => None,
    }
}

/// The first of two optional values that is present.
pub open spec fn or_else<T>(a: Option<T>, b: Option<T>) -> Option<T> {
    if a is Some {
        a
    } else {
        b
    }
}

/// The character the platform puts between path components: `\\` on Windows, `/` elsewhere.
pub open spec fn separator(windows: bool) -> char {
    if windows {
        '\\'
    } else {
        '/'
    }
}

/// A character that ends a path component: `/`, and on Windows `\\` too.
pub open spec fn is_separator(windows: bool, c: char) -> bool {
    c == '/' || (windows && c == '\\')
}

/// An ASCII letter.
pub open spec fn is_ascii_letter(c: char) -> bool {
    ('a' <= c && c <= 'z') || ('A' <= c && c <= 'Z')
}

/// On Windows, whether `p` begins with a drive prefix such as `C:`.
pub open spec fn has_drive(windows: bool, p: Seq<char>) -> bool {
    windows && p.len() >= 2 && is_ascii_letter(p[0]) && p[1] == ':'
}

/// Whether `comp` takes the place of the path it is joined to: elsewhere than on Windows
/// one that starts at the root; on Windows one with a prefix, that is a drive or two
/// leading separators (as in `\\server\share`).
pub open spec fn replaces_base(windows: bool, comp: Seq<char>) -> bool {
    if windows {
        has_drive(windows, comp) || (comp.len() >= 2 && is_separator(windows, comp[0]) && is_separator(
            windows,
            comp[1],
        ))
    } else {
        comp.len() > 0 && comp[0] == '/'
    }
}

/// The drive prefix of a path on Windows, where it has one; of the Windows prefixes only a
/// drive is told apart here.
pub open spec fn drive_part(windows: bool, p: Seq<char>) -> Seq<char> {
    if has_drive(windows, p) {
        p.take(2)
    } else {
        Seq::empty()
    }
}

/// `comp` joined to `base` as `PathBuf::join` joins it: a component that `replaces_base`
/// stands alone; on Windows one that starts at the root keeps only the drive of `base`;
/// otherwise a separator goes between them unless `base` is empty, already ends in one, or
/// is a bare drive such as `C:`.
pub open spec fn join_spec(w: bool, base: Seq<char>, comp: Seq<char>) -> Seq<char> {
    if replaces_base(w, comp) {
        comp
    } else if w && comp.len() > 0 && is_separator(w, comp[0]) {
        drive_part(w, base) + comp
    } else if base.len() == 0 || is_separator(w, base.last()) || (has_drive(w, base) && base.len() == 2) {
        base + comp
    } else {
        base + seq![separator(w)] + comp
    }
}

/// The user's home directory: on Windows `USERPROFILE`, then `HOME`; elsewhere `HOME`, then
/// `USERPROFILE`; and where neither is set, the one `dirs` reports.
pub open spec fn home_spec(env: Env) -> Option<Seq<char>> {
    if env.windows {
        or_else(env_path(env.userprofile), or_else(env_path(env.home), opt_text(env.dirs_home)))
    } else {
        or_else(env_path(env.home), or_else(env_path(env.userprofile), opt_text(env.dirs_home)))
    }
}

/// The message for a home directory that cannot be found.
pub open spec fn home_error() -> Seq<char> {
    "无法获取用户主目录"@
}

/// `r` is the path `p` when there is one, else the home-directory error.
pub open spec fn path_outcome(r: Result<String, String>, p: Option<Seq<char>>) -> bool {
    match r {
        Ok(s) => p == Some(s@),
        Err(e) => p is None && e@ == home_error(),
    }
}

/// A path under the home directory, or the environment override where it is set.
pub open spec fn home_or(env_value: Option<String>, env: Env, rel: Seq<Seq<char>>) -> Option<Seq<char>>
    decreases rel.len(),
{
    if env_path(env_value) is Some {
        env_path(env_value)
    } else {
        match home_spec(env) {
            Some(h) => Some(join_all(env.windows, h, rel)),
            None => None,
        }
    }
}

/// The components of `rel` appended to `base` one by one.
pub open spec fn join_all(w: bool, base: Seq<char>, rel: Seq<Seq<char>>) -> Seq<char>
    decreases rel.len(),
{
    if rel.len() == 0 {
        base
    } else {
        join_spec(w, join_all(w, base, rel.drop_last()), rel.last())
    }
}

/// `XDG_CONFIG_HOME`, or `~/.config`.
pub open spec fn config_home_spec(env: Env) -> Option<Seq<char>> {
    home_or(env.xdg_config_home, env, seq![".config"@])
}

/// `XDG_CACHE_HOME`, or `~/.cache`.
pub open spec fn cache_home_spec(env: Env) -> Option<Seq<char>> {
    home_or(env.xdg_cache_home, env, seq![".cache"@])
}

/// `XDG_DATA_HOME`, or `~/.local/share`.
pub open spec fn data_home_spec(env: Env) -> Option<Seq<char>> {
    home_or(env.xdg_data_home, env, seq![".local"@, "share"@])
}

/// `base` joined with `comp`, where `base` is there.
pub open spec fn under(w: bool, base: Option<Seq<char>>, comp: Seq<char>) -> Option<Seq<char>> {
    match base {
        Some(b) => Some(join_spec(w, b, comp)),
        None => None,
    }
}

/// OpenCode's configuration directory.
pub open spec fn config_dir_spec(env: Env) -> Option<Seq<char>> {
    under(env.windows, config_home_spec(env), "opencode"@)
}

/// The sequence without repeats: each element where it first occurs.
pub open spec fn dedup(s: Seq<Seq<char>>) -> Seq<Seq<char>>
    decreases s.len(),
{
    if s.len() == 0 {
        s
    } else if dedup(s.drop_last()).contains(s.last()) {
        dedup(s.drop_last())
    } else {
        dedup(s.drop_last()).push(s.last())
    }
}

/// An optional value as a sequence of zero or one element.
pub open spec fn opt_seq(o: Option<Seq<char>>) -> Seq<Seq<char>> {
    match o {
        Some(x) => seq![x],
        None => Seq::empty(),
    }
}

/// The directories searched for OpenCode configuration: `OPENCODE_CONFIG_DIR`, then the
/// default one.
pub open spec fn config_dirs_spec(env: Env, dir: Seq<char>) -> Seq<Seq<char>> {
    dedup(opt_seq(env_path(env.opencode_config_dir)).push(dir))
}

/// The files `opencode.json` and `opencode.jsonc` in each directory, in order.
pub open spec fn config_files_in(w: bool, dirs: Seq<Seq<char>>) -> Seq<Seq<char>>
    decreases dirs.len(),
{
    if dirs.len() == 0 {
        Seq::empty()
    } else {
        config_files_in(w, dirs.drop_last()) + seq![
            join_spec(w, dirs.last(), "opencode.json"@),
            join_spec(w, dirs.last(), "opencode.jsonc"@),
        ]
    }
}

/// The OpenCode configuration files, in the order they are preferred: `OPENCODE_CONFIG`,
/// then `opencode.json` and `opencode.jsonc` in each configuration directory.
pub open spec fn config_candidates_spec(env: Env, dir: Seq<char>) -> Seq<Seq<char>> {
    dedup(opt_seq(env_path(env.opencode_config)) + config_files_in(env.windows, config_dirs_spec(env, dir)))
}

/// The first of `cands` that is in `existing`, or `default`.
pub open spec fn first_existing(cands: Seq<Seq<char>>, existing: Seq<Seq<char>>, default: Seq<char>) -> Seq<char>
    decreases cands.len(),
{
    if cands.len() == 0 {
        default
    } else if existing.contains(cands[0]) {
        cands[0]
    } else {
        first_existing(cands.drop_first(), existing, default)
    }
}

/// Appends a path component to a path; `w` says whether the platform is Windows.
pub fn join_path(w: bool, base: &str, comp: &str) -> (r: String)
    ensures
        r@ == join_spec(w, base@, comp@),
{
    let b = to_chars(base);
    let c = to_chars(comp);
    let rooted = c.len() > 0 && is_sep(w, c[0]);
    let prefixed = w && (drive_at(w, &c) || (c.len() >= 2 && is_sep(w, c[0]) && is_sep(
        w,
        c[1],
    )));
    if (!w && rooted) || prefixed {
        return owned(comp);
    }
    if w && rooted {
        if drive_at(w, &b) {
            let d = string_from_chars(&b, 0, 2);
            return concat(d.as_str(), comp);
        }
        proof {
            assert(drive_part(w, base@) + comp@ =~= comp@);
        }
        return owned(comp);
    }
    if b.len() == 0 || is_sep(w, b[b.len() - 1]) || (drive_at(w, &b) && b.len() == 2) {
        concat(base, comp)
    } else if w {
        let with_sep = concat(base, "\\");
        proof {
            reveal_strlit("\\");
        }
        concat(with_sep.as_str(), comp)
    } else {
        let with_sep = concat(base, "/");
        proof {
            reveal_strlit("/");
        }
        concat(with_sep.as_str(), comp)
    }
}

/// Whether `c` ends a path component.
fn is_sep(w: bool, c: char) -> (r: bool)
    ensures
        r == is_separator(w, c),
{
    c == '/' || (w && c == '\\')
}

/// Whether the characters `v` begin with a drive prefix on Windows.
fn drive_at(w: bool, v: &Vec<char>) -> (r: bool)
    ensures
        r == has_drive(w, v@),
{
    if !w || v.len() < 2 {
        return false;
    }
    let c = v[0];
    (('a' <= c && c <= 'z') || ('A' <= c && c <= 'Z')) && v[1] == ':'
}

/// The home directory that `dirs::home_dir` reports, as text; it depends on the machine,
/// so nothing is claimed of it.
#[verifier::external_body]
fn dirs_home_dir() -> Option<String> {
    dirs::home_dir().map(|p| p.to_string_lossy().to_string())
}

/// The environment with the home directory that `dirs` reports filled in.
pub fn capture_dirs(env: Env) -> (r: Env)
    ensures
        r == (Env { dirs_home: r.dirs_home, ..env }),
{
    let dirs_home = dirs_home_dir();
    Env { dirs_home, ..env }
}

/// A path from an environment value: the trimmed value, where it is not empty.
pub fn non_empty_env_path(raw: &Option<String>) -> (r: Option<String>)
    ensures
        opt_text(r) == env_path(*raw),
{
    match raw {
        Some(v) => {
            let t = trim(v.as_str());
            if to_chars(t.as_str()).len() > 0 {
                Some(t)
            } else {
                None
            }
        },
        None => None,
    }
}

fn copy_opt(o: &Option<String>) -> (r: Option<String>)
    ensures
        opt_text(r) == opt_text(*o),
{
    match o {
        Some(s) => Some(owned(s.as_str())),
        None => None,
    }
}

/// The user's home directory.
pub fn user_home_dir(env: &Env) -> (r: Result<String, String>)
    ensures
        path_outcome(r, home_spec(*env)),
{
    let first;
    let second;
    let third;
    if env.windows {
        first = non_empty_env_path(&env.userprofile);
        second = non_empty_env_path(&env.home);
        third = copy_opt(&env.dirs_home);
    } else {
        first = non_empty_env_path(&env.home);
        second = non_empty_env_path(&env.userprofile);
        third = copy_opt(&env.dirs_home);
    }
    match first {
        Some(p) => Ok(p),
        None => match second {
            Some(p) => Ok(p),
            None => match third {
                Some(p) => Ok(p),
                None => Err(owned("无法获取用户主目录")),
            },
        },
    }
}

fn home_or_exec(env_value: &Option<String>, env: &Env, rel1: &str, rel2: Option<&str>) -> (r: Result<String, String>)
    ensures
        path_outcome(r, home_or(*env_value, *env, match rel2 {
            Some(c) => seq![rel1@, c@],
            None => seq![rel1@],
        })),
{
    if let Some(p) = non_empty_env_path(env_value) {
        return Ok(p);
    }
    let home = user_home_dir(env)?;
    let first = join_path(env.windows, home.as_str(), rel1);
    let ghost one = seq![rel1@];
    proof {
        assert(one.drop_last() == Seq::<Seq<char>>::empty());
        assert(join_all(env.windows, home@, one.drop_last()) == home@);
        assert(join_all(env.windows, home@, one) == first@);
    }
    match rel2 {
        Some(c) => {
            let r = join_path(env.windows, first.as_str(), c);
            proof {
                let two = seq![rel1@, c@];
                assert(two.drop_last() == one);
                assert(join_all(env.windows, home@, two) == r@);
            }
            Ok(r)
        },
        None => Ok(first),
    }
}

/// `XDG_CONFIG_HOME`, or `~/.config`.
pub fn xdg_config_home(env: &Env) -> (r: Result<String, String>)
    ensures
        path_outcome(r, config_home_spec(*env)),
{
    home_or_exec(&env.xdg_config_home, env, ".config", None)
}

/// `XDG_CACHE_HOME`, or `~/.cache`.
pub fn xdg_cache_home(env: &Env) -> (r: Result<String, String>)
    ensures
        path_outcome(r, cache_home_spec(*env)),
{
    home_or_exec(&env.xdg_cache_home, env, ".cache", None)
}

/// `XDG_DATA_HOME`, or `~/.local/share`.
pub fn xdg_data_home(env: &Env) -> (r: Result<String, String>)
    ensures
        path_outcome(r, data_home_spec(*env)),
{
    home_or_exec(&env.xdg_data_home, env, ".local", Some("share"))
}

pub(crate) fn join_result(w: bool, base: Result<String, String>, comp: &str) -> (r: Result<String, String>)
    ensures
        match (base, r) {
            (Ok(b), Ok(s)) => s@ == join_spec(w, b@, comp@),
            (Err(e1), Err(e2)) => e1@ == e2@,
            _ => false,
        },
{
    match base {
        Ok(b) => Ok(join_path(w, b.as_str(), comp)),
        Err(e) => Err(e),
    }
}

/// OpenCode's configuration directory.
pub fn opencode_config_dir(env: &Env) -> (r: Result<String, String>)
    ensures
        path_outcome(r, config_dir_spec(*env)),
{
    join_result(env.windows, xdg_config_home(env), OPENCODE_DIR_NAME)
}

/// `opencode.json` in OpenCode's configuration directory.
pub fn opencode_config_file(env: &Env) -> (r: Result<String, String>)
    ensures
        path_outcome(r, under(env.windows, config_dir_spec(*env), "opencode.json"@)),
{
    join_result(env.windows, opencode_config_dir(env), "opencode.json")
}

/// OpenCode's authentication file.
pub fn opencode_auth_file(env: &Env) -> (r: Result<String, String>)
    ensures
        path_outcome(r, under(env.windows, under(env.windows, data_home_spec(*env), "opencode"@), "auth.json"@)),
{
    join_result(env.windows, join_result(env.windows, xdg_data_home(env), OPENCODE_DIR_NAME), "auth.json")
}

/// OMO's cache directory.
pub fn omo_cache_dir(env: &Env) -> (r: Result<String, String>)
    ensures
        path_outcome(r, under(env.windows, cache_home_spec(*env), "oh-my-opencode"@)),
{
    join_result(env.windows, xdg_cache_home(env), OMO_CACHE_DIR_NAME)
}

/// This application's configuration directory.
pub fn omo_switch_config_dir(env: &Env) -> (r: Result<String, String>)
    ensures
        path_outcome(r, under(env.windows, config_home_spec(*env), "OMO-Switch"@)),
{
    join_result(env.windows, xdg_config_home(env), OMO_SWITCH_DIR_NAME)
}

/// The directory of saved presets.
pub fn omo_switch_presets_dir(env: &Env) -> (r: Result<String, String>)
    ensures
        path_outcome(r, under(env.windows, under(env.windows, config_home_spec(*env), "OMO-Switch"@), "presets"@)),
{
    join_result(env.windows, omo_switch_config_dir(env), "presets")
}

/// The directory of OpenCode configuration backups.
pub fn opencode_backups_dir(env: &Env) -> (r: Result<String, String>)
    ensures
        path_outcome(r, under(env.windows, config_dir_spec(*env), "backups"@)),
{
    join_result(env.windows, opencode_config_dir(env), "backups")
}

/// Removing repeats leaves no element twice.
pub proof fn lemma_dedup_no_duplicates(s: Seq<Seq<char>>)
    ensures
        dedup(s).no_duplicates(),
    decreases s.len(),
{
    if s.len() > 0 {
        lemma_dedup_no_duplicates(s.drop_last());
        let d = dedup(s.drop_last());
        if !d.contains(s.last()) {
            let e = d.push(s.last());
            assert forall|i: int, j: int| 0 <= i < e.len() && 0 <= j < e.len() && i != j implies e[i] != e[j] by {
                if i < d.len() && j < d.len() {
                    assert(e[i] == d[i] && e[j] == d[j]);
                } else if i == d.len() {
                    assert(e[j] == d[j]);
                } else {
                    assert(e[i] == d[i]);
                }
            }
        }
    }
}

/// Removing repeats keeps every element and adds none.
pub proof fn lemma_dedup_contains(s: Seq<Seq<char>>, x: Seq<char>)
    ensures
        dedup(s).contains(x) == s.contains(x),
    decreases s.len(),
{
    if s.len() > 0 {
        lemma_dedup_contains(s.drop_last(), x);
        assert(s == s.drop_last().push(s.last()));
        if s.drop_last().contains(x) {
            let i = choose|i: int| 0 <= i < s.drop_last().len() && s.drop_last()[i] == x;
            assert(s[i] == x);
        }
        if s.contains(x) && x != s.last() {
            let i = choose|i: int| 0 <= i < s.len() && s[i] == x;
            assert(s.drop_last()[i] == x);
        }
        if !dedup(s.drop_last()).contains(s.last()) {
            let d = dedup(s.drop_last());
            assert(d.push(s.last())[d.len() as int] == s.last());
            if d.contains(x) {
                let i = choose|i: int| 0 <= i < d.len() && d[i] == x;
                assert(d.push(s.last())[i] == x);
            }
            if d.push(s.last()).contains(x) && x != s.last() {
                let i = choose|i: int| 0 <= i < d.len() + 1 && d.push(s.last())[i] == x;
                assert(d[i] == x);
            }
        }
    }
}

/// Appends `path` to `paths` unless it is there already.
pub fn push_unique(paths: &mut Vec<String>, path: String)
    ensures
        final(paths).deep_view() == (if old(paths).deep_view().contains(path@) {
            old(paths).deep_view()
        } else {
            old(paths).deep_view().push(path@)
        }),
{
    let mut i: usize = 0;
    while i < paths.len()
        invariant
            i <= paths.len(),
            forall|j: int| 0 <= j < i ==> paths.deep_view()[j] != path@,
        decreases paths.len() - i,
    {
        if str_eq(paths[i].as_str(), path.as_str()) {
            assert(paths.deep_view()[i as int] == path@);
            return;
        }
        i = i + 1;
    }
    let ghost before = paths.deep_view();
    paths.push(path);
    assert(paths.deep_view() =~= before.push(path@));
}

/// The directories searched for OpenCode configuration.
pub fn opencode_config_dirs(env: &Env) -> (r: Result<Vec<String>, String>)
    ensures
        match r {
            Ok(ds) => config_dir_spec(*env) matches Some(d) && ds.deep_view() == config_dirs_spec(*env, d),
            Err(e) => config_dir_spec(*env) is None && e@ == home_error(),
        },
{
    let mut dirs: Vec<String> = Vec::new();
    let override_dir = non_empty_env_path(&env.opencode_config_dir);
    let ghost first = opt_seq(env_path(env.opencode_config_dir));
    if let Some(d) = override_dir {
        proof {
            assert(dirs.deep_view() =~= Seq::<Seq<char>>::empty());
        }
        push_unique(&mut dirs, d);
        proof {
            assert(first.drop_last() == Seq::<Seq<char>>::empty());
            assert(dedup(Seq::<Seq<char>>::empty()) == Seq::<Seq<char>>::empty());
            assert(dirs.deep_view() =~= dedup(first));
        }
    } else {
        assert(dedup(Seq::<Seq<char>>::empty()) == Seq::<Seq<char>>::empty());
        assert(dirs.deep_view() =~= dedup(first));
    }
    let dir = opencode_config_dir(env)?;
    let ghost before = dirs.deep_view();
    push_unique(&mut dirs, dir);
    proof {
        assert(first.push(dir@).drop_last() == first);
        lemma_dedup_contains(first, dir@);
        assert(first.push(dir@).last() == dir@);
    }
    Ok(dirs)
}

/// The OpenCode configuration files in the order they are preferred.
pub fn opencode_config_candidates(env: &Env) -> (r: Result<Vec<String>, String>)
    ensures
        match r {
            Ok(cs) => config_dir_spec(*env) matches Some(d) && cs.deep_view() == config_candidates_spec(*env, d),
            Err(e) => config_dir_spec(*env) is None && e@ == home_error(),
        },
{
    let mut cands: Vec<String> = Vec::new();
    let ghost first = opt_seq(env_path(env.opencode_config));
    assert(dedup(Seq::<Seq<char>>::empty()) == Seq::<Seq<char>>::empty());
    if let Some(p) = non_empty_env_path(&env.opencode_config) {
        proof {
            assert(cands.deep_view() =~= Seq::<Seq<char>>::empty());
        }
        push_unique(&mut cands, p);
        proof {
            assert(first.drop_last() == Seq::<Seq<char>>::empty());
        }
    }
    assert(cands.deep_view() =~= dedup(first));
    let dirs = opencode_config_dirs(env)?;
    let ghost ds = dirs.deep_view();
    let mut i: usize = 0;
    while i < dirs.len()
        invariant
            i <= dirs.len(),
            ds == dirs.deep_view(),
            cands.deep_view() == dedup(first + config_files_in(env.windows, ds.take(i as int))),
        decreases dirs.len() - i,
    {
        let json = join_path(env.windows, dirs[i].as_str(), "opencode.json");
        let jsonc = join_path(env.windows, dirs[i].as_str(), "opencode.jsonc");
        let ghost prefix = first + config_files_in(env.windows, ds.take(i as int));
        push_unique(&mut cands, json);
        let ghost mid = prefix.push(json@);
        proof {
            assert(mid.drop_last() == prefix);
            assert(cands.deep_view() == dedup(mid));
        }
        push_unique(&mut cands, jsonc);
        proof {
            let all = mid.push(jsonc@);
            assert(all.drop_last() == mid);
            assert(cands.deep_view() == dedup(all));
            assert(ds.take(i + 1).drop_last() == ds.take(i as int));
            assert(ds.take(i + 1).last() == ds[i as int]);
            assert(dirs.deep_view()[i as int] == dirs[i as int]@);
            assert(config_files_in(env.windows, ds.take(i + 1)) == config_files_in(env.windows, ds.take(i as int)) + seq![json@, jsonc@]);
            assert(all =~= first + config_files_in(env.windows, ds.take(i + 1)));
        }
        i = i + 1;
    }
    assert(ds.take(dirs.len() as int) == ds);
    Ok(cands)
}

/// The OpenCode configuration file to write: the first candidate that exists, or
/// `opencode.json` in the configuration directory.
pub fn opencode_config_write_file(env: &Env, existing: &Vec<String>) -> (r: Result<String, String>)
    ensures
        match r {
            Ok(p) => config_dir_spec(*env) matches Some(d) && p@ == first_existing(
                config_candidates_spec(*env, d),
                existing.deep_view(),
                join_spec(env.windows, d, "opencode.json"@),
            ),
            Err(e) => config_dir_spec(*env) is None && e@ == home_error(),
        },
{
    let cands = opencode_config_candidates(env)?;
    let ghost cs = cands.deep_view();
    let mut i: usize = 0;
    while i < cands.len()
        invariant
            i <= cands.len(),
            cs == cands.deep_view(),
            config_dir_spec(*env) is Some,
            cs == config_candidates_spec(*env, config_dir_spec(*env)->Some_0),
            forall|j: int| 0 <= j < i ==> !existing.deep_view().contains(#[trigger] cs[j]),
        decreases cands.len() - i,
    {
        let mut k: usize = 0;
        while k < existing.len()
            invariant
                k <= existing.len(),
                i < cands.len(),
                cs == cands.deep_view(),
                config_dir_spec(*env) is Some,
                cs == config_candidates_spec(*env, config_dir_spec(*env)->Some_0),
                forall|j: int| 0 <= j < i ==> !existing.deep_view().contains(#[trigger] cs[j]),
                forall|j: int| 0 <= j < k ==> existing.deep_view()[j] != cs[i as int],
            decreases existing.len() - k,
        {
            if str_eq(existing[k].as_str(), cands[i].as_str()) {
                assert(existing.deep_view()[k as int] == cs[i as int]);
                proof {
                    let d = join_spec(env.windows, config_dir_spec(*env)->Some_0, "opencode.json"@);
                    lemma_first_existing(cs, existing.deep_view(), i as int, d);
                    assert(existing.deep_view().contains(cs[i as int]));
                    assert(cs.subrange(i as int, cs.len() as int)[0] == cs[i as int]);
                }
                return Ok(owned(cands[i].as_str()));
            }
            k = k + 1;
        }
        assert(!existing.deep_view().contains(cs[i as int]));
        i = i + 1;
    }
    let file = opencode_config_file(env)?;
    proof {
        let d = join_spec(env.windows, config_dir_spec(*env)->Some_0, "opencode.json"@);
        lemma_first_existing(cs, existing.deep_view(), cs.len() as int, d);
        assert(cs.subrange(cs.len() as int, cs.len() as int).len() == 0);
    }
    Ok(file)
}

proof fn lemma_first_existing(cs: Seq<Seq<char>>, ex: Seq<Seq<char>>, i: int, d: Seq<char>)
    requires
        0 <= i <= cs.len(),
        forall|j: int| 0 <= j < i ==> !ex.contains(#[trigger] cs[j]),
    ensures
        first_existing(cs, ex, d) == first_existing(cs.subrange(i, cs.len() as int), ex, d),
    decreases i,
{
    if i == 0 {
        assert(cs.subrange(0, cs.len() as int) == cs);
    } else {
        assert(!ex.contains(cs[0]));
        let t = cs.drop_first();
        assert forall|j: int| 0 <= j < i - 1 implies !ex.contains(#[trigger] t[j]) by {
            assert(t[j] == cs[j + 1]);
        }
        lemma_first_existing(t, ex, i - 1, d);
        assert(t.subrange(i - 1, t.len() as int) == cs.subrange(i, cs.len() as int));
    }
}

} // verus!
