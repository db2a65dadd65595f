//! Version strings, install detection and update hints for OpenCode and Oh My OpenAgent.
use vstd::prelude::*;

use crate::install::{DetectionView, InstallDetection};
use crate::json::{text_of, JsonValue};
use crate::order::{as_ints, lemma_lex_irreflexive, lemma_lex_total, lemma_lex_transitive, lex_lt, u32s_lt};
use crate::text::{is_ascii_digit, owned, str_eq, string_from_chars, to_chars, trim, trim_spec};

verus! {

/// The pieces of `s` between `.` characters, as `str::split('.')` gives them.
pub open spec fn split_dot(s: Seq<char>) -> Seq<Seq<char>>
    decreases s.len(),
{
    if s.len() == 0 {
        seq![Seq::<char>::empty()]
    } else {
        let p = split_dot(s.drop_last());
        if s.last() == '.' {
            p.push(Seq::<char>::empty())
        } else {
            p.update(p.len() - 1, p.last().push(s.last()))
        }
    }
}

/// The number that a string of decimal digits denotes.
pub open spec fn digits_value(d: Seq<char>) -> int
    decreases d.len(),
{
    if d.len() == 0 {
        0
    } else {
        digits_value(d.drop_last()) * 10 + (d.last() as int - '0' as int)
    }
}

/// Every character is a decimal digit.
pub open spec fn all_digits(d: Seq<char>) -> bool {
    forall|i: int| 0 <= i < d.len() ==> is_ascii_digit(#[trigger] d[i])
}

/// What `str::parse::<u32>` gives: an optional `+`, then one or more decimal digits whose
/// value fits in 32 bits.
pub open spec fn parse_u32_spec(p: Seq<char>) -> Option<u32> {
    let d = if p.len() > 0 && p[0] == '+' {
        p.drop_first()
    } else {
        p
    };
    if d.len() > 0 && all_digits(d) && digits_value(d) <= u32::MAX {
        Some(digits_value(d) as u32)
    } else {
        None
    }
}

/// The pieces that parse as numbers, in order, as numbers.
pub open spec fn parsed_pieces(ps: Seq<Seq<char>>) -> Seq<u32>
    decreases ps.len(),
{
    if ps.len() == 0 {
        Seq::empty()
    } else {
        match parse_u32_spec(ps.last()) {
            Some(v) => parsed_pieces(ps.drop_last()).push(v),
            None => parsed_pieces(ps.drop_last()),
        }
    }
}

/// The numeric components of a dotted version string; pieces that are no number are skipped.
pub open spec fn version_numbers(s: Seq<char>) -> Seq<u32> {
    parsed_pieces(split_dot(s))
}

/// `latest` is a newer version than `current`: its numbers come after in lexicographic order.
pub open spec fn newer_spec(current: Seq<char>, latest: Seq<char>) -> bool {
    lex_lt(as_ints(version_numbers(current)), as_ints(version_numbers(latest)))
}

proof fn lemma_split_nonempty(s: Seq<char>)
    ensures
        split_dot(s).len() >= 1,
    decreases s.len(),
{
    if s.len() > 0 {
        lemma_split_nonempty(s.drop_last());
    }
}

proof fn lemma_digits_grow(d: Seq<char>, j: int)
    requires
        0 <= j <= d.len(),
        all_digits(d),
    ensures
        digits_value(d.take(j)) <= digits_value(d),
        digits_value(d) >= 0,
    decreases d.len(),
{
    if d.len() > 0 {
        let e = d.drop_last();
        assert(all_digits(e)) by {
            assert forall|i: int| 0 <= i < e.len() implies is_ascii_digit(#[trigger] e[i]) by {
                assert(e[i] == d[i]);
            }
        }
        assert(is_ascii_digit(d[d.len() - 1]));
        if j < d.len() {
            lemma_digits_grow(e, j);
            assert(e.take(j) == d.take(j));
        } else {
            lemma_digits_grow(e, 0);
            assert(d.take(j) == d);
        }
    } else {
        assert(d.take(j) == d);
    }
}

/// The number that `v[lo..hi]` denotes as `str::parse::<u32>` reads it.
fn parse_u32_piece(v: &Vec<char>, lo: usize, hi: usize) -> (r: Option<u32>)
    requires
        lo <= hi <= v.len(),
    ensures
        r == parse_u32_spec(v@.subrange(lo as int, hi as int)),
{
    let ghost p = v@.subrange(lo as int, hi as int);
    let mut start = lo;
    if lo < hi && v[lo] == '+' {
        start = lo + 1;
    }
    let ghost d = v@.subrange(start as int, hi as int);
    proof {
        if lo < hi && v@[lo as int] == '+' {
            assert(p[0] == '+');
            assert(p.drop_first() == d);
        } else {
            assert(p == d);
        }
    }
    if start == hi {
        return None;
    }
    let mut acc: u64 = 0;
    let mut i = start;
    while i < hi
        invariant
            start <= i <= hi <= v.len(),
            start < hi,
            d == v@.subrange(start as int, hi as int),
            p == v@.subrange(lo as int, hi as int),
            (if p.len() > 0 && p[0] == '+' { p.drop_first() } else { p }) == d,
            all_digits(d.take(i - start)),
            acc == digits_value(d.take(i - start)),
            acc <= u32::MAX,
        decreases hi - i,
    {
        let c = v[i];
        let ghost t = d.take(i - start + 1);
        proof {
            assert(t.drop_last() == d.take(i - start));
            assert(t.last() == c);
        }
        if !('0' <= c && c <= '9') {
            assert(!all_digits(d)) by {
                assert(d[i - start] == c);
            }
            return None;
        }
        let digit = (c as u32 - '0' as u32) as u64;
        acc = acc * 10 + digit;
        proof {
            assert forall|k: int| 0 <= k < t.len() implies is_ascii_digit(#[trigger] t[k]) by {
                if k < t.len() - 1 {
                    assert(t[k] == d.take(i - start)[k]);
                }
            }
        }
        if acc > 0xffff_ffff {
            proof {
                if all_digits(d) {
                    lemma_digits_grow(d, i - start + 1);
                }
            }
            return None;
        }
        i = i + 1;
    }
    assert(d.take(hi - start) == d);
    Some(acc as u32)
}

/// The numeric components of a dotted version string.
pub fn version_numbers_of(s: &str) -> (r: Vec<u32>)
    ensures
        r@ == version_numbers(s@),
{
    let v = to_chars(s);
    let mut out: Vec<u32> = Vec::new();
    let ghost mut done: Seq<Seq<char>> = Seq::empty();
    let mut start: usize = 0;
    let mut i: usize = 0;
    proof {
        assert(v@.take(0) == Seq::<char>::empty());
        assert(v@.subrange(0, 0) == Seq::<char>::empty());
    }
    while i < v.len()
        invariant
            start <= i <= v.len(),
            v@ == s@,
            split_dot(v@.take(i as int)) == done.push(v@.subrange(start as int, i as int)),
            out@ == parsed_pieces(done),
        decreases v.len() - i,
    {
        proof {
            assert(v@.take(i + 1).drop_last() == v@.take(i as int));
            assert(v@.take(i + 1).last() == v@[i as int]);
        }
        if v[i] == '.' {
            let n = parse_u32_piece(&v, start, i);
            let ghost piece = v@.subrange(start as int, i as int);
            proof {
                assert(done.push(piece).drop_last() == done);
                assert(done.push(piece).last() == piece);
            }
            if let Some(x) = n {
                out.push(x);
            }
            proof {
                done = done.push(piece);
                assert(v@.subrange((i + 1) as int, (i + 1) as int) == Seq::<char>::empty());
            }
            start = i + 1;
        } else {
            proof {
                let prev = done.push(v@.subrange(start as int, i as int));
                assert(v@.subrange(start as int, i + 1) == v@.subrange(start as int, i as int).push(v@[i as int]));
                assert(prev.update(prev.len() - 1, prev.last().push(v@[i as int])) =~= done.push(v@.subrange(start as int, i + 1)));
            }
        }
        i = i + 1;
    }
    let last = parse_u32_piece(&v, start, v.len());
    let ghost piece = v@.subrange(start as int, v.len() as int);
    proof {
        assert(v@.take(v.len() as int) == v@);
        assert(done.push(piece).drop_last() == done);
        assert(done.push(piece).last() == piece);
    }
    if let Some(x) = last {
        out.push(x);
    }
    out
}

/// Whether `latest` is a newer version than `current`, comparing their dotted numbers.
pub fn has_newer_version(current: &str, latest: &str) -> (r: bool)
    ensures
        r == newer_spec(current@, latest@),
{
    let c = version_numbers_of(current);
    let l = version_numbers_of(latest);
    u32s_lt(&c, &l)
}

/// No version is newer than itself.
pub proof fn law_not_newer_than_itself(v: Seq<char>)
    ensures
        !newer_spec(v, v),
{
    lemma_lex_irreflexive(as_ints(version_numbers(v)));
}

/// Of two versions, at most one is newer than the other.
pub proof fn law_newer_asymmetric(a: Seq<char>, b: Seq<char>)
    ensures
        !(newer_spec(a, b) && newer_spec(b, a)),
{
    if newer_spec(a, b) && newer_spec(b, a) {
        lemma_lex_transitive(as_ints(version_numbers(a)), as_ints(version_numbers(b)), as_ints(version_numbers(a)));
        lemma_lex_irreflexive(as_ints(version_numbers(a)));
    }
}

/// A version newer than a version newer than `a` is newer than `a`.
pub proof fn law_newer_transitive(a: Seq<char>, b: Seq<char>, c: Seq<char>)
    requires
        newer_spec(a, b),
        newer_spec(b, c),
    ensures
        newer_spec(a, c),
{
    lemma_lex_transitive(as_ints(version_numbers(a)), as_ints(version_numbers(b)), as_ints(version_numbers(c)));
}

/// Two versions with different numbers are ordered one way or the other.
pub proof fn law_newer_total(a: Seq<char>, b: Seq<char>)
    ensures
        newer_spec(a, b) || newer_spec(b, a) || version_numbers(a) == version_numbers(b),
{
    lemma_lex_total(as_ints(version_numbers(a)), as_ints(version_numbers(b)));
    if as_ints(version_numbers(a)) == as_ints(version_numbers(b)) {
        let x = version_numbers(a);
        let y = version_numbers(b);
        assert(as_ints(x).len() == x.len());
        assert(as_ints(y).len() == y.len());
        assert(x.len() == y.len());
        assert forall|i: int| 0 <= i < x.len() implies x[i] == y[i] by {
            assert(as_ints(x)[i] == as_ints(y)[i]);
        }
        assert(x =~= y);
    }
}


/// Text that `str::parse::<u32>` reads as a number: decimal digits whose value fits in 32 bits.
pub open spec fn is_u32_text(d: Seq<char>) -> bool {
    d.len() > 0 && all_digits(d) && digits_value(d) <= u32::MAX
}

/// A text without dots splits into itself after the pieces before it.
proof fn lemma_split_append_plain(p: Seq<char>, t: Seq<char>)
    requires
        forall|i: int| 0 <= i < t.len() ==> t[i] != '.',
    ensures
        split_dot(p + t) == split_dot(p).update(split_dot(p).len() - 1, split_dot(p).last() + t),
    decreases t.len(),
{
    lemma_split_nonempty(p);
    if t.len() == 0 {
        assert(p + t =~= p);
        assert(split_dot(p).last() + t =~= split_dot(p).last());
        assert(split_dot(p).update(split_dot(p).len() - 1, split_dot(p).last()) =~= split_dot(p));
    } else {
        let t0 = t.drop_last();
        lemma_split_append_plain(p, t0);
        assert((p + t).drop_last() =~= p + t0);
        assert((p + t).last() == t.last());
        let q = split_dot(p);
        let r = split_dot(p + t0);
        assert(r.last() =~= q.last() + t0);
        assert(r.last().push(t.last()) =~= q.last() + t);
        assert(r.update(r.len() - 1, r.last().push(t.last())) =~= q.update(q.len() - 1, q.last() + t));
    }
}

proof fn lemma_split_dotted(s: Seq<char>, t: Seq<char>)
    requires
        forall|i: int| 0 <= i < t.len() ==> t[i] != '.',
    ensures
        split_dot(s + seq!['.'] + t) == split_dot(s).push(t),
{
    let sd = s + seq!['.'];
    assert(sd.drop_last() =~= s);
    assert(sd.last() == '.');
    lemma_split_nonempty(s);
    lemma_split_append_plain(sd, t);
    let q = split_dot(sd);
    assert(q == split_dot(s).push(Seq::<char>::empty()));
    assert(Seq::<char>::empty() + t =~= t);
    assert(q.update(q.len() - 1, q.last() + t) =~= split_dot(s).push(t));
}

proof fn lemma_number_text(d: Seq<char>)
    requires
        is_u32_text(d),
    ensures
        parse_u32_spec(d) == Some(digits_value(d) as u32),
        0 <= digits_value(d) <= u32::MAX,
        forall|i: int| 0 <= i < d.len() ==> d[i] != '.',
{
    lemma_digits_grow(d, 0);
    assert(is_ascii_digit(d[0]));
    assert forall|i: int| 0 <= i < d.len() implies d[i] != '.' by {
        assert(is_ascii_digit(d[i]));
    }
}

/// A version written as three decimal numbers separated by dots has those three numbers.
pub proof fn law_version_numbers_of_triple(a: Seq<char>, b: Seq<char>, c: Seq<char>)
    requires
        is_u32_text(a),
        is_u32_text(b),
        is_u32_text(c),
    ensures
        version_numbers(a + "."@ + b + "."@ + c) == seq![
            digits_value(a) as u32,
            digits_value(b) as u32,
            digits_value(c) as u32,
        ],
{
    reveal_strlit(".");
    lemma_number_text(a);
    lemma_number_text(b);
    lemma_number_text(c);
    let e = Seq::<char>::empty();
    lemma_split_append_plain(e, a);
    assert(e + a =~= a);
    assert(split_dot(e) =~= seq![e]);
    assert(split_dot(a) =~= seq![a]);
    lemma_split_dotted(a, b);
    assert(a + "."@ + b =~= a + seq!['.'] + b);
    lemma_split_dotted(a + "."@ + b, c);
    assert(a + "."@ + b + "."@ + c =~= (a + "."@ + b) + seq!['.'] + c);
    let ps = seq![a, b, c];
    assert(split_dot(a + "."@ + b + "."@ + c) =~= ps);
    assert(ps.drop_last() =~= seq![a, b]);
    assert(seq![a, b].drop_last() =~= seq![a]);
    assert(seq![a].drop_last() =~= Seq::<Seq<char>>::empty());
    let va = digits_value(a) as u32;
    let vb = digits_value(b) as u32;
    let vc = digits_value(c) as u32;
    assert(parsed_pieces(Seq::<Seq<char>>::empty()) =~= Seq::<u32>::empty());
    assert(parsed_pieces(seq![a]) =~= seq![va]);
    assert(parsed_pieces(seq![a, b]) =~= seq![va, vb]);
    assert(parsed_pieces(ps) =~= seq![va, vb, vc]);
}

/// Of two versions written as three decimal numbers each, the latest is newer exactly when
/// its numbers come after the current one's, compared first to last.
pub proof fn law_newer_on_triples(a: Seq<char>, b: Seq<char>, c: Seq<char>, x: Seq<char>, y: Seq<char>, z: Seq<char>)
    requires
        is_u32_text(a),
        is_u32_text(b),
        is_u32_text(c),
        is_u32_text(x),
        is_u32_text(y),
        is_u32_text(z),
    ensures
        newer_spec(a + "."@ + b + "."@ + c, x + "."@ + y + "."@ + z) == lex_lt(
            seq![digits_value(a), digits_value(b), digits_value(c)],
            seq![digits_value(x), digits_value(y), digits_value(z)],
        ),
{
    law_version_numbers_of_triple(a, b, c);
    law_version_numbers_of_triple(x, y, z);
    lemma_number_text(a);
    lemma_number_text(b);
    lemma_number_text(c);
    lemma_number_text(x);
    lemma_number_text(y);
    lemma_number_text(z);
    let u = version_numbers(a + "."@ + b + "."@ + c);
    let v = version_numbers(x + "."@ + y + "."@ + z);
    assert(as_ints(u) =~= seq![digits_value(a), digits_value(b), digits_value(c)]);
    assert(as_ints(v) =~= seq![digits_value(x), digits_value(y), digits_value(z)]);
}

/// The installed and latest versions of a program, and how to update it.
#[derive(Debug)]
pub struct VersionInfo {
    pub name: String,
    pub current_version: Option<String>,
    pub latest_version: Option<String>,
    pub has_update: bool,
    pub update_command: String,
    pub update_hint: String,
    pub installed: bool,
    pub install_source: Option<String>,
    pub install_path: Option<String>,
    pub detected_from: Option<String>,
}

/// A version report as text.
pub struct VersionInfoView {
    pub name: Seq<char>,
    pub current_version: Option<Seq<char>>,
    pub latest_version: Option<Seq<char>>,
    pub has_update: bool,
    pub update_command: Seq<char>,
    pub update_hint: Seq<char>,
    pub installed: bool,
    pub install_source: Option<Seq<char>>,
    pub install_path: Option<Seq<char>>,
    pub detected_from: Option<Seq<char>>,
}

impl DeepView for VersionInfo {
    type V = VersionInfoView;

    open spec fn deep_view(&self) -> VersionInfoView {
        VersionInfoView {
            name: self.name@,
            current_version: self.current_version.deep_view(),
            latest_version: self.latest_version.deep_view(),
            has_update: self.has_update,
            update_command: self.update_command@,
            update_hint: self.update_hint@,
            installed: self.installed,
            install_source: self.install_source.deep_view(),
            install_path: self.install_path.deep_view(),
            detected_from: self.detected_from.deep_view(),
        }
    }
}

/// The command that updates Oh My OpenAgent in OpenCode's runtime directory.
pub open spec fn runtime_update_command() -> Seq<char> {
    "cd ~/.opencode && npm install oh-my-opencode@latest"@
}

/// The update command and hint for an Oh My OpenAgent install, by where it was found.
pub open spec fn update_command_spec(source: Option<Seq<char>>) -> (Seq<char>, Seq<char>) {
    match source {
        Some(s) => if s == "opencode_runtime"@ {
            (runtime_update_command(), "在当前 opencode 运行目录升级："@)
        } else if s == "npm_global"@ {
            ("npm install -g oh-my-opencode@latest"@, "通过 npm 全局升级："@)
        } else if s == "bun_global"@ {
            ("bun add -g oh-my-opencode@latest"@, "通过 bun 全局升级："@)
        } else if s == "config_local"@ {
            ("cd ~/.config/opencode && npm install oh-my-opencode@latest"@, "在本地 opencode 配置目录升级："@)
        } else if s == "config_declared"@ {
            (runtime_update_command(), "配置中已声明插件，建议在实际运行目录安装/升级："@)
        } else if s == "opencode_cache"@ {
            (runtime_update_command(), "检测到缓存版本，建议在实际运行目录重新安装："@)
        } else {
            (runtime_update_command(), "建议在 opencode 运行目录安装/升级："@)
        },
        None => (runtime_update_command(), "建议在 opencode 运行目录安装/升级："@),
    }
}

/// The update command and hint for an Oh My OpenAgent install, by where it was found.
pub fn build_omo_update_command(install_source: Option<&str>) -> (r: (String, String))
    ensures
        (r.0@, r.1@) == update_command_spec(
            match install_source {
                Some(s) => Some(s@),
                None => None,
            },
        ),
{
    let runtime = "cd ~/.opencode && npm install oh-my-opencode@latest";
    match install_source {
        Some(s) => if str_eq(s, "opencode_runtime") {
            (owned(runtime), owned("在当前 opencode 运行目录升级："))
        } else if str_eq(s, "npm_global") {
            (owned("npm install -g oh-my-opencode@latest"), owned("通过 npm 全局升级："))
        } else if str_eq(s, "bun_global") {
            (owned("bun add -g oh-my-opencode@latest"), owned("通过 bun 全局升级："))
        } else if str_eq(s, "config_local") {
            (owned("cd ~/.config/opencode && npm install oh-my-opencode@latest"), owned("在本地 opencode 配置目录升级："))
        } else if str_eq(s, "config_declared") {
            (owned(runtime), owned("配置中已声明插件，建议在实际运行目录安装/升级："))
        } else if str_eq(s, "opencode_cache") {
            (owned(runtime), owned("检测到缓存版本，建议在实际运行目录重新安装："))
        } else {
            (owned(runtime), owned("建议在 opencode 运行目录安装/升级："))
        },
        None => (owned(runtime), owned("建议在 opencode 运行目录安装/升级：")),
    }
}

/// There is an update when both versions are known and the latest is newer.
pub open spec fn update_available(current: Option<Seq<char>>, latest: Option<Seq<char>>) -> bool {
    match (current, latest) {
        (Some(c), Some(l)) => newer_spec(c, l),
        _ => false,
    }
}

/// The detection's field, where there is a detection.
pub open spec fn detection_field(d: Option<DetectionView>, which: int) -> Option<Seq<char>> {
    match d {
        Some(v) => Some(if which == 0 {
            v.install_source
        } else if which == 1 {
            v.install_path
        } else {
            v.detected_from
        }),
        None => None,
    }
}

/// The detected version, where there is a detection that found one.
pub open spec fn detected_version(d: Option<DetectionView>) -> Option<Seq<char>> {
    match d {
        Some(v) => v.version,
        None => None,
    }
}

/// The report on OpenCode.
pub open spec fn opencode_report(d: Option<DetectionView>, latest: Option<Seq<char>>) -> VersionInfoView {
    VersionInfoView {
        name: "OpenCode"@,
        current_version: detected_version(d),
        latest_version: latest,
        has_update: update_available(detected_version(d), latest),
        update_command: "opencode upgrade"@,
        update_hint: "Run 'opencode upgrade' in terminal"@,
        installed: detected_version(d) is Some,
        install_source: detection_field(d, 0),
        install_path: detection_field(d, 1),
        detected_from: detection_field(d, 2),
    }
}

/// The report on Oh My OpenAgent.
pub open spec fn omo_report(d: Option<DetectionView>, latest: Option<Seq<char>>, installed: bool) -> VersionInfoView {
    VersionInfoView {
        name: "Oh My OpenAgent"@,
        current_version: detected_version(d),
        latest_version: latest,
        has_update: update_available(detected_version(d), latest),
        update_command: update_command_spec(detection_field(d, 0)).0,
        update_hint: update_command_spec(detection_field(d, 0)).1,
        installed,
        install_source: detection_field(d, 0),
        install_path: detection_field(d, 1),
        detected_from: detection_field(d, 2),
    }
}

fn copy_opt(o: &Option<String>) -> (r: Option<String>)
    ensures
        r.deep_view() == o.deep_view(),
{
    match o {
        Some(s) => Some(owned(s.as_str())),
        None => None,
    }
}

fn update_flag(current: &Option<String>, latest: &Option<String>) -> (r: bool)
    ensures
        r == update_available(current.deep_view(), latest.deep_view()),
{
    match (current, latest) {
        (Some(c), Some(l)) => has_newer_version(c.as_str(), l.as_str()),
        _ => false,
    }
}

fn detection_parts(d: &Option<InstallDetection>) -> (r: (Option<String>, Option<String>, Option<String>, Option<String>))
    ensures
        r.0.deep_view() == detected_version(d.deep_view()),
        r.1.deep_view() == detection_field(d.deep_view(), 0),
        r.2.deep_view() == detection_field(d.deep_view(), 1),
        r.3.deep_view() == detection_field(d.deep_view(), 2),
{
    match d {
        Some(x) => (
            copy_opt(&x.version),
            Some(owned(x.install_source.as_str())),
            Some(owned(x.install_path.as_str())),
            Some(owned(x.detected_from.as_str())),
        ),
        None => (None, None, None, None),
    }
}

/// The version reports for OpenCode and Oh My OpenAgent, from what detection found, the
/// latest published versions, and whether Oh My OpenAgent counts as installed.
pub fn check_all_versions(
    opencode: &Option<InstallDetection>,
    opencode_latest: Option<String>,
    omo: &Option<InstallDetection>,
    omo_latest: Option<String>,
    omo_installed: bool,
) -> (r: Vec<VersionInfo>)
    ensures
        r.deep_view() == seq![
            opencode_report(opencode.deep_view(), opencode_latest.deep_view()),
            omo_report(omo.deep_view(), omo_latest.deep_view(), omo_installed),
        ],
{
    let mut results: Vec<VersionInfo> = Vec::new();
    let (oc_current, oc_source, oc_path, oc_from) = detection_parts(opencode);
    let oc_update = update_flag(&oc_current, &opencode_latest);
    let oc_installed = oc_current.is_some();
    results.push(
        VersionInfo {
            name: owned("OpenCode"),
            current_version: oc_current,
            latest_version: opencode_latest,
            has_update: oc_update,
            update_command: owned("opencode upgrade"),
            update_hint: owned("Run 'opencode upgrade' in terminal"),
            installed: oc_installed,
            install_source: oc_source,
            install_path: oc_path,
            detected_from: oc_from,
        },
    );
    let (omo_current, omo_source, omo_path, omo_from) = detection_parts(omo);
    let has_update = update_flag(&omo_current, &omo_latest);
    let (update_command, update_hint) = build_omo_update_command(
        match &omo_source {
            Some(s) => Some(s.as_str()),
            None => None,
        },
    );
    results.push(
        VersionInfo {
            name: owned("Oh My OpenAgent"),
            current_version: omo_current,
            latest_version: omo_latest,
            has_update,
            update_command,
            update_hint,
            installed: omo_installed,
            install_source: omo_source,
            install_path: omo_path,
            detected_from: omo_from,
        },
    );
    assert(results.deep_view() =~= seq![
        opencode_report(opencode.deep_view(), opencode_latest.deep_view()),
        omo_report(omo.deep_view(), omo_latest.deep_view(), omo_installed),
    ]);
    results
}

/// The latest Oh My OpenAgent version: the one published under its current name, else the
/// one under its former name.
pub fn get_omo_latest_version(openagent: Option<String>, opencode_legacy: Option<String>) -> (r: Option<String>)
    ensures
        r.deep_view() == (if openagent is Some {
            openagent.deep_view()
        } else {
            opencode_legacy.deep_view()
        }),
{
    match openagent {
        Some(v) => Some(v),
        None => opencode_legacy,
    }
}

/// `s` without its leading `v` characters.
pub open spec fn trim_v_spec(s: Seq<char>) -> Seq<char>
    decreases s.len(),
{
    if s.len() > 0 && s[0] == 'v' {
        trim_v_spec(s.drop_first())
    } else {
        s
    }
}

/// The release version of a GitHub release document: its `tag_name` without leading `v`s.
pub fn github_release_version_of(doc: &JsonValue) -> (r: Option<String>)
    ensures
        r.deep_view() == match text_of(doc.field("tag_name"@)) {
            Some(t) => Some(trim_v_spec(t)),
            None => None,
        },
{
    let tag = match doc.get("tag_name") {
        Some(v) => match v.as_str() {
            Some(s) => s,
            None => return None,
        },
        None => return None,
    };
    let chars = to_chars(tag);
    let mut i: usize = 0;
    assert(chars@.skip(0) == chars@);
    while i < chars.len() && chars[i] == 'v'
        invariant
            i <= chars.len(),
            chars@ == tag@,
            trim_v_spec(tag@) == trim_v_spec(chars@.skip(i as int)),
        decreases chars.len() - i,
    {
        assert(chars@.skip(i as int).drop_first() == chars@.skip(i + 1));
        i = i + 1;
    }
    assert(chars@.subrange(i as int, chars.len() as int) == chars@.skip(i as int));
    Some(string_from_chars(&chars, i, chars.len()))
}

/// The version a command printed: its output trimmed, where that is not empty.
pub fn version_from_output(output: &str) -> (r: Option<String>)
    ensures
        r.deep_view() == (if trim_spec(output@).len() > 0 {
            Some(trim_spec(output@))
        } else {
            None
        }),
{
    let t = trim(output);
    if to_chars(t.as_str()).len() > 0 {
        Some(t)
    } else {
        None
    }
}


/// Each report offers an update exactly when the installed version and the latest version
/// are both known and the latest is newer than the installed one.
pub proof fn law_update_offered_when_latest_is_newer(
    opencode: Option<DetectionView>,
    opencode_latest: Option<Seq<char>>,
    omo: Option<DetectionView>,
    omo_latest: Option<Seq<char>>,
    omo_installed: bool,
)
    ensures
        opencode_report(opencode, opencode_latest).has_update == (opencode matches Some(d) && d.version matches Some(
            c,
        ) && opencode_latest matches Some(l) && newer_spec(c, l)),
        omo_report(omo, omo_latest, omo_installed).has_update == (omo matches Some(d) && d.version matches Some(c)
            && omo_latest matches Some(l) && newer_spec(c, l)),
{
}

/// With an installed version `a.b.c` and a latest version `x.y.z` in decimal, each report
/// offers an update exactly when `x.y.z` comes after `a.b.c`, compared number by number.
pub proof fn law_update_offered_on_triples(
    d: DetectionView,
    a: Seq<char>,
    b: Seq<char>,
    c: Seq<char>,
    x: Seq<char>,
    y: Seq<char>,
    z: Seq<char>,
    omo_installed: bool,
)
    requires
        is_u32_text(a),
        is_u32_text(b),
        is_u32_text(c),
        is_u32_text(x),
        is_u32_text(y),
        is_u32_text(z),
        d.version == Some(a + "."@ + b + "."@ + c),
    ensures
        opencode_report(Some(d), Some(x + "."@ + y + "."@ + z)).has_update == lex_lt(
            seq![digits_value(a), digits_value(b), digits_value(c)],
            seq![digits_value(x), digits_value(y), digits_value(z)],
        ),
        omo_report(Some(d), Some(x + "."@ + y + "."@ + z), omo_installed).has_update == lex_lt(
            seq![digits_value(a), digits_value(b), digits_value(c)],
            seq![digits_value(x), digits_value(y), digits_value(z)],
        ),
{
    law_newer_on_triples(a, b, c, x, y, z);
}

} // verus!
