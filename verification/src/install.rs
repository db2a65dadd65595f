//! Finding where OpenCode and Oh My OpenAgent are installed.
//!
//! Detection is a list of probes tried in order: a `package.json` whose `version` is read,
//! a dependency declared in a `package.json`, a command whose `--version` output is read, or
//! the plugin declared in the OpenCode configuration. The files, commands and configuration
//! are read outside; [`PackageFacts`] holds what was found, and the first probe that it
//! answers gives the detection.
use vstd::prelude::*;

use crate::json::{parse_json, serde_json_value, text_of, JsonValue};
use crate::paths::{join_path, join_spec, Env};
use crate::text::{concat, has_prefix, is_ascii_digit, owned, starts_with, str_eq, strip_prefix, to_chars, trim, trim_spec};

verus! {

/// What a probe looks at.
#[derive(Debug)]
pub enum ProbeKind {
    /// The `version` of a `package.json`.
    Package(String),
    /// The version of a dependency (second) declared in a `package.json` (first).
    Dependency(String, String),
    /// The `--version` output of a command.
    Command(String),
    /// The plugin declared in the configuration, with the version it is pinned to.
    Declared(Option<String>),
}

/// A probe, and what a hit on it reports.
#[derive(Debug)]
pub struct Probe {
    pub kind: ProbeKind,
    pub install_source: String,
    pub install_path: String,
    pub detected_from: String,
}

/// What a probe looks at, as text.
pub enum ProbeKindView {
    Package(Seq<char>),
    Dependency(Seq<char>, Seq<char>),
    Command(Seq<char>),
    Declared(Option<Seq<char>>),
}

/// A probe as text.
pub struct ProbeView {
    pub kind: ProbeKindView,
    pub install_source: Seq<char>,
    pub install_path: Seq<char>,
    pub detected_from: Seq<char>,
}

impl DeepView for Probe {
    type V = ProbeView;

    open spec fn deep_view(&self) -> ProbeView {
        ProbeView {
            kind: match self.kind {
                ProbeKind::Package(p) => ProbeKindView::Package(p@),
                ProbeKind::Dependency(p, n) => ProbeKindView::Dependency(p@, n@),
                ProbeKind::Command(c) => ProbeKindView::Command(c@),
                ProbeKind::Declared(v) => ProbeKindView::Declared(v.deep_view()),
            },
            install_source: self.install_source@,
            install_path: self.install_path@,
            detected_from: self.detected_from@,
        }
    }
}

/// Where a program was found.
#[derive(Debug)]
pub struct InstallDetection {
    pub version: Option<String>,
    pub install_source: String,
    pub install_path: String,
    pub detected_from: String,
}

/// A detection as text.
pub struct DetectionView {
    pub version: Option<Seq<char>>,
    pub install_source: Seq<char>,
    pub install_path: Seq<char>,
    pub detected_from: Seq<char>,
}

impl DeepView for InstallDetection {
    type V = DetectionView;

    open spec fn deep_view(&self) -> DetectionView {
        DetectionView {
            version: self.version.deep_view(),
            install_source: self.install_source@,
            install_path: self.install_path@,
            detected_from: self.detected_from@,
        }
    }
}

/// The plugin entry found in an OpenCode configuration file.
#[derive(Debug)]
pub struct DeclaredPlugin {
    pub plugin_name: String,
    pub version_spec: Option<String>,
    pub config_path: String,
}

/// A declared plugin as text.
pub struct DeclaredView {
    pub plugin_name: Seq<char>,
    pub version_spec: Option<Seq<char>>,
    pub config_path: Seq<char>,
}

impl DeepView for DeclaredPlugin {
    type V = DeclaredView;

    open spec fn deep_view(&self) -> DeclaredView {
        DeclaredView {
            plugin_name: self.plugin_name@,
            version_spec: self.version_spec.deep_view(),
            config_path: self.config_path@,
        }
    }
}

/// The `version` string of a `package.json` document.
pub fn package_version_of(doc: &JsonValue) -> (r: Option<String>)
    ensures
        r.deep_view() == text_of(doc.field("version"@)),
{
    match doc.get("version") {
        Some(v) => match v.as_str() {
            Some(t) => Some(owned(t)),
            None => None,
        },
        None => None,
    }
}

/// The version string a `package.json` document declares for dependency `name`.
pub fn dependency_version_of(doc: &JsonValue, name: &str) -> (r: Option<String>)
    ensures
        r.deep_view() == match doc.field("dependencies"@) {
            Some(deps) => text_of(deps.field(name@)),
            None => None,
        },
{
    match doc.get("dependencies") {
        Some(deps) => match deps.get(name) {
            Some(v) => match v.as_str() {
                Some(t) => Some(owned(t)),
                None => None,
            },
            None => None,
        },
        None => None,
    }
}

/// The `version` string of a `package.json` text; `None` where the text is not JSON.
pub fn read_pkg_version(content: &str) -> (r: Option<String>)
    ensures
        r.deep_view() == match serde_json_value(content@) {
            Some(doc) => text_of(doc.field("version"@)),
            None => None,
        },
{
    match parse_json(content) {
        Some(doc) => package_version_of(&doc),
        None => None,
    }
}

/// The version string a `package.json` text declares for dependency `dep_name`; `None`
/// where the text is not JSON.
pub fn read_dependency_version(content: &str, dep_name: &str) -> (r: Option<String>)
    ensures
        r.deep_view() == match serde_json_value(content@) {
            Some(doc) => match doc.field("dependencies"@) {
                Some(deps) => text_of(deps.field(dep_name@)),
                None => None,
            },
            None => None,
        },
{
    match parse_json(content) {
        Some(doc) => dependency_version_of(&doc, dep_name),
        None => None,
    }
}

/// What the files and commands that the probes look at were found to hold.
pub struct PackageFacts {
    /// A `package.json` path and the `version` string it holds.
    pub versions: Vec<(String, String)>,
    /// A `package.json` path, a dependency name, and the version string declared for it.
    pub dependencies: Vec<(String, String, String)>,
    /// A command and the version its `--version` printed.
    pub command_versions: Vec<(String, String)>,
}

/// The first entry of `s` under `key`.
pub open spec fn first_of(s: Seq<(Seq<char>, Seq<char>)>, key: Seq<char>) -> Option<Seq<char>>
    decreases s.len(),
{
    if s.len() == 0 {
        None
    } else if s[0].0 == key {
        Some(s[0].1)
    } else {
        first_of(s.drop_first(), key)
    }
}

/// The first entry of `s` under `key` and `name`.
pub open spec fn first_dep(s: Seq<(Seq<char>, Seq<char>, Seq<char>)>, key: Seq<char>, name: Seq<char>) -> Option<Seq<char>>
    decreases s.len(),
{
    if s.len() == 0 {
        None
    } else if s[0].0 == key && s[0].1 == name {
        Some(s[0].2)
    } else {
        first_dep(s.drop_first(), key, name)
    }
}

/// The version a probe finds, if it finds one; a declared plugin is always found.
pub open spec fn probe_answer(k: ProbeKindView, facts: PackageFacts) -> Option<Option<Seq<char>>> {
    match k {
        ProbeKindView::Package(p) => match first_of(facts.versions.deep_view(), p) {
            Some(v) => Some(Some(v)),
            None => None,
        },
        ProbeKindView::Dependency(p, n) => match first_dep(facts.dependencies.deep_view(), p, n) {
            Some(v) => Some(Some(v)),
            None => None,
        },
        ProbeKindView::Command(c) => match first_of(facts.command_versions.deep_view(), c) {
            Some(v) => Some(Some(v)),
            None => None,
        },
        ProbeKindView::Declared(v) => Some(v),
    }
}

/// The detection that the first answered probe reports.
pub open spec fn first_hit(ps: Seq<ProbeView>, facts: PackageFacts) -> Option<DetectionView>
    decreases ps.len(),
{
    if ps.len() == 0 {
        None
    } else {
        match probe_answer(ps[0].kind, facts) {
            Some(v) => Some(
                DetectionView {
                    version: v,
                    install_source: ps[0].install_source,
                    install_path: ps[0].install_path,
                    detected_from: ps[0].detected_from,
                },
            ),
            None => first_hit(ps.drop_first(), facts),
        }
    }
}

fn lookup_pair(s: &Vec<(String, String)>, key: &str) -> (r: Option<String>)
    ensures
        r.deep_view() == first_of(s.deep_view(), key@),
{
    let ghost d = s.deep_view();
    let mut i: usize = 0;
    assert(d.skip(0) == d);
    while i < s.len()
        invariant
            i <= s.len(),
            d == s.deep_view(),
            first_of(d, key@) == first_of(d.skip(i as int), key@),
        decreases s.len() - i,
    {
        proof {
            assert(d.skip(i as int)[0] == d[i as int]);
            assert(d.skip(i as int).drop_first() == d.skip(i + 1));
        }
        if str_eq(s[i].0.as_str(), key) {
            return Some(owned(s[i].1.as_str()));
        }
        i = i + 1;
    }
    None
}

fn lookup_triple(s: &Vec<(String, String, String)>, key: &str, name: &str) -> (r: Option<String>)
    ensures
        r.deep_view() == first_dep(s.deep_view(), key@, name@),
{
    let ghost d = s.deep_view();
    let mut i: usize = 0;
    assert(d.skip(0) == d);
    while i < s.len()
        invariant
            i <= s.len(),
            d == s.deep_view(),
            first_dep(d, key@, name@) == first_dep(d.skip(i as int), key@, name@),
        decreases s.len() - i,
    {
        proof {
            assert(d.skip(i as int)[0] == d[i as int]);
            assert(d.skip(i as int).drop_first() == d.skip(i + 1));
        }
        if str_eq(s[i].0.as_str(), key) && str_eq(s[i].1.as_str(), name) {
            return Some(owned(s[i].2.as_str()));
        }
        i = i + 1;
    }
    None
}

fn copy_opt(o: &Option<String>) -> (r: Option<String>)
    ensures
        r.deep_view() == o.deep_view(),
{
    match o {
        Some(s) => Some(owned(s.as_str())),
        None => None,
    }
}

/// The version a probe finds.
fn answer(k: &ProbeKind, facts: &PackageFacts) -> (r: Option<Option<String>>)
    ensures
        r.deep_view() == probe_answer(Probe { kind: *k, install_source: arbitrary(), install_path: arbitrary(), detected_from: arbitrary() }.deep_view().kind, *facts),
{
    match k {
        ProbeKind::Package(p) => match lookup_pair(&facts.versions, p.as_str()) {
            Some(v) => Some(Some(v)),
            None => None,
        },
        ProbeKind::Dependency(p, n) => match lookup_triple(&facts.dependencies, p.as_str(), n.as_str()) {
            Some(v) => Some(Some(v)),
            None => None,
        },
        ProbeKind::Command(c) => match lookup_pair(&facts.command_versions, c.as_str()) {
            Some(v) => Some(Some(v)),
            None => None,
        },
        ProbeKind::Declared(v) => Some(copy_opt(v)),
    }
}

/// The detection that the first answered probe reports.
pub fn first_probe_hit(probes: &Vec<Probe>, facts: &PackageFacts) -> (r: Option<InstallDetection>)
    ensures
        r.deep_view() == first_hit(probes.deep_view(), *facts),
{
    let ghost d = probes.deep_view();
    let mut i: usize = 0;
    assert(d.skip(0) == d);
    while i < probes.len()
        invariant
            i <= probes.len(),
            d == probes.deep_view(),
            first_hit(d, *facts) == first_hit(d.skip(i as int), *facts),
        decreases probes.len() - i,
    {
        proof {
            assert(d.skip(i as int)[0] == d[i as int]);
            assert(d.skip(i as int).drop_first() == d.skip(i + 1));
        }
        let p = &probes[i];
        if let Some(v) = answer(&p.kind, facts) {
            return Some(
                InstallDetection {
                    version: v,
                    install_source: owned(p.install_source.as_str()),
                    install_path: owned(p.install_path.as_str()),
                    detected_from: owned(p.detected_from.as_str()),
                },
            );
        }
        i = i + 1;
    }
    None
}


/// The names under which Oh My OpenAgent is published, in the order they are tried.
pub open spec fn omo_name(i: int) -> Seq<char> {
    if i == 0 {
        "oh-my-openagent"@
    } else {
        "oh-my-opencode"@
    }
}

/// A probe on the `version` of a `package.json`.
pub open spec fn pkg_probe(path: Seq<char>, source: Seq<char>, install_path: Seq<char>) -> ProbeView {
    ProbeView {
        kind: ProbeKindView::Package(path),
        install_source: source,
        install_path,
        detected_from: path,
    }
}

/// A probe on a dependency declared in a `package.json`.
pub open spec fn dep_probe(path: Seq<char>, name: Seq<char>, source: Seq<char>, install_path: Seq<char>) -> ProbeView {
    ProbeView {
        kind: ProbeKindView::Dependency(path, name),
        install_source: source,
        install_path,
        detected_from: path,
    }
}

/// The version spec that names a directory in OpenCode's package cache: `latest`, or one
/// that starts with a digit (trimmed).
pub open spec fn cache_spec(version_spec: Seq<char>) -> Option<Seq<char>> {
    let t = trim_spec(version_spec);
    if t.len() == 0 {
        None
    } else if t == "latest"@ || is_ascii_digit(t[0]) {
        Some(t)
    } else {
        None
    }
}

/// The version a declared plugin is pinned to; none for an empty spec or `latest`.
pub open spec fn declared_version_spec(version_spec: Option<Seq<char>>) -> Option<Seq<char>> {
    match version_spec {
        Some(s) => if trim_spec(s).len() == 0 || trim_spec(s) == "latest"@ {
            None
        } else {
            Some(s)
        },
        None => None,
    }
}

/// The package that a declared plugin's cache directory holds.
pub open spec fn cached_package_name(plugin: Seq<char>) -> Seq<char> {
    if plugin == "oh-my-opencode"@ {
        "oh-my-opencode"@
    } else {
        "oh-my-openagent"@
    }
}

/// OpenCode's cache directory for a plugin at a version spec.
pub open spec fn package_cache_root(w: bool, home: Seq<char>, plugin: Seq<char>, spec: Seq<char>) -> Seq<char> {
    join_spec(w,
        join_spec(w, join_spec(w, join_spec(w, join_spec(w, home, ".cache"@), "opencode"@), "packages"@), plugin + "@"@ + spec),
        "node_modules"@,
    )
}

/// First: the package that OpenCode cached for the declared plugin's version.
pub open spec fn step_package_cache(w: bool, home: Seq<char>, declared: Option<DeclaredView>) -> Seq<ProbeView> {
    match declared {
        Some(d) => match d.version_spec {
            Some(vs) => match cache_spec(vs) {
                Some(spec) => {
                    let root = package_cache_root(w, home, d.plugin_name, spec);
                    let pkg = join_spec(w, join_spec(w, root, cached_package_name(d.plugin_name)), "package.json"@);
                    seq![pkg_probe(pkg, "opencode_package_cache"@, root)]
                },
                None => Seq::empty(),
            },
            None => Seq::empty(),
        },
        None => Seq::empty(),
    }
}

/// A `package.json` probe for each published name under `dir + name + tail`.
pub open spec fn per_name(dir: Seq<char>, tail: Seq<char>, source: Seq<char>, install_path: Seq<char>) -> Seq<ProbeView> {
    seq![
        pkg_probe(dir + omo_name(0) + tail, source, install_path),
        pkg_probe(dir + omo_name(1) + tail, source, install_path),
    ]
}

/// A dependency probe for each published name in one `package.json`.
pub open spec fn per_dep(path: Seq<char>, source: Seq<char>, install_path: Seq<char>) -> Seq<ProbeView> {
    seq![dep_probe(path, omo_name(0), source, install_path), dep_probe(path, omo_name(1), source, install_path)]
}

/// The probe on the plugin declared in the configuration.
pub open spec fn step_declared(declared: Option<DeclaredView>) -> Seq<ProbeView> {
    match declared {
        Some(d) => seq![
            ProbeView {
                kind: ProbeKindView::Declared(declared_version_spec(d.version_spec)),
                install_source: "config_declared"@,
                install_path: d.config_path,
                detected_from: d.config_path,
            },
        ],
        None => Seq::empty(),
    }
}

/// Probes in npm's global package root.
pub open spec fn step_npm(npm_root: Option<Seq<char>>) -> Seq<ProbeView> {
    match npm_root {
        Some(r) => per_name(r + "/"@, "/package.json"@, "npm_global"@, r),
        None => Seq::empty(),
    }
}

/// Probes in each package root, in order.
pub open spec fn step_roots(w: bool, roots: Seq<Seq<char>>) -> Seq<ProbeView>
    decreases roots.len(),
{
    if roots.len() == 0 {
        Seq::empty()
    } else {
        let r = roots.last();
        step_roots(w, roots.drop_last()) + seq![
            pkg_probe(join_spec(w, join_spec(w, r, omo_name(0)), "package.json"@), "package_root"@, r),
            pkg_probe(join_spec(w, join_spec(w, r, omo_name(1)), "package.json"@), "package_root"@, r),
        ]
    }
}

/// Every probe for Oh My OpenAgent, in the order they are tried.
pub open spec fn omo_probes(w: bool,
    home: Seq<char>,
    declared: Option<DeclaredView>,
    npm_root: Option<Seq<char>>,
    roots: Seq<Seq<char>>,
) -> Seq<ProbeView> {
    step_package_cache(w, home, declared)
        + per_name(home + "/.opencode/node_modules/"@, "/package.json"@, "opencode_runtime"@, home + "/.opencode"@)
        + per_dep(home + "/.opencode/package.json"@, "opencode_runtime"@, home + "/.opencode"@)
        + per_name(home + "/.config/opencode/node_modules/"@, "/package.json"@, "config_local"@, home + "/.config/opencode"@)
        + step_declared(declared)
        + step_npm(npm_root)
        + step_roots(w, roots)
        + per_name(
            home + "/.bun/install/global/node_modules/"@,
            "/package.json"@,
            "bun_global"@,
            home + "/.bun/install/global/node_modules"@,
        )
        + per_name(home + "/.cache/opencode/node_modules/"@, "/package.json"@, "opencode_cache"@, home + "/.cache/opencode"@)
        + per_dep(home + "/.cache/opencode/package.json"@, "opencode_cache"@, home + "/.cache/opencode"@)
}

/// The version spec that names a directory in OpenCode's package cache.
pub fn cache_package_spec(version_spec: &str) -> (r: Option<String>)
    ensures
        r.deep_view() == cache_spec(version_spec@),
{
    let t = trim(version_spec);
    let v = to_chars(t.as_str());
    if v.len() == 0 {
        return None;
    }
    if str_eq(t.as_str(), "latest") || ('0' <= v[0] && v[0] <= '9') {
        Some(t)
    } else {
        None
    }
}

/// The version a declared plugin is pinned to.
pub fn declared_version_value(version_spec: Option<String>) -> (r: Option<String>)
    ensures
        r.deep_view() == declared_version_spec(version_spec.deep_view()),
{
    match version_spec {
        Some(spec) => {
            let t = trim(spec.as_str());
            if to_chars(t.as_str()).len() == 0 || str_eq(t.as_str(), "latest") {
                None
            } else {
                Some(spec)
            }
        },
        None => None,
    }
}

fn push_probe(v: &mut Vec<Probe>, kind: ProbeKind, source: &str, install_path: &str, detected_from: &str)
    ensures
        final(v).deep_view() == old(v).deep_view().push(
            ProbeView {
                kind: (Probe { kind, install_source: arbitrary(), install_path: arbitrary(), detected_from: arbitrary() }).deep_view().kind,
                install_source: source@,
                install_path: install_path@,
                detected_from: detected_from@,
            },
        ),
{
    let ghost before = v.deep_view();
    v.push(Probe { kind, install_source: owned(source), install_path: owned(install_path), detected_from: owned(detected_from) });
    assert(v.deep_view() =~= before.push(v@.last().deep_view()));
}

fn cat3(a: &str, b: &str, c: &str) -> (r: String)
    ensures
        r@ == a@ + b@ + c@,
{
    let ab = concat(a, b);
    concat(ab.as_str(), c)
}

fn push_per_name(v: &mut Vec<Probe>, dir: &str, tail: &str, source: &str, install_path: &str)
    ensures
        final(v).deep_view() == old(v).deep_view() + per_name(dir@, tail@, source@, install_path@),
{
    let p0 = cat3(dir, "oh-my-openagent", tail);
    let p1 = cat3(dir, "oh-my-opencode", tail);
    push_probe(v, ProbeKind::Package(owned(p0.as_str())), source, install_path, p0.as_str());
    push_probe(v, ProbeKind::Package(owned(p1.as_str())), source, install_path, p1.as_str());
    assert(v.deep_view() =~= old(v).deep_view() + per_name(dir@, tail@, source@, install_path@));
}

fn push_per_dep(v: &mut Vec<Probe>, path: &str, source: &str, install_path: &str)
    ensures
        final(v).deep_view() == old(v).deep_view() + per_dep(path@, source@, install_path@),
{
    push_probe(v, ProbeKind::Dependency(owned(path), owned("oh-my-openagent")), source, install_path, path);
    push_probe(v, ProbeKind::Dependency(owned(path), owned("oh-my-opencode")), source, install_path, path);
    assert(v.deep_view() =~= old(v).deep_view() + per_dep(path@, source@, install_path@));
}

/// The `node_modules` directory where OpenCode caches a plugin at a version spec.
pub fn get_opencode_package_root_for_spec(w: bool, home_dir: &str, plugin_name: &str, version_spec: &str) -> (r: String)
    ensures
        r@ == package_cache_root(w, home_dir@, plugin_name@, version_spec@),
{
    let a = join_path(w, home_dir, ".cache");
    let b = join_path(w, a.as_str(), "opencode");
    let c = join_path(w, b.as_str(), "packages");
    let dir = cat3(plugin_name, "@", version_spec);
    let e = join_path(w, c.as_str(), dir.as_str());
    join_path(w, e.as_str(), "node_modules")
}

/// Every probe for Oh My OpenAgent under a home directory, in the order they are tried.
pub fn omo_install_probes(w: bool,
    home: &str,
    declared: &Option<DeclaredPlugin>,
    npm_root: &Option<String>,
    roots: &Vec<String>,
) -> (r: Vec<Probe>)
    ensures
        r.deep_view() == omo_probes(w, home@, declared.deep_view(), npm_root.deep_view(), roots.deep_view()),
{
    let mut v: Vec<Probe> = Vec::new();
    if let Some(d) = declared {
        if let Some(vs) = &d.version_spec {
            if let Some(spec) = cache_package_spec(vs.as_str()) {
                let root = get_opencode_package_root_for_spec(w, home, d.plugin_name.as_str(), spec.as_str());
                let name = if str_eq(d.plugin_name.as_str(), "oh-my-opencode") {
                    "oh-my-opencode"
                } else {
                    "oh-my-openagent"
                };
                let pdir = join_path(w, root.as_str(), name);
                let pkg = join_path(w, pdir.as_str(), "package.json");
                push_probe(&mut v, ProbeKind::Package(owned(pkg.as_str())), "opencode_package_cache", root.as_str(), pkg.as_str());
            }
        }
    }
    assert(v.deep_view() =~= step_package_cache(w, home@, declared.deep_view()));
    let ghost s1 = v.deep_view();
    let rt = concat(home, "/.opencode/node_modules/");
    let rt_path = concat(home, "/.opencode");
    push_per_name(&mut v, rt.as_str(), "/package.json", "opencode_runtime", rt_path.as_str());
    let rt_dep = concat(home, "/.opencode/package.json");
    push_per_dep(&mut v, rt_dep.as_str(), "opencode_runtime", rt_path.as_str());
    let local = concat(home, "/.config/opencode/node_modules/");
    let local_path = concat(home, "/.config/opencode");
    push_per_name(&mut v, local.as_str(), "/package.json", "config_local", local_path.as_str());
    let ghost s2 = v.deep_view();
    if let Some(d) = declared {
        let ver = declared_version_value(copy_opt(&d.version_spec));
        push_probe(&mut v, ProbeKind::Declared(ver), "config_declared", d.config_path.as_str(), d.config_path.as_str());
    }
    assert(v.deep_view() =~= s2 + step_declared(declared.deep_view()));
    let ghost s3 = v.deep_view();
    if let Some(r) = npm_root {
        let dir = concat(r.as_str(), "/");
        push_per_name(&mut v, dir.as_str(), "/package.json", "npm_global", r.as_str());
    }
    assert(v.deep_view() =~= s3 + step_npm(npm_root.deep_view()));
    let ghost s4 = v.deep_view();
    let ghost rs = roots.deep_view();
    let mut i: usize = 0;
    assert(rs.take(0) == Seq::<Seq<char>>::empty());
    assert(v.deep_view() =~= s4 + step_roots(w, rs.take(0)));
    while i < roots.len()
        invariant
            i <= roots.len(),
            rs == roots.deep_view(),
            v.deep_view() == s4 + step_roots(w, rs.take(i as int)),
        decreases roots.len() - i,
    {
        let r = roots[i].as_str();
        let d0 = join_path(w, r, "oh-my-openagent");
        let p0 = join_path(w, d0.as_str(), "package.json");
        let d1 = join_path(w, r, "oh-my-opencode");
        let p1 = join_path(w, d1.as_str(), "package.json");
        let ghost before = v.deep_view();
        push_probe(&mut v, ProbeKind::Package(owned(p0.as_str())), "package_root", r, p0.as_str());
        push_probe(&mut v, ProbeKind::Package(owned(p1.as_str())), "package_root", r, p1.as_str());
        proof {
            assert(rs.take(i + 1).drop_last() == rs.take(i as int));
            assert(rs.take(i + 1).last() == rs[i as int]);
            assert(rs[i as int] == roots[i as int]@);
            assert(v.deep_view() =~= s4 + step_roots(w, rs.take(i + 1)));
        }
        i = i + 1;
    }
    assert(rs.take(roots.len() as int) == rs);
    let bun = concat(home, "/.bun/install/global/node_modules/");
    let bun_path = concat(home, "/.bun/install/global/node_modules");
    push_per_name(&mut v, bun.as_str(), "/package.json", "bun_global", bun_path.as_str());
    let cache = concat(home, "/.cache/opencode/node_modules/");
    let cache_path = concat(home, "/.cache/opencode");
    push_per_name(&mut v, cache.as_str(), "/package.json", "opencode_cache", cache_path.as_str());
    let cache_dep = concat(home, "/.cache/opencode/package.json");
    push_per_dep(&mut v, cache_dep.as_str(), "opencode_cache", cache_path.as_str());
    assert(v.deep_view() =~= omo_probes(w, home@, declared.deep_view(), npm_root.deep_view(), roots.deep_view()));
    v
}


/// An environment value, where it is not empty (as read with `var_os`).
pub open spec fn env_os(raw: Option<String>) -> Option<Seq<char>> {
    match raw {
        Some(v) => if v@.len() > 0 {
            Some(v@)
        } else {
            None
        },
        None => None,
    }
}

/// The home directory used for install detection: on Windows `USERPROFILE`, then `HOME`;
/// elsewhere `HOME`, then `USERPROFILE`; and where neither is set, the one `dirs` reports.
pub open spec fn detect_home_spec(env: Env) -> Option<Seq<char>> {
    if env.windows {
        crate::paths::or_else(env_os(env.userprofile), crate::paths::or_else(env_os(env.home), env.dirs_home.deep_view()))
    } else {
        crate::paths::or_else(env_os(env.home), crate::paths::or_else(env_os(env.userprofile), env.dirs_home.deep_view()))
    }
}

/// A non-empty environment value.
pub fn env_os_value(raw: &Option<String>) -> (r: Option<String>)
    ensures
        r.deep_view() == env_os(*raw),
{
    match raw {
        Some(v) => if to_chars(v.as_str()).len() > 0 {
            Some(owned(v.as_str()))
        } else {
            None
        },
        None => None,
    }
}

/// The home directory used for install detection.
pub fn detect_home_dir(env: &Env) -> (r: Option<String>)
    ensures
        r.deep_view() == detect_home_spec(*env),
{
    let (a, b, c) = if env.windows {
        (env_os_value(&env.userprofile), env_os_value(&env.home), copy_opt(&env.dirs_home))
    } else {
        (env_os_value(&env.home), env_os_value(&env.userprofile), copy_opt(&env.dirs_home))
    };
    match a {
        Some(x) => Some(x),
        None => match b {
            Some(x) => Some(x),
            None => c,
        },
    }
}

/// The sequence without repeats: each element where it first occurs.
pub open spec fn unique(s: Seq<Seq<char>>) -> Seq<Seq<char>> {
    crate::paths::dedup(s)
}

/// The directories where global `node_modules` may hold a package: those under the home
/// directory (the npm directory under `AppData` included, on every platform), the one under
/// `APPDATA`, and npm's global root; each once.
pub open spec fn package_roots_spec(home: Option<Seq<char>>, env: Env, npm_root: Option<Seq<char>>) -> Seq<Seq<char>> {
    let home_part = match home {
        Some(h) => seq![
            join_spec(env.windows, join_spec(env.windows, h, ".opencode"@), "node_modules"@),
            join_spec(env.windows, join_spec(env.windows, join_spec(env.windows, h, ".config"@), "opencode"@), "node_modules"@),
            join_spec(env.windows, join_spec(env.windows, join_spec(env.windows, h, ".cache"@), "opencode"@), "node_modules"@),
            join_spec(env.windows, join_spec(env.windows, join_spec(env.windows, join_spec(env.windows, h, ".bun"@), "install"@), "global"@), "node_modules"@),
            join_spec(env.windows, join_spec(env.windows, join_spec(env.windows, join_spec(env.windows, h, "AppData"@), "Roaming"@), "npm"@), "node_modules"@),
        ],
        None => Seq::empty(),
    };
    let appdata_part = match env_os(env.appdata) {
        Some(a) => seq![join_spec(env.windows, join_spec(env.windows, a, "npm"@), "node_modules"@)],
        None => Seq::empty(),
    };
    let npm_part = match npm_root {
        Some(r) => seq![r],
        None => Seq::empty(),
    };
    unique(home_part + appdata_part + npm_part)
}

fn join2(w: bool, base: &str, a: &str, b: &str) -> (r: String)
    ensures
        r@ == join_spec(w, join_spec(w, base@, a@), b@),
{
    let x = join_path(w, base, a);
    join_path(w, x.as_str(), b)
}

fn join3(w: bool, base: &str, a: &str, b: &str, c: &str) -> (r: String)
    ensures
        r@ == join_spec(w, join_spec(w, join_spec(w, base@, a@), b@), c@),
{
    let x = join2(w, base, a, b);
    join_path(w, x.as_str(), c)
}

fn join4(w: bool, base: &str, a: &str, b: &str, c: &str, d: &str) -> (r: String)
    ensures
        r@ == join_spec(w, join_spec(w, join_spec(w, join_spec(w, base@, a@), b@), c@), d@),
{
    let x = join3(w, base, a, b, c);
    join_path(w, x.as_str(), d)
}

/// The paths without repeats, each where it first occurs.
pub fn dedup_paths(raw: Vec<String>) -> (r: Vec<String>)
    ensures
        r.deep_view() == unique(raw.deep_view()),
{
    let ghost rd = raw.deep_view();
    let mut out: Vec<String> = Vec::new();
    let mut i: usize = 0;
    assert(rd.take(0) == Seq::<Seq<char>>::empty());
    assert(out.deep_view() =~= unique(rd.take(0)));
    while i < raw.len()
        invariant
            i <= raw.len(),
            rd == raw.deep_view(),
            out.deep_view() == unique(rd.take(i as int)),
        decreases raw.len() - i,
    {
        crate::paths::push_unique(&mut out, owned(raw[i].as_str()));
        proof {
            assert(rd.take(i + 1).drop_last() == rd.take(i as int));
            assert(rd.take(i + 1).last() == raw[i as int]@);
        }
        i = i + 1;
    }
    assert(rd.take(raw.len() as int) == rd);
    out
}

/// A path as text.
pub fn path_to_string(path: &str) -> (r: String)
    ensures
        r@ == path@,
{
    owned(path)
}

/// The directories where global `node_modules` may hold a package, for the user's home.
pub fn get_package_roots(env: &Env, npm_root: &Option<String>) -> (r: Vec<String>)
    ensures
        r.deep_view() == package_roots_spec(detect_home_spec(*env), *env, npm_root.deep_view()),
{
    let home = detect_home_dir(env);
    match &home {
        Some(h) => get_package_roots_for_home(Some(h.as_str()), env, npm_root),
        None => get_package_roots_for_home(None, env, npm_root),
    }
}

/// The directories where global `node_modules` may hold a package.
pub fn get_package_roots_for_home(home: Option<&str>, env: &Env, npm_root: &Option<String>) -> (r: Vec<String>)
    ensures
        r.deep_view() == package_roots_spec(
            match home {
                Some(h) => Some(h@),
                None => None,
            },
            *env,
            npm_root.deep_view(),
        ),
{
    let mut raw: Vec<String> = Vec::new();
    if let Some(h) = home {
        raw.push(join2(env.windows, h, ".opencode", "node_modules"));
        raw.push(join3(env.windows, h, ".config", "opencode", "node_modules"));
        raw.push(join3(env.windows, h, ".cache", "opencode", "node_modules"));
        raw.push(join4(env.windows, h, ".bun", "install", "global", "node_modules"));
        raw.push(join4(env.windows, h, "AppData", "Roaming", "npm", "node_modules"));
    }
    if let Some(a) = env_os_value(&env.appdata) {
        raw.push(join2(env.windows, a.as_str(), "npm", "node_modules"));
    }
    if let Some(r) = npm_root {
        raw.push(owned(r.as_str()));
    }
    let ghost hv = match home {
        Some(h) => Some(h@),
        None => None,
    };
    let ghost want = package_roots_spec(hv, *env, npm_root.deep_view());
    proof {
        let home_part = match hv {
            Some(h) => seq![
                join_spec(env.windows, join_spec(env.windows, h, ".opencode"@), "node_modules"@),
                join_spec(env.windows, join_spec(env.windows, join_spec(env.windows, h, ".config"@), "opencode"@), "node_modules"@),
                join_spec(env.windows, join_spec(env.windows, join_spec(env.windows, h, ".cache"@), "opencode"@), "node_modules"@),
                join_spec(env.windows, join_spec(env.windows, join_spec(env.windows, join_spec(env.windows, h, ".bun"@), "install"@), "global"@), "node_modules"@),
                join_spec(env.windows, join_spec(env.windows, join_spec(env.windows, join_spec(env.windows, h, "AppData"@), "Roaming"@), "npm"@), "node_modules"@),
            ],
            None => Seq::empty(),
        };
        let appdata_part = match env_os(env.appdata) {
            Some(a) => seq![join_spec(env.windows, join_spec(env.windows, a, "npm"@), "node_modules"@)],
            None => Seq::empty(),
        };
        let npm_part = match npm_root.deep_view() {
            Some(r) => seq![r],
            None => Seq::empty(),
        };
        assert(raw.deep_view() =~= home_part + appdata_part + npm_part);
    }
    dedup_paths(raw)
}

/// `comp` under the directory, where there is one.
pub open spec fn opt_join(w: bool, o: Option<Seq<char>>, comp: Seq<char>) -> Seq<Seq<char>> {
    match o {
        Some(a) => seq![join_spec(w, a, comp)],
        None => Seq::empty(),
    }
}

/// The command shim directories under the home directory.
pub open spec fn home_bin_dirs(home: Option<Seq<char>>, windows: bool) -> Seq<Seq<char>> {
    match home {
        Some(h) => seq![
            join_spec(windows, join_spec(windows, h, ".opencode"@), "bin"@),
            join_spec(windows, join_spec(windows, h, ".bun"@), "bin"@),
            join_spec(windows, join_spec(windows, h, ".local"@), "bin"@),
            join_spec(windows, join_spec(windows, h, "scoop"@), "shims"@),
        ] + (if windows {
            seq![
                join_spec(windows, join_spec(windows, join_spec(windows, h, "AppData"@), "Roaming"@), "npm"@),
                join_spec(windows, join_spec(windows, join_spec(windows, h, "AppData"@), "Local"@), "pnpm"@),
            ]
        } else {
            Seq::empty()
        }),
        None => Seq::empty(),
    }
}

/// The command shim directories under `LOCALAPPDATA`.
pub open spec fn local_bin_dirs(w: bool, local: Option<Seq<char>>) -> Seq<Seq<char>> {
    match local {
        Some(l) => seq![join_spec(w, l, "pnpm"@), join_spec(w, join_spec(w, join_spec(w, l, "Microsoft"@), "WinGet"@), "Links"@)],
        None => Seq::empty(),
    }
}

/// The directories where package managers put command shims.
pub open spec fn binary_dirs_spec(home: Option<Seq<char>>, env: Env) -> Seq<Seq<char>> {
    unique(
        home_bin_dirs(home, env.windows) + opt_join(env.windows, env_os(env.appdata), "npm"@) + local_bin_dirs(env.windows, env_os(env.localappdata))
            + crate::paths::opt_seq(env_os(env.pnpm_home)) + opt_join(env.windows, env_os(env.bun_install), "bin"@) + opt_join(env.windows,
            env_os(env.program_files),
            "nodejs"@,
        ) + opt_join(env.windows, env_os(env.program_files_x86), "nodejs"@),
    )
}

fn push_opt_join(w: bool, raw: &mut Vec<String>, o: Option<String>, comp: &str)
    ensures
        final(raw).deep_view() == old(raw).deep_view() + opt_join(w, o.deep_view(), comp@),
{
    let ghost before = raw.deep_view();
    if let Some(a) = o {
        raw.push(join_path(w, a.as_str(), comp));
    }
    assert(raw.deep_view() =~= before + opt_join(w, o.deep_view(), comp@));
}

fn push_home_bins(raw: &mut Vec<String>, home: &Option<String>, windows: bool)
    ensures
        final(raw).deep_view() == old(raw).deep_view() + home_bin_dirs(home.deep_view(), windows),
{
    let ghost before = raw.deep_view();
    if let Some(h) = home {
        let h = h.as_str();
        raw.push(join2(windows, h, ".opencode", "bin"));
        raw.push(join2(windows, h, ".bun", "bin"));
        raw.push(join2(windows, h, ".local", "bin"));
        raw.push(join2(windows, h, "scoop", "shims"));
        if windows {
            raw.push(join3(windows, h, "AppData", "Roaming", "npm"));
            raw.push(join3(windows, h, "AppData", "Local", "pnpm"));
        }
    }
    assert(raw.deep_view() =~= before + home_bin_dirs(home.deep_view(), windows));
}

fn push_local_bins(w: bool, raw: &mut Vec<String>, local: Option<String>)
    ensures
        final(raw).deep_view() == old(raw).deep_view() + local_bin_dirs(w, local.deep_view()),
{
    let ghost before = raw.deep_view();
    if let Some(l) = local {
        raw.push(join_path(w, l.as_str(), "pnpm"));
        raw.push(join3(w, l.as_str(), "Microsoft", "WinGet", "Links"));
    }
    assert(raw.deep_view() =~= before + local_bin_dirs(w, local.deep_view()));
}

/// The directories where package managers put command shims.
pub fn common_binary_dirs(env: &Env) -> (r: Vec<String>)
    ensures
        r.deep_view() == binary_dirs_spec(detect_home_spec(*env), *env),
{
    let mut raw: Vec<String> = Vec::new();
    let home = detect_home_dir(env);
    push_home_bins(&mut raw, &home, env.windows);
    push_opt_join(env.windows, &mut raw, env_os_value(&env.appdata), "npm");
    push_local_bins(env.windows, &mut raw, env_os_value(&env.localappdata));
    let ghost s4 = raw.deep_view();
    if let Some(p) = env_os_value(&env.pnpm_home) {
        raw.push(p);
    }
    assert(raw.deep_view() =~= s4 + crate::paths::opt_seq(env_os(env.pnpm_home)));
    push_opt_join(env.windows, &mut raw, env_os_value(&env.bun_install), "bin");
    push_opt_join(env.windows, &mut raw, env_os_value(&env.program_files), "nodejs");
    push_opt_join(env.windows, &mut raw, env_os_value(&env.program_files_x86), "nodejs");
    dedup_paths(raw)
}


/// A command that may run OpenCode, and where it was found.
#[derive(Debug)]
pub struct BinaryCandidate {
    pub command: String,
    pub install_source: String,
    pub install_path: String,
}

/// A candidate command as text.
pub struct CandidateView {
    pub command: Seq<char>,
    pub install_source: Seq<char>,
    pub install_path: Seq<char>,
}

impl DeepView for BinaryCandidate {
    type V = CandidateView;

    open spec fn deep_view(&self) -> CandidateView {
        CandidateView { command: self.command@, install_source: self.install_source@, install_path: self.install_path@ }
    }
}

/// Some candidate of `s` runs `command`.
pub open spec fn has_command(s: Seq<CandidateView>, command: Seq<char>) -> bool {
    exists|i: int| 0 <= i < s.len() && (#[trigger] s[i]).command == command
}

/// `prev` with each candidate of `new` appended in turn, unless its command is there already.
pub open spec fn push_all(prev: Seq<CandidateView>, new: Seq<CandidateView>) -> Seq<CandidateView>
    decreases new.len(),
{
    if new.len() == 0 {
        prev
    } else {
        let p = push_all(prev, new.drop_last());
        if has_command(p, new.last().command) {
            p
        } else {
            p.push(new.last())
        }
    }
}

proof fn lemma_push_all_concat(prev: Seq<CandidateView>, a: Seq<CandidateView>, b: Seq<CandidateView>)
    ensures
        push_all(push_all(prev, a), b) == push_all(prev, a + b),
    decreases b.len(),
{
    if b.len() == 0 {
        assert(a + b == a);
    } else {
        lemma_push_all_concat(prev, a, b.drop_last());
        assert((a + b).drop_last() == a + b.drop_last());
        assert((a + b).last() == b.last());
    }
}

/// The names a command may have on the platform.
pub open spec fn command_names_spec(base: Seq<char>, windows: bool) -> Seq<Seq<char>> {
    if windows {
        seq![base + ".exe"@, base + ".cmd"@, base + ".bat"@, base]
    } else {
        seq![base]
    }
}

/// The candidates for the names of `names` that exist in `dir`.
pub open spec fn name_candidates(w: bool, dir: Seq<char>, names: Seq<Seq<char>>, existing: Seq<Seq<char>>, source: Seq<char>) -> Seq<CandidateView>
    decreases names.len(),
{
    if names.len() == 0 {
        Seq::empty()
    } else {
        let rest = name_candidates(w, dir, names.drop_last(), existing, source);
        let bin = join_spec(w, dir, names.last());
        if existing.contains(bin) {
            rest.push(CandidateView { command: bin, install_source: source, install_path: dir })
        } else {
            rest
        }
    }
}

/// The candidates found in each directory, in order.
pub open spec fn dir_candidates(dirs: Seq<Seq<char>>, windows: bool, existing: Seq<Seq<char>>) -> Seq<CandidateView>
    decreases dirs.len(),
{
    if dirs.len() == 0 {
        Seq::empty()
    } else {
        dir_candidates(dirs.drop_last(), windows, existing) + name_candidates(windows,
            dirs.last(),
            command_names_spec("opencode"@, windows),
            existing,
            "known_binary_dir"@,
        )
    }
}

/// The candidate that runs `opencode` from the search path.
pub open spec fn path_candidate() -> CandidateView {
    CandidateView { command: "opencode"@, install_source: "path"@, install_path: "opencode"@ }
}

/// The candidate named by `OPENCODE_BIN`.
pub open spec fn bin_env_candidate(env: Env) -> Seq<CandidateView> {
    match crate::paths::env_path(env.opencode_bin) {
        Some(t) => seq![CandidateView { command: t, install_source: "opencode_bin_env"@, install_path: t }],
        None => Seq::empty(),
    }
}

/// Every command that may run OpenCode, in the order they are tried.
pub open spec fn binary_candidates_spec(env: Env, existing: Seq<Seq<char>>) -> Seq<CandidateView> {
    push_all(
        Seq::empty(),
        bin_env_candidate(env) + dir_candidates(binary_dirs_spec(detect_home_spec(env), env), env.windows, existing)
            + seq![path_candidate()],
    )
}

/// The names a command may have on the platform.
pub fn command_names(base: &str, windows: bool) -> (r: Vec<String>)
    ensures
        r.deep_view() == command_names_spec(base@, windows),
{
    let mut v: Vec<String> = Vec::new();
    if windows {
        v.push(concat(base, ".exe"));
        v.push(concat(base, ".cmd"));
        v.push(concat(base, ".bat"));
    }
    v.push(owned(base));
    assert(v.deep_view() =~= command_names_spec(base@, windows));
    v
}

/// Appends a candidate unless one with the same command is there already.
pub fn push_unique_candidate(candidates: &mut Vec<BinaryCandidate>, command: String, install_source: &str, install_path: String)
    ensures
        final(candidates).deep_view() == push_all(
            old(candidates).deep_view(),
            seq![CandidateView { command: command@, install_source: install_source@, install_path: install_path@ }],
        ),
{
    let ghost before = candidates.deep_view();
    let ghost c = CandidateView { command: command@, install_source: install_source@, install_path: install_path@ };
    assert(seq![c].drop_last() == Seq::<CandidateView>::empty());
    assert(seq![c].last() == c);
    assert(push_all(before, seq![c].drop_last()) == before);
    let mut i: usize = 0;
    while i < candidates.len()
        invariant
            i <= candidates.len(),
            before == candidates.deep_view(),
            before == old(candidates).deep_view(),
            c == (CandidateView { command: command@, install_source: install_source@, install_path: install_path@ }),
            forall|j: int| 0 <= j < i ==> before[j].command != command@,
        decreases candidates.len() - i,
    {
        if str_eq(candidates[i].command.as_str(), command.as_str()) {
            assert(before[i as int].command == command@);
            assert(has_command(before, command@));
            assert(seq![c].drop_last() == Seq::<CandidateView>::empty());
            assert(seq![c].last() == c);
            assert(push_all(before, seq![c].drop_last()) == before);
            assert(old(candidates).deep_view() == before);
            assert(candidates.deep_view() == push_all(before, seq![c]));
            return;
        }
        i = i + 1;
    }
    assert(!has_command(before, c.command));
    candidates.push(BinaryCandidate { command, install_source: owned(install_source), install_path });
    assert(candidates.deep_view() =~= before.push(c));
}

/// Appends the candidates for `base` that exist in `dir`.
pub fn push_binary_candidates_from_dir(
    candidates: &mut Vec<BinaryCandidate>,
    dir: &str,
    base: &str,
    install_source: &str,
    windows: bool,
    existing: &Vec<String>,
)
    ensures
        final(candidates).deep_view() == push_all(
            old(candidates).deep_view(),
            name_candidates(windows, dir@, command_names_spec(base@, windows), existing.deep_view(), install_source@),
        ),
{
    let names = command_names(base, windows);
    let ghost nd = names.deep_view();
    let ghost start = candidates.deep_view();
    let mut i: usize = 0;
    assert(nd.take(0) == Seq::<Seq<char>>::empty());
    while i < names.len()
        invariant
            i <= names.len(),
            nd == names.deep_view(),
            candidates.deep_view() == push_all(start, name_candidates(windows, dir@, nd.take(i as int), existing.deep_view(), install_source@)),
        decreases names.len() - i,
    {
        let bin = join_path(windows, dir, names[i].as_str());
        let ghost prev = name_candidates(windows, dir@, nd.take(i as int), existing.deep_view(), install_source@);
        proof {
            assert(nd.take(i + 1).drop_last() == nd.take(i as int));
            assert(nd.take(i + 1).last() == names[i as int]@);
        }
        if contains_path(existing, bin.as_str()) {
            let ghost c = CandidateView { command: bin@, install_source: install_source@, install_path: dir@ };
            push_unique_candidate(candidates, owned(bin.as_str()), install_source, owned(dir));
            proof {
                lemma_push_all_concat(start, prev, seq![c]);
                assert(prev + seq![c] == prev.push(c));
            }
        }
        i = i + 1;
    }
    assert(nd.take(names.len() as int) == nd);
}

/// Whether `existing` holds `path`.
pub fn contains_path(existing: &Vec<String>, path: &str) -> (r: bool)
    ensures
        r == existing.deep_view().contains(path@),
{
    let mut i: usize = 0;
    while i < existing.len()
        invariant
            i <= existing.len(),
            forall|j: int| 0 <= j < i ==> existing.deep_view()[j] != path@,
        decreases existing.len() - i,
    {
        if str_eq(existing[i].as_str(), path) {
            assert(existing.deep_view()[i as int] == path@);
            return true;
        }
        i = i + 1;
    }
    false
}

/// Appends the candidates in the common binary directories, then the one on the search path.
pub fn extend_opencode_binary_candidates(candidates: &mut Vec<BinaryCandidate>, env: &Env, existing: &Vec<String>)
    ensures
        final(candidates).deep_view() == push_all(
            old(candidates).deep_view(),
            dir_candidates(binary_dirs_spec(detect_home_spec(*env), *env), env.windows, existing.deep_view())
                + seq![path_candidate()],
        ),
{
    let dirs = common_binary_dirs(env);
    let ghost dd = dirs.deep_view();
    let ghost start = candidates.deep_view();
    let ghost ex = existing.deep_view();
    let mut i: usize = 0;
    assert(dd.take(0) == Seq::<Seq<char>>::empty());
    while i < dirs.len()
        invariant
            i <= dirs.len(),
            dd == dirs.deep_view(),
            ex == existing.deep_view(),
            candidates.deep_view() == push_all(start, dir_candidates(dd.take(i as int), env.windows, ex)),
        decreases dirs.len() - i,
    {
        let ghost prev = dir_candidates(dd.take(i as int), env.windows, ex);
        push_binary_candidates_from_dir(candidates, dirs[i].as_str(), "opencode", "known_binary_dir", env.windows, existing);
        proof {
            assert(dd.take(i + 1).drop_last() == dd.take(i as int));
            assert(dd.take(i + 1).last() == dirs[i as int]@);
            lemma_push_all_concat(
                start,
                prev,
                name_candidates(env.windows, dirs[i as int]@, command_names_spec("opencode"@, env.windows), ex, "known_binary_dir"@),
            );
        }
        i = i + 1;
    }
    assert(dd.take(dirs.len() as int) == dd);
    let ghost mid = dir_candidates(dd, env.windows, ex);
    push_unique_candidate(candidates, owned("opencode"), "path", owned("opencode"));
    proof {
        lemma_push_all_concat(start, mid, seq![path_candidate()]);
    }
}

/// The paths of each name in each directory, directory by directory.
pub open spec fn paths_in(w: bool, dirs: Seq<Seq<char>>, names: Seq<Seq<char>>) -> Seq<Seq<char>>
    decreases dirs.len(),
{
    if dirs.len() == 0 {
        Seq::empty()
    } else {
        paths_in(w, dirs.drop_last(), names) + names.map_values(|n: Seq<char>| join_spec(w, dirs.last(), n))
    }
}

/// The paths in the common binary directories where an OpenCode binary may be: the ones
/// whose existence decides which directory candidates there are.
pub fn opencode_binary_paths(env: &Env) -> (r: Vec<String>)
    ensures
        r.deep_view() == paths_in(
            env.windows,
            binary_dirs_spec(detect_home_spec(*env), *env),
            command_names_spec("opencode"@, env.windows),
        ),
{
    let dirs = common_binary_dirs(env);
    let names = command_names("opencode", env.windows);
    let ghost ds = dirs.deep_view();
    let ghost ns = names.deep_view();
    let mut r: Vec<String> = Vec::new();
    let mut i: usize = 0;
    assert(ds.take(0) =~= Seq::<Seq<char>>::empty());
    while i < dirs.len()
        invariant
            i <= dirs.len(),
            ds == dirs.deep_view(),
            ns == names.deep_view(),
            r.deep_view() == paths_in(env.windows, ds.take(i as int), ns),
        decreases dirs.len() - i,
    {
        let ghost start = r.deep_view();
        let mut k: usize = 0;
        while k < names.len()
            invariant
                i < dirs.len(),
                k <= names.len(),
                ds == dirs.deep_view(),
                ns == names.deep_view(),
                r.deep_view() == start + ns.take(k as int).map_values(|n: Seq<char>| join_spec(env.windows, ds[i as int], n)),
            decreases names.len() - k,
        {
            let ghost before = r.deep_view();
            r.push(join_path(env.windows, dirs[i].as_str(), names[k].as_str()));
            assert(ns.take(k + 1).map_values(|n: Seq<char>| join_spec(env.windows, ds[i as int], n)) =~= ns.take(
                k as int,
            ).map_values(|n: Seq<char>| join_spec(env.windows, ds[i as int], n)).push(join_spec(env.windows, ds[i as int], ns[k as int])));
            assert(r.deep_view() =~= before.push(join_spec(env.windows, ds[i as int], ns[k as int])));
            k = k + 1;
        }
        proof {
            assert(ns.take(ns.len() as int) =~= ns);
            assert(ds.take(i + 1).drop_last() =~= ds.take(i as int));
            assert(ds.take(i + 1).last() == ds[i as int]);
        }
        i = i + 1;
    }
    assert(ds.take(ds.len() as int) =~= ds);
    proof {
        reveal_strlit("opencode");
    }
    r
}

/// Every command that may run OpenCode, in the order they are tried: `OPENCODE_BIN`, the
/// ones in the common binary directories that exist, then `opencode` on the search path.
pub fn build_opencode_binary_candidates(env: &Env, existing: &Vec<String>) -> (r: Vec<BinaryCandidate>)
    ensures
        r.deep_view() == binary_candidates_spec(*env, existing.deep_view()),
{
    let mut candidates: Vec<BinaryCandidate> = Vec::new();
    let ghost empty = candidates.deep_view();
    assert(empty =~= Seq::<CandidateView>::empty());
    if let Some(t) = crate::paths::non_empty_env_path(&env.opencode_bin) {
        push_unique_candidate(&mut candidates, owned(t.as_str()), "opencode_bin_env", t);
    }
    assert(candidates.deep_view() == push_all(empty, bin_env_candidate(*env)));
    let ghost first = bin_env_candidate(*env);
    extend_opencode_binary_candidates(&mut candidates, env, existing);
    proof {
        let rest = dir_candidates(binary_dirs_spec(detect_home_spec(*env), *env), env.windows, existing.deep_view())
            + seq![path_candidate()];
        lemma_push_all_concat(empty, first, rest);
        assert(first + rest =~= bin_env_candidate(*env) + dir_candidates(
            binary_dirs_spec(detect_home_spec(*env), *env),
            env.windows,
            existing.deep_view(),
        ) + seq![path_candidate()]);
    }
    candidates
}

/// The single candidate for an explicitly given OpenCode binary.
pub fn build_opencode_binary_candidates_with_explicit_binary(command: &str) -> (r: Vec<BinaryCandidate>)
    ensures
        r.deep_view() == seq![CandidateView { command: command@, install_source: "opencode_bin_env"@, install_path: command@ }],
{
    let mut candidates: Vec<BinaryCandidate> = Vec::new();
    let ghost empty = candidates.deep_view();
    push_unique_candidate(&mut candidates, owned(command), "opencode_bin_env", owned(command));
    proof {
        let c = CandidateView { command: command@, install_source: "opencode_bin_env"@, install_path: command@ };
        assert(seq![c].drop_last() == Seq::<CandidateView>::empty());
        assert(push_all(empty, Seq::<CandidateView>::empty()) == empty);
        assert(!has_command(empty, command@));
    }
    candidates
}

/// The probes for OpenCode: each candidate command, then its package in each package root.
pub open spec fn opencode_probes(w: bool, cands: Seq<CandidateView>, roots: Seq<Seq<char>>) -> Seq<ProbeView> {
    cands.map_values(|c: CandidateView| command_probe(c)) + opencode_root_probes(w, roots)
}

/// The probe on a candidate command.
pub open spec fn command_probe(c: CandidateView) -> ProbeView {
    ProbeView {
        kind: ProbeKindView::Command(c.command),
        install_source: c.install_source,
        install_path: c.install_path,
        detected_from: c.command,
    }
}

/// The `package.json` probes for OpenCode's packages in each root.
pub open spec fn opencode_root_probes(w: bool, roots: Seq<Seq<char>>) -> Seq<ProbeView>
    decreases roots.len(),
{
    if roots.len() == 0 {
        Seq::empty()
    } else {
        let r = roots.last();
        opencode_root_probes(w, roots.drop_last()) + seq![
            pkg_probe(join_spec(w, join_spec(w, r, "opencode-ai"@), "package.json"@), "package_root"@, r),
            pkg_probe(join_spec(w, join_spec(w, r, "opencode"@), "package.json"@), "package_root"@, r),
        ]
    }
}

/// The probes for OpenCode in the order they are tried.
pub fn opencode_install_probes(w: bool, candidates: &Vec<BinaryCandidate>, package_roots: &Vec<String>) -> (r: Vec<Probe>)
    ensures
        r.deep_view() == opencode_probes(w, candidates.deep_view(), package_roots.deep_view()),
{
    let ghost cd = candidates.deep_view();
    let mut v: Vec<Probe> = Vec::new();
    let mut i: usize = 0;
    assert(v.deep_view() =~= cd.take(0).map_values(|c: CandidateView| command_probe(c)));
    while i < candidates.len()
        invariant
            i <= candidates.len(),
            cd == candidates.deep_view(),
            v.deep_view() == cd.take(i as int).map_values(|c: CandidateView| command_probe(c)),
        decreases candidates.len() - i,
    {
        let c = &candidates[i];
        push_probe(&mut v, ProbeKind::Command(owned(c.command.as_str())), c.install_source.as_str(), c.install_path.as_str(), c.command.as_str());
        proof {
            let before = cd.take(i as int).map_values(|c: CandidateView| command_probe(c));
            let after = cd.take(i + 1).map_values(|c: CandidateView| command_probe(c));
            assert(cd[i as int] == candidates[i as int].deep_view());
            assert(after.len() == before.len() + 1);
            assert forall|j: int| 0 <= j < after.len() implies after[j] == v.deep_view()[j] by {
                if j < before.len() {
                    assert(after[j] == before[j]);
                }
            }
            assert(v.deep_view() =~= after);
        }
        i = i + 1;
    }
    assert(cd.take(candidates.len() as int) == cd);
    let ghost s1 = v.deep_view();
    let ghost rs = package_roots.deep_view();
    let mut k: usize = 0;
    assert(rs.take(0) == Seq::<Seq<char>>::empty());
    assert(v.deep_view() =~= s1 + opencode_root_probes(w, rs.take(0)));
    while k < package_roots.len()
        invariant
            k <= package_roots.len(),
            rs == package_roots.deep_view(),
            v.deep_view() == s1 + opencode_root_probes(w, rs.take(k as int)),
        decreases package_roots.len() - k,
    {
        let r = package_roots[k].as_str();
        let p0 = join2(w, r, "opencode-ai", "package.json");
        let p1 = join2(w, r, "opencode", "package.json");
        push_probe(&mut v, ProbeKind::Package(owned(p0.as_str())), "package_root", r, p0.as_str());
        push_probe(&mut v, ProbeKind::Package(owned(p1.as_str())), "package_root", r, p1.as_str());
        proof {
            assert(rs.take(k + 1).drop_last() == rs.take(k as int));
            assert(rs.take(k + 1).last() == package_roots[k as int]@);
            assert(v.deep_view() =~= s1 + opencode_root_probes(w, rs.take(k + 1)));
        }
        k = k + 1;
    }
    assert(rs.take(package_roots.len() as int) == rs);
    v
}

/// Detects OpenCode from the binary candidates for the environment and the package roots
/// for the user's home; `existing` are the paths that exist, `facts` what was found by
/// running and reading them.
pub fn detect_opencode_install(
    env: &Env,
    existing: &Vec<String>,
    npm_root: &Option<String>,
    facts: &PackageFacts,
) -> (r: Option<InstallDetection>)
    ensures
        r.deep_view() == first_hit(
            opencode_probes(env.windows,
                binary_candidates_spec(*env, existing.deep_view()),
                package_roots_spec(detect_home_spec(*env), *env, npm_root.deep_view()),
            ),
            *facts,
        ),
{
    let candidates = build_opencode_binary_candidates(env, existing);
    let roots = get_package_roots(env, npm_root);
    detect_opencode_install_from_candidates(env.windows, &candidates, &roots, facts)
}

/// Where OpenCode is installed: the first candidate command that reports a version, else
/// the first OpenCode package in the package roots.
pub fn detect_opencode_install_from_candidates(w: bool,
    candidates: &Vec<BinaryCandidate>,
    package_roots: &Vec<String>,
    facts: &PackageFacts,
) -> (r: Option<InstallDetection>)
    ensures
        r.deep_view() == first_hit(opencode_probes(w, candidates.deep_view(), package_roots.deep_view()), *facts),
{
    let probes = opencode_install_probes(w, candidates, package_roots);
    first_probe_hit(&probes, facts)
}


/// The plugin name and pinned version spec that a plugin entry declares, trying each
/// published name: the bare name, or the name, `@`, and a version spec.
pub open spec fn match_plugin(raw: Seq<char>) -> Option<(Seq<char>, Option<Seq<char>>)> {
    if raw == omo_name(0) {
        Some((omo_name(0), None))
    } else if has_prefix(raw, omo_name(0) + "@"@) {
        Some((omo_name(0), Some(raw.skip(omo_name(0).len() + 1int))))
    } else if raw == omo_name(1) {
        Some((omo_name(1), None))
    } else if has_prefix(raw, omo_name(1) + "@"@) {
        Some((omo_name(1), Some(raw.skip(omo_name(1).len() + 1int))))
    } else {
        None
    }
}

/// The first plugin entry that declares Oh My OpenAgent (entries trimmed); an entry that is
/// no string ends the search with nothing.
pub open spec fn declared_in(items: Seq<JsonValue>, path: Seq<char>) -> Option<DeclaredView>
    decreases items.len(),
{
    if items.len() == 0 {
        None
    } else {
        match items[0] {
            JsonValue::Str(s) => match match_plugin(trim_spec(s@)) {
                Some((n, vs)) => Some(DeclaredView { plugin_name: n, version_spec: vs, config_path: path }),
                None => declared_in(items.drop_first(), path),
            },
            _ => None,
        }
    }
}

/// The Oh My OpenAgent plugin that a configuration declares in its `plugin` array.
pub open spec fn declared_plugin_spec(config: JsonValue, path: Seq<char>) -> Option<DeclaredView> {
    match config.field("plugin"@) {
        Some(JsonValue::Array(items)) => declared_in(items@, path),
        _ => None,
    }
}

/// A plugin entry names Oh My OpenAgent, bare or with a version.
pub open spec fn names_omo(raw: Seq<char>) -> bool {
    ||| raw == omo_name(0)
    ||| has_prefix(raw, omo_name(0) + "@"@)
    ||| raw == omo_name(1)
    ||| has_prefix(raw, omo_name(1) + "@"@)
}

/// Some string entry of the configuration's `plugin` array names Oh My OpenAgent.
pub open spec fn plugin_declared_spec(config: JsonValue) -> bool {
    match config.field("plugin"@) {
        Some(JsonValue::Array(items)) => any_names_omo(items@),
        _ => false,
    }
}

/// Some entry is a string that names Oh My OpenAgent.
pub open spec fn any_names_omo(items: Seq<JsonValue>) -> bool {
    exists|i: int| 0 <= i < items.len() && entry_names_omo(#[trigger] items[i])
}

/// A plugin entry is a string that names Oh My OpenAgent.
pub open spec fn entry_names_omo(v: JsonValue) -> bool {
    match v {
        JsonValue::Str(s) => names_omo(s@),
        _ => false,
    }
}

/// A configuration was read and names Oh My OpenAgent in its `plugin` array.
pub open spec fn config_names_omo(c: Option<JsonValue>) -> bool {
    match c {
        Some(v) => plugin_declared_spec(v),
        None => false,
    }
}

/// The first configuration, in order, that declares the plugin; an unreadable one declares
/// nothing.
pub open spec fn first_declared(configs: Seq<(String, Option<JsonValue>)>) -> Option<DeclaredView>
    decreases configs.len(),
{
    if configs.len() == 0 {
        None
    } else {
        let found = match configs[0].1 {
            Some(c) => declared_plugin_spec(c, configs[0].0@),
            None => None,
        };
        if found is Some {
            found
        } else {
            first_declared(configs.drop_first())
        }
    }
}

fn match_plugin_exec(raw: &str) -> (r: Option<(String, Option<String>)>)
    ensures
        match r {
            Some((n, vs)) => match_plugin(raw@) == Some((n@, vs.deep_view())),
            None => match_plugin(raw@) is None,
        },
{
    proof {
        reveal_strlit("oh-my-openagent@");
        reveal_strlit("oh-my-openagent");
        reveal_strlit("oh-my-opencode@");
        reveal_strlit("oh-my-opencode");
        reveal_strlit("@");
        assert("oh-my-openagent@"@ =~= omo_name(0) + "@"@);
        assert("oh-my-opencode@"@ =~= omo_name(1) + "@"@);
    }
    if str_eq(raw, "oh-my-openagent") {
        return Some((owned("oh-my-openagent"), None));
    }
    if let Some(rest) = strip_prefix(raw, "oh-my-openagent@") {
        return Some((owned("oh-my-openagent"), Some(rest)));
    }
    if str_eq(raw, "oh-my-opencode") {
        return Some((owned("oh-my-opencode"), None));
    }
    if let Some(rest) = strip_prefix(raw, "oh-my-opencode@") {
        return Some((owned("oh-my-opencode"), Some(rest)));
    }
    None
}

/// The Oh My OpenAgent plugin that a parsed configuration file declares.
pub fn read_declared_plugin(config: &JsonValue, path: &str) -> (r: Option<DeclaredPlugin>)
    ensures
        r.deep_view() == declared_plugin_spec(*config, path@),
{
    let items = match config.get("plugin") {
        Some(JsonValue::Array(items)) => items,
        _ => return None,
    };
    let ghost is = items@;
    let mut i: usize = 0;
    assert(is.skip(0) == is);
    while i < items.len()
        invariant
            i <= items.len(),
            is == items@,
            declared_plugin_spec(*config, path@) == declared_in(is, path@),
            declared_in(is, path@) == declared_in(is.skip(i as int), path@),
        decreases items.len() - i,
    {
        proof {
            assert(is.skip(i as int)[0] == is[i as int]);
            assert(is.skip(i as int).drop_first() == is.skip(i + 1));
        }
        let raw = match items[i].as_str() {
            Some(s) => trim(s),
            None => return None,
        };
        if let Some((n, vs)) = match_plugin_exec(raw.as_str()) {
            return Some(DeclaredPlugin { plugin_name: n, version_spec: vs, config_path: owned(path) });
        }
        i = i + 1;
    }
    None
}

fn names_omo_exec(raw: &str) -> (r: bool)
    ensures
        r == names_omo(raw@),
{
    proof {
        reveal_strlit("oh-my-openagent@");
        reveal_strlit("oh-my-openagent");
        reveal_strlit("oh-my-opencode@");
        reveal_strlit("oh-my-opencode");
        reveal_strlit("@");
        assert("oh-my-openagent@"@ =~= omo_name(0) + "@"@);
        reveal_strlit("@");
        assert("oh-my-opencode@"@ =~= omo_name(1) + "@"@);
    }
    str_eq(raw, "oh-my-openagent") || starts_with(raw, "oh-my-openagent@") || str_eq(raw, "oh-my-opencode")
        || starts_with(raw, "oh-my-opencode@")
}

/// Whether a parsed configuration file's `plugin` array names Oh My OpenAgent.
pub fn is_plugin_declared_in_config(config: &JsonValue) -> (r: bool)
    ensures
        r == plugin_declared_spec(*config),
{
    let items = match config.get("plugin") {
        Some(JsonValue::Array(items)) => items,
        _ => return false,
    };
    let mut i: usize = 0;
    while i < items.len()
        invariant
            i <= items.len(),
            config.field("plugin"@) == Some(JsonValue::Array(*items)),
            forall|j: int| 0 <= j < i ==> !entry_names_omo(#[trigger] items@[j]),
        decreases items.len() - i,
    {
        if let Some(raw) = items[i].as_str() {
            if names_omo_exec(raw) {
                assert(entry_names_omo(items@[i as int]));
                assert(config.field("plugin"@) == Some(JsonValue::Array(*items)));
                assert(any_names_omo(items@));
                assert(plugin_declared_spec(*config));
                return true;
            }
        }
        i = i + 1;
    }
    false
}

/// The Oh My OpenAgent plugin declared by the first configuration that declares it.
pub fn first_declared_plugin(configs: &Vec<(String, Option<JsonValue>)>) -> (r: Option<DeclaredPlugin>)
    ensures
        r.deep_view() == first_declared(configs@),
{
    let ghost cs = configs@;
    let mut i: usize = 0;
    assert(cs.skip(0) == cs);
    while i < configs.len()
        invariant
            i <= configs.len(),
            cs == configs@,
            first_declared(cs) == first_declared(cs.skip(i as int)),
        decreases configs.len() - i,
    {
        proof {
            assert(cs.skip(i as int)[0] == cs[i as int]);
            assert(cs.skip(i as int).drop_first() == cs.skip(i + 1));
        }
        if let Some(c) = &configs[i].1 {
            let found = read_declared_plugin(c, configs[i].0.as_str());
            if found.is_some() {
                return found;
            }
        }
        i = i + 1;
    }
    None
}

/// The OpenCode configuration files searched for the plugin: `OPENCODE_CONFIG`, the files in
/// `OPENCODE_CONFIG_DIR`, then the default ones under the home directory.
pub open spec fn omo_config_candidates_spec(home: Seq<char>, env: Env) -> Seq<Seq<char>> {
    let dir_part = match env_os(env.opencode_config_dir) {
        Some(d) => seq![join_spec(env.windows, d, "opencode.json"@), join_spec(env.windows, d, "opencode.jsonc"@)],
        None => Seq::empty(),
    };
    let default_dir = join_spec(env.windows, join_spec(env.windows, home, ".config"@), "opencode"@);
    unique(
        crate::paths::opt_seq(env_os(env.opencode_config)) + dir_part + seq![
            join_spec(env.windows, default_dir, "opencode.json"@),
            join_spec(env.windows, default_dir, "opencode.jsonc"@),
        ],
    )
}

/// The OpenCode configuration files searched for the plugin.
pub fn get_opencode_config_candidates(home: &str, env: &Env) -> (r: Vec<String>)
    ensures
        r.deep_view() == omo_config_candidates_spec(home@, *env),
{
    let mut raw: Vec<String> = Vec::new();
    if let Some(p) = env_os_value(&env.opencode_config) {
        raw.push(p);
    }
    let ghost s1 = raw.deep_view();
    if let Some(d) = env_os_value(&env.opencode_config_dir) {
        raw.push(join_path(env.windows, d.as_str(), "opencode.json"));
        raw.push(join_path(env.windows, d.as_str(), "opencode.jsonc"));
    }
    let ghost s2 = raw.deep_view();
    let default_dir = join2(env.windows, home, ".config", "opencode");
    raw.push(join_path(env.windows, default_dir.as_str(), "opencode.json"));
    raw.push(join_path(env.windows, default_dir.as_str(), "opencode.jsonc"));
    proof {
        assert(s1 =~= crate::paths::opt_seq(env_os(env.opencode_config)));
        let dir_part = match env_os(env.opencode_config_dir) {
            Some(d) => seq![join_spec(env.windows, d, "opencode.json"@), join_spec(env.windows, d, "opencode.jsonc"@)],
            None => Seq::empty(),
        };
        assert(s2 =~= s1 + dir_part);
        let dd = join_spec(env.windows, join_spec(env.windows, home@, ".config"@), "opencode"@);
        assert(raw.deep_view() =~= s2 + seq![join_spec(env.windows, dd, "opencode.json"@), join_spec(env.windows, dd, "opencode.jsonc"@)]);
    }
    dedup_paths(raw)
}

/// Where Oh My OpenAgent is installed under a home directory, given the parsed configuration
/// candidates (`None` for one that could not be read), npm's global root and what the probed
/// files hold.
pub fn detect_omo_install_for_home(
    home: &str,
    configs: &Vec<(String, Option<JsonValue>)>,
    npm_root: &Option<String>,
    env: &Env,
    facts: &PackageFacts,
) -> (r: Option<InstallDetection>)
    ensures
        r.deep_view() == first_hit(
            omo_probes(env.windows,
                home@,
                first_declared(configs@),
                npm_root.deep_view(),
                package_roots_spec(Some(home@), *env, npm_root.deep_view()),
            ),
            *facts,
        ),
{
    let declared = first_declared_plugin(configs);
    let roots = get_package_roots_for_home(Some(home), env, npm_root);
    let probes = omo_install_probes(env.windows, home, &declared, npm_root, &roots);
    first_probe_hit(&probes, facts)
}

/// Detects Oh My OpenAgent under the user's home directory; `None` where there is no home
/// directory. `configs` are the configuration candidates for that home as read.
pub fn detect_omo_install(
    env: &Env,
    configs: &Vec<(String, Option<JsonValue>)>,
    npm_root: &Option<String>,
    facts: &PackageFacts,
) -> (r: Option<InstallDetection>)
    ensures
        match detect_home_spec(*env) {
            Some(home) => r.deep_view() == first_hit(
                omo_probes(env.windows,
                    home,
                    first_declared(configs@),
                    npm_root.deep_view(),
                    package_roots_spec(Some(home), *env, npm_root.deep_view()),
                ),
                *facts,
            ),
            None => r is None,
        },
{
    match detect_home_dir(env) {
        Some(home) => detect_omo_install_for_home(home.as_str(), configs, npm_root, env, facts),
        None => None,
    }
}

/// Whether Oh My OpenAgent counts as installed: it was detected, or some readable
/// configuration names it in its `plugin` array.
pub fn is_omo_installed(detected: bool, configs: &Vec<(String, Option<JsonValue>)>) -> (r: bool)
    ensures
        r == (detected || exists|i: int| 0 <= i < configs@.len() && config_names_omo(#[trigger] configs@[i].1)),
{
    if detected {
        return true;
    }
    let mut i: usize = 0;
    while i < configs.len()
        invariant
            i <= configs.len(),
            forall|j: int| 0 <= j < i ==> !config_names_omo(#[trigger] configs@[j].1),
        decreases configs.len() - i,
    {
        if let Some(c) = &configs[i].1 {
            if is_plugin_declared_in_config(c) {
                assert(config_names_omo(configs@[i as int].1));
                return true;
            }
        }
        i = i + 1;
    }
    false
}


/// Probes that answer nothing can be passed over: the first answered probe is found after
/// them.
proof fn lemma_first_hit_skip(ps: Seq<ProbeView>, facts: PackageFacts, n: int)
    requires
        0 <= n <= ps.len(),
        forall|k: int| 0 <= k < n ==> probe_answer(#[trigger] ps[k].kind, facts) is None,
    ensures
        first_hit(ps, facts) == first_hit(ps.skip(n), facts),
    decreases n,
{
    if n == 0 {
        assert(ps.skip(0) =~= ps);
    } else {
        assert(probe_answer(ps[0].kind, facts) is None);
        assert(ps.drop_first().skip(n - 1) =~= ps.skip(n));
        assert forall|k: int| 0 <= k < n - 1 implies probe_answer(#[trigger] ps.drop_first()[k].kind, facts) is None by {
            assert(ps.drop_first()[k] == ps[k + 1]);
        }
        lemma_first_hit_skip(ps.drop_first(), facts, n - 1);
    }
}

/// OpenCode is detected by the first candidate command that reports a version, with that
/// command's source and path, whatever the package roots hold.
pub proof fn law_opencode_first_reporting_command_wins(
    w: bool,
    cands: Seq<CandidateView>,
    roots: Seq<Seq<char>>,
    facts: PackageFacts,
    i: int,
    version: Seq<char>,
)
    requires
        0 <= i < cands.len(),
        first_of(facts.command_versions.deep_view(), cands[i].command) == Some(version),
        forall|j: int| 0 <= j < i ==> first_of(facts.command_versions.deep_view(), #[trigger] cands[j].command) is None,
    ensures
        first_hit(opencode_probes(w, cands, roots), facts) == Some(
            DetectionView {
                version: Some(version),
                install_source: cands[i].install_source,
                install_path: cands[i].install_path,
                detected_from: cands[i].command,
            },
        ),
{
    let ps = opencode_probes(w, cands, roots);
    let cs = cands.map_values(|c: CandidateView| command_probe(c));
    assert forall|k: int| 0 <= k < i implies probe_answer(#[trigger] ps[k].kind, facts) is None by {
        assert(ps[k] == cs[k]);
        assert(cands[k].command == cands[k].command);
    }
    lemma_first_hit_skip(ps, facts, i);
    assert(ps.skip(i)[0] == ps[i]);
    assert(ps[i] == cs[i]);
}

/// Where OpenCode's package cache answers nothing and OpenCode's runtime directory holds
/// `oh-my-openagent` with a version, that version is detected there, from the runtime
/// directory, whether or not a configuration declares the plugin.
pub proof fn law_omo_runtime_package_found(
    w: bool,
    home: Seq<char>,
    declared: Option<DeclaredView>,
    npm_root: Option<Seq<char>>,
    roots: Seq<Seq<char>>,
    facts: PackageFacts,
    version: Seq<char>,
)
    requires
        forall|i: int|
            0 <= i < omo_probes(w, home, declared, npm_root, roots).len() && (#[trigger] omo_probes(
                w,
                home,
                declared,
                npm_root,
                roots,
            )[i]).install_source == "opencode_package_cache"@ ==> probe_answer(
                omo_probes(w, home, declared, npm_root, roots)[i].kind,
                facts,
            ) is None,
        first_of(facts.versions.deep_view(), home + "/.opencode/node_modules/oh-my-openagent/package.json"@) == Some(
            version,
        ),
    ensures
        first_hit(omo_probes(w, home, declared, npm_root, roots), facts) == Some(
            DetectionView {
                version: Some(version),
                install_source: "opencode_runtime"@,
                install_path: home + "/.opencode"@,
                detected_from: home + "/.opencode/node_modules/oh-my-openagent/package.json"@,
            },
        ),
{
    reveal_strlit("/.opencode/node_modules/");
    reveal_strlit("/package.json");
    reveal_strlit("oh-my-openagent");
    reveal_strlit("/.opencode/node_modules/oh-my-openagent/package.json");
    let ps = omo_probes(w, home, declared, npm_root, roots);
    let a = step_package_cache(w, home, declared);
    let n = a.len() as int;
    assert forall|k: int| 0 <= k < n implies probe_answer(#[trigger] ps[k].kind, facts) is None by {
        assert(ps[k] == a[k]);
        assert(ps[k].install_source == "opencode_package_cache"@);
    }
    lemma_first_hit_skip(ps, facts, n);
    assert(ps.skip(n)[0] == ps[n]);
    let path = home + "/.opencode/node_modules/"@ + omo_name(0) + "/package.json"@;
    assert(path =~= home + "/.opencode/node_modules/oh-my-openagent/package.json"@);
    assert(ps[n] == pkg_probe(path, "opencode_runtime"@, home + "/.opencode"@));
}


/// Every probe in a package root's list reports the source `package_root`.
proof fn lemma_step_roots_source(w: bool, roots: Seq<Seq<char>>, k: int)
    requires
        0 <= k < step_roots(w, roots).len(),
    ensures
        step_roots(w, roots)[k].install_source == "package_root"@,
    decreases roots.len(),
{
    if roots.len() > 0 {
        let prev = step_roots(w, roots.drop_last());
        if k < prev.len() {
            lemma_step_roots_source(w, roots.drop_last(), k);
        }
    }
}

/// Oh My OpenAgent's runtime (`opencode_runtime`) and local configuration (`config_local`)
/// probes all come before the probe on a plugin the configuration declares
/// (`config_declared`): a declared plugin answers only where every one of them missed.
pub proof fn law_omo_local_probes_before_declared(
    w: bool,
    home: Seq<char>,
    declared: Option<DeclaredView>,
    npm_root: Option<Seq<char>>,
    roots: Seq<Seq<char>>,
    i: int,
    j: int,
)
    requires
        0 <= i < omo_probes(w, home, declared, npm_root, roots).len(),
        0 <= j < omo_probes(w, home, declared, npm_root, roots).len(),
        omo_probes(w, home, declared, npm_root, roots)[i].install_source == "opencode_runtime"@
            || omo_probes(w, home, declared, npm_root, roots)[i].install_source == "config_local"@,
        omo_probes(w, home, declared, npm_root, roots)[j].install_source == "config_declared"@,
    ensures
        i < j,
{
    reveal_strlit("opencode_runtime");
    reveal_strlit("config_local");
    reveal_strlit("config_declared");
    reveal_strlit("opencode_package_cache");
    reveal_strlit("npm_global");
    reveal_strlit("package_root");
    reveal_strlit("bun_global");
    reveal_strlit("opencode_cache");
    assert("package_root"@[0] != "config_local"@[0]);
    let ps = omo_probes(w, home, declared, npm_root, roots);
    let a = step_package_cache(w, home, declared);
    let mid = per_name(home + "/.opencode/node_modules/"@, "/package.json"@, "opencode_runtime"@, home + "/.opencode"@)
        + per_dep(home + "/.opencode/package.json"@, "opencode_runtime"@, home + "/.opencode"@)
        + per_name(home + "/.config/opencode/node_modules/"@, "/package.json"@, "config_local"@, home + "/.config/opencode"@);
    let tail = per_name(
        home + "/.bun/install/global/node_modules/"@,
        "/package.json"@,
        "bun_global"@,
        home + "/.bun/install/global/node_modules"@,
    ) + per_name(home + "/.cache/opencode/node_modules/"@, "/package.json"@, "opencode_cache"@, home + "/.cache/opencode"@)
        + per_dep(home + "/.cache/opencode/package.json"@, "opencode_cache"@, home + "/.cache/opencode"@);
    let sr = step_roots(w, roots);
    let rest = step_declared(declared) + step_npm(npm_root) + sr + tail;
    assert(ps =~= (a + mid) + rest);
    let q = (a + mid).len();
    assert forall|k: int| 0 <= k < q implies (#[trigger] ps[k]).install_source != "config_declared"@ by {
        assert(ps[k] == (a + mid)[k]);
        if k < a.len() {
            assert(ps[k] == a[k]);
            assert(a[k].install_source == "opencode_package_cache"@);
            assert("opencode_package_cache"@.len() != "config_declared"@.len());
        } else {
            assert(ps[k] == mid[k - a.len()]);
            assert(mid[k - a.len()].install_source == "opencode_runtime"@ || mid[k - a.len()].install_source
                == "config_local"@);
            assert("opencode_runtime"@.len() != "config_declared"@.len());
            assert("config_local"@.len() != "config_declared"@.len());
        }
    }
    assert forall|k: int| q <= k < ps.len() implies (#[trigger] ps[k]).install_source != "opencode_runtime"@
        && ps[k].install_source != "config_local"@ by {
        let m = k - q;
        assert(ps[k] == rest[m]);
        let d = step_declared(declared).len();
        let np = step_npm(npm_root).len();
        if m < d {
            assert(rest[m] == step_declared(declared)[m]);
            assert(rest[m].install_source == "config_declared"@);
        } else if m < d + np {
            assert(rest[m] == step_npm(npm_root)[m - d]);
            assert(rest[m].install_source == "npm_global"@);
        } else if m < d + np + sr.len() {
            lemma_step_roots_source(w, roots, m - d - np);
            assert(rest[m] == sr[m - d - np]);
        } else {
            let t0 = m - d - np - sr.len();
            assert(rest[m] == tail[t0]);
            assert(tail[t0].install_source == "bun_global"@ || tail[t0].install_source == "opencode_cache"@);
        }
        assert("config_declared"@.len() != "opencode_runtime"@.len());
        assert("config_declared"@.len() != "config_local"@.len());
        assert("npm_global"@.len() != "opencode_runtime"@.len());
        assert("npm_global"@.len() != "config_local"@.len());
        assert("package_root"@.len() != "opencode_runtime"@.len());
        assert("bun_global"@.len() != "opencode_runtime"@.len());
        assert("bun_global"@.len() != "config_local"@.len());
        assert("opencode_cache"@.len() != "opencode_runtime"@.len());
        assert("opencode_cache"@.len() != "config_local"@.len());
    }
}

} // verus!
