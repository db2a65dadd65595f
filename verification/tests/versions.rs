use omo_switch::install::{
    build_opencode_binary_candidates_with_explicit_binary, cache_package_spec, declared_version_value,
    detect_omo_install_for_home, detect_opencode_install_from_candidates, get_opencode_package_root_for_spec,
    is_omo_installed, path_to_string, InstallDetection, PackageFacts,
};
use omo_switch::install::{
    dependency_version_of, detect_omo_install, detect_opencode_install, get_package_roots, package_version_of,
    read_dependency_version, read_pkg_version,
};
use omo_switch::json::JsonValue;
use omo_switch::paths::Env;
use omo_switch::versions::{
    build_omo_update_command, check_all_versions, get_omo_latest_version, github_release_version_of,
    has_newer_version, version_from_output,
};

fn env(windows: bool) -> Env {
    Env {
        windows,
        home: None,
        userprofile: None,
        xdg_config_home: None,
        xdg_cache_home: None,
        xdg_data_home: None,
        opencode_config_dir: None,
        opencode_config: None,
        opencode_bin: None,
        appdata: None,
        localappdata: None,
        pnpm_home: None,
        bun_install: None,
        program_files: None,
        program_files_x86: None,
        dirs_home: None,
    }
}

fn facts(versions: &[(&str, &str)]) -> PackageFacts {
    PackageFacts {
        versions: versions.iter().map(|(p, v)| (p.to_string(), v.to_string())).collect(),
        dependencies: vec![],
        command_versions: vec![],
    }
}

fn plugin_config(path: &str, plugin: &str) -> (String, Option<JsonValue>) {
    (
        path.to_string(),
        Some(JsonValue::Object(vec![(
            "plugin".to_string(),
            JsonValue::Array(vec![JsonValue::Str(plugin.to_string())]),
        )])),
    )
}

#[test]
fn test_has_newer_version() {
    assert!(has_newer_version("3.5.2", "3.5.3"));
    assert!(!has_newer_version("3.5.3", "3.5.3"));
    assert!(!has_newer_version("3.5.3", "3.5.2"));
    assert!(has_newer_version("3.4.0", "3.5.0"));
}

#[test]
fn newer_version_compares_numbers_not_text() {
    assert!(has_newer_version("3.9.0", "3.10.0"));
    assert!(has_newer_version("1.2", "1.2.1"));
    assert!(!has_newer_version("1.2.1", "1.2"));
    assert!(!has_newer_version("2.0.0", "2.0.0"));
}

#[test]
fn detects_opencode_from_explicit_binary_when_home_missing() {
    let binary = "/tmp/omo-version-opencode-bin-test/opencode";
    let mut found = facts(&[]);
    found.command_versions.push((binary.to_string(), "9.8.7".to_string()));

    let detection = detect_opencode_install_from_candidates(
        false,
        &build_opencode_binary_candidates_with_explicit_binary(binary),
        &vec![],
        &found,
    )
    .expect("should detect opencode from explicit binary");
    assert_eq!(detection.version.as_deref(), Some("9.8.7"));
    assert_eq!(detection.install_source, "opencode_bin_env");
}

#[test]
fn detects_omo_config_from_userprofile_when_home_missing() {
    let home = "/tmp/omo-version-userprofile-test";
    let configs = vec![plugin_config(&format!("{home}/.config/opencode/opencode.json"), "oh-my-openagent@3.17.4")];

    let detection = detect_omo_install_for_home(home, &configs, &None, &env(false), &facts(&[]))
        .expect("should detect OMO from USERPROFILE config");
    assert_eq!(detection.version.as_deref(), Some("3.17.4"));
    assert_eq!(detection.install_source, "config_declared");
}

#[test]
fn detects_omo_from_userprofile_npm_package_root_when_home_missing() {
    let home = "/tmp/omo-version-npm-package-root-test";
    let pkg = format!("{home}/AppData/Roaming/npm/node_modules/oh-my-openagent/package.json");

    let detection = detect_omo_install_for_home(home, &vec![], &None, &env(false), &facts(&[(&pkg, "3.17.4")]))
        .expect("should detect OMO from npm package root");
    assert_eq!(detection.version.as_deref(), Some("3.17.4"));
    assert_eq!(detection.install_source, "package_root");
}

#[test]
fn detects_omo_from_opencode_config_dir_override() {
    let home = "/tmp/omo-version-config-dir-test";
    let configs = vec![plugin_config(&format!("{home}/custom-opencode-config/opencode.jsonc"), "oh-my-openagent@3.17.4")];

    let detection = detect_omo_install_for_home(home, &configs, &None, &env(false), &facts(&[]))
        .expect("should detect OMO from OPENCODE_CONFIG_DIR");
    assert_eq!(detection.version.as_deref(), Some("3.17.4"));
    assert_eq!(detection.install_source, "config_declared");
}

#[test]
fn detects_omo_runtime_package_version_when_config_uses_latest() {
    let home = "/tmp/omo-version-latest-package-cache-test";
    let configs = vec![plugin_config(&format!("{home}/.config/opencode/opencode.json"), "oh-my-openagent@latest")];
    let stale = format!("{home}/.cache/opencode/node_modules/oh-my-openagent/package.json");
    let active = format!("{home}/.cache/opencode/packages/oh-my-openagent@latest/node_modules/oh-my-openagent/package.json");

    let detection = detect_omo_install_for_home(
        home,
        &configs,
        &None,
        &env(false),
        &facts(&[(&stale, "3.16.0"), (&active, "4.2.2")]),
    )
    .expect("should detect active OMO package version");
    assert_eq!(detection.version.as_deref(), Some("4.2.2"));
    assert_eq!(detection.install_source, "opencode_package_cache");
}

#[test]
fn does_not_treat_cache_only_omo_as_installed() {
    let home = "/tmp/omo-cache-only-not-installed-test";
    let cached = format!("{home}/.cache/opencode/packages/oh-my-openagent@latest/node_modules/oh-my-openagent/package.json");

    let detection = detect_omo_install_for_home(home, &vec![], &None, &env(false), &facts(&[(&cached, "4.2.2")]));
    assert!(detection.is_none());
}

#[test]
fn prefers_pinned_config_over_latest_cache() {
    let home = "/tmp/omo-pinned-version-over-cache-test";
    let configs = vec![plugin_config(&format!("{home}/.config/opencode/opencode.json"), "oh-my-openagent@3.17.4")];
    let pinned = format!("{home}/.cache/opencode/packages/oh-my-openagent@3.17.4/node_modules/oh-my-openagent/package.json");
    let latest = format!("{home}/.cache/opencode/packages/oh-my-openagent@latest/node_modules/oh-my-openagent/package.json");

    let detection = detect_omo_install_for_home(
        home,
        &configs,
        &None,
        &env(false),
        &facts(&[(&latest, "4.2.2"), (&pinned, "3.17.4")]),
    )
    .expect("should detect pinned OMO package version");
    assert_eq!(detection.version.as_deref(), Some("3.17.4"));
    assert_eq!(detection.install_source, "opencode_package_cache");
    assert!(detection.detected_from.contains("oh-my-openagent@3.17.4"));
}

#[test]
fn package_cache_root_and_specs() {
    assert_eq!(
        get_opencode_package_root_for_spec(false, "/h", "oh-my-openagent", "3.1.0"),
        "/h/.cache/opencode/packages/oh-my-openagent@3.1.0/node_modules"
    );
    assert_eq!(
        get_opencode_package_root_for_spec(true, "C:\\h", "oh-my-openagent", "latest"),
        "C:\\h\\.cache\\opencode\\packages\\oh-my-openagent@latest\\node_modules"
    );
    assert_eq!(cache_package_spec(" latest ").as_deref(), Some("latest"));
    assert_eq!(cache_package_spec("3.2.1").as_deref(), Some("3.2.1"));
    assert_eq!(cache_package_spec("^3.2.1"), None);
    assert_eq!(cache_package_spec("  "), None);
    assert_eq!(declared_version_value(Some("latest".to_string())), None);
    assert_eq!(declared_version_value(Some(" 1.0 ".to_string())).as_deref(), Some(" 1.0 "));
    assert_eq!(path_to_string("/a/b"), "/a/b");
}

#[test]
fn omo_counts_as_installed_when_a_config_declares_it() {
    let configs = vec![("x".to_string(), None), plugin_config("y", "oh-my-opencode")];
    assert!(is_omo_installed(false, &configs));
    assert!(!is_omo_installed(false, &vec![plugin_config("y", "something-else")]));
    assert!(is_omo_installed(true, &vec![]));
}

#[test]
fn update_commands_by_install_source() {
    let (cmd, hint) = build_omo_update_command(Some("npm_global"));
    assert_eq!(cmd, "npm install -g oh-my-opencode@latest");
    assert_eq!(hint, "通过 npm 全局升级：");
    let (cmd, _) = build_omo_update_command(Some("bun_global"));
    assert_eq!(cmd, "bun add -g oh-my-opencode@latest");
    let (cmd, hint) = build_omo_update_command(None);
    assert_eq!(cmd, "cd ~/.opencode && npm install oh-my-opencode@latest");
    assert_eq!(hint, "建议在 opencode 运行目录安装/升级：");
}

#[test]
fn version_reports_for_both_programs() {
    let omo = Some(InstallDetection {
        version: Some("3.5.2".to_string()),
        install_source: "npm_global".to_string(),
        install_path: "/npm".to_string(),
        detected_from: "/npm/oh-my-openagent/package.json".to_string(),
    });
    let reports = check_all_versions(&None, Some("1.0.0".to_string()), &omo, Some("3.5.3".to_string()), true);
    assert_eq!(reports.len(), 2);
    assert_eq!(reports[0].name, "OpenCode");
    assert!(!reports[0].installed);
    assert!(!reports[0].has_update);
    assert_eq!(reports[0].update_command, "opencode upgrade");
    assert_eq!(reports[1].name, "Oh My OpenAgent");
    assert!(reports[1].has_update);
    assert!(reports[1].installed);
    assert_eq!(reports[1].update_command, "npm install -g oh-my-opencode@latest");
    assert_eq!(reports[1].install_source.as_deref(), Some("npm_global"));
}

#[test]
fn latest_versions_from_registry_documents() {
    assert_eq!(get_omo_latest_version(None, Some("1".to_string())).as_deref(), Some("1"));
    assert_eq!(get_omo_latest_version(Some("2".to_string()), Some("1".to_string())).as_deref(), Some("2"));
    let npm_doc = JsonValue::Object(vec![("version".to_string(), JsonValue::Str("3.5.3".to_string()))]);
    assert_eq!(package_version_of(&npm_doc).as_deref(), Some("3.5.3"));
    let gh_doc = JsonValue::Object(vec![("tag_name".to_string(), JsonValue::Str("v1.2.3".to_string()))]);
    assert_eq!(github_release_version_of(&gh_doc).as_deref(), Some("1.2.3"));
    assert_eq!(version_from_output(" 9.8.7\n").as_deref(), Some("9.8.7"));
    assert_eq!(version_from_output("  \n"), None);
}

#[test]
fn newer_is_a_strict_order_on_examples() {
    let versions = ["1.0", "1.0.1", "1.2", "2", "10.0.0", "3.5.3"];
    for a in versions {
        assert!(!has_newer_version(a, a));
        for b in versions {
            if has_newer_version(a, b) {
                assert!(!has_newer_version(b, a));
            }
            for c in versions {
                if has_newer_version(a, b) && has_newer_version(b, c) {
                    assert!(has_newer_version(a, c));
                }
            }
        }
    }
}

#[test]
fn detection_from_the_environment() {
    let mut e = env(false);
    e.home = Some("/home/me".to_string());
    let roots = get_package_roots(&e, &Some("/usr/lib/node_modules".to_string()));
    assert_eq!(roots.first().map(String::as_str), Some("/home/me/.opencode/node_modules"));
    assert_eq!(roots.last().map(String::as_str), Some("/usr/lib/node_modules"));

    let mut found = facts(&[("/usr/lib/node_modules/opencode-ai/package.json", "1.1.1")]);
    let none = detect_opencode_install(&e, &vec![], &Some("/usr/lib/node_modules".to_string()), &found);
    assert_eq!(none.as_ref().and_then(|d| d.version.as_deref()), Some("1.1.1"));
    found.command_versions.push(("opencode".to_string(), "2.0.0".to_string()));
    let from_path = detect_opencode_install(&e, &vec![], &None, &found).expect("opencode on the search path");
    assert_eq!(from_path.version.as_deref(), Some("2.0.0"));
    assert_eq!(from_path.install_source, "path");

    let configs = vec![plugin_config("/home/me/.config/opencode/opencode.json", "oh-my-openagent@3.0.0")];
    let omo = detect_omo_install(&e, &configs, &None, &facts(&[])).expect("declared plugin");
    assert_eq!(omo.install_source, "config_declared");
    assert!(detect_omo_install(&env(false), &configs, &None, &facts(&[])).is_none());
}

#[test]
fn package_json_versions_from_text() {
    assert_eq!(read_pkg_version(r#"{"name":"x","version":"4.2.2"}"#).as_deref(), Some("4.2.2"));
    assert_eq!(read_pkg_version(r#"{"version":4}"#), None);
    assert_eq!(read_pkg_version("{version: '1.0'}"), None);
    assert_eq!(read_pkg_version("not json"), None);
    let pkg = r#"{"dependencies":{"oh-my-opencode":"^3.1.0","other":"1"}}"#;
    assert_eq!(read_dependency_version(pkg, "oh-my-opencode").as_deref(), Some("^3.1.0"));
    assert_eq!(read_dependency_version(pkg, "missing"), None);
    let doc = JsonValue::Object(vec![(
        "dependencies".to_string(),
        JsonValue::Object(vec![("a".to_string(), JsonValue::Str("2".to_string()))]),
    )]);
    assert_eq!(dependency_version_of(&doc, "a").as_deref(), Some("2"));
    assert_eq!(package_version_of(&doc), None);
}

#[test]
fn detects_omo_from_home_appdata_npm_root_on_any_platform() {
    let home = "/home/me";
    let pkg = format!("{home}/AppData/Roaming/npm/node_modules/oh-my-openagent/package.json");
    let mut e = env(false);
    e.home = Some(home.to_string());
    let detection = detect_omo_install(&e, &vec![], &None, &facts(&[(&pkg, "3.17.4")])).expect("package root");
    assert_eq!(detection.version.as_deref(), Some("3.17.4"));
    assert_eq!(detection.install_source, "package_root");
}

#[test]
fn binary_paths_cover_each_name_in_each_directory() {
    use_binary_paths();
}

fn use_binary_paths() {
    let mut e = env(false);
    e.home = Some("/home/me".to_string());
    let paths = omo_switch::install::opencode_binary_paths(&e);
    assert_eq!(
        paths,
        vec![
            "/home/me/.opencode/bin/opencode".to_string(),
            "/home/me/.bun/bin/opencode".to_string(),
            "/home/me/.local/bin/opencode".to_string(),
            "/home/me/scoop/shims/opencode".to_string(),
        ]
    );
    let mut w = env(true);
    w.userprofile = Some("C:\\u".to_string());
    let paths = omo_switch::install::opencode_binary_paths(&w);
    assert_eq!(paths.len(), 6 * 4);
    assert_eq!(paths[0], "C:\\u\\.opencode\\bin\\opencode.exe");
    assert_eq!(paths[3], "C:\\u\\.opencode\\bin\\opencode");
}
