use omo_switch::agents::{get_config_path, get_omo_cache_dir, update_agent_model, update_agents_batch, AgentUpdateRequest};
use omo_switch::json::{parse_json, parse_json_or_json5, parse_json_or_jsonc, JsonNumber, JsonValue};
use omo_switch::paths::{
    join_path, non_empty_env_path, omo_cache_dir, omo_switch_presets_dir, opencode_auth_file,
    opencode_backups_dir, opencode_config_candidates, opencode_config_dirs, opencode_config_file,
    opencode_config_write_file, push_unique, user_home_dir, xdg_data_home, Env,
};
use omo_switch::process::windows_child_process_creation_flags;

fn env(windows: bool) -> Env {
    Env {
        windows,
        home: None,
        userprofile: None,
        xdg_config_home: None,
        xdg_cache_home: None,
        xdg_data_home: None,
        opencode_config_dir: None,
        opencode_config: None,
        opencode_bin: None,
        appdata: None,
        localappdata: None,
        pnpm_home: None,
        bun_install: None,
        program_files: None,
        program_files_x86: None,
        dirs_home: None,
    }
}

fn s(text: &str) -> JsonValue {
    JsonValue::Str(text.to_string())
}

fn obj(members: Vec<(&str, JsonValue)>) -> JsonValue {
    JsonValue::Object(members.into_iter().map(|(k, v)| (k.to_string(), v)).collect())
}

fn at<'a>(v: &'a JsonValue, path: &[&str]) -> Option<&'a JsonValue> {
    let mut cur = v;
    for key in path {
        cur = cur.get(key)?;
    }
    Some(cur)
}

fn text_at<'a>(v: &'a JsonValue, path: &[&str]) -> Option<&'a str> {
    at(v, path).and_then(|x| x.as_str())
}

#[test]
fn windows_child_processes_use_no_window_creation_flag() {
    assert_eq!(windows_child_process_creation_flags(), 0x08000000);
}

#[test]
fn user_home_dir_uses_userprofile_when_home_missing() {
    let mut e = env(false);
    e.userprofile = Some("/tmp/omo-path-service-userprofile-test".to_string());
    e.dirs_home = Some("/home/from-dirs".to_string());
    assert_eq!(user_home_dir(&e).unwrap(), "/tmp/omo-path-service-userprofile-test");

    let mut w = env(true);
    w.userprofile = Some("C:/Users/me".to_string());
    w.home = Some("/home/me".to_string());
    assert_eq!(user_home_dir(&w).unwrap(), "C:/Users/me");
}

#[test]
fn home_directory_order_and_failure() {
    let mut e = env(false);
    e.home = Some("  /home/me  ".to_string());
    e.dirs_home = Some("/other".to_string());
    e.userprofile = Some("/u".to_string());
    assert_eq!(user_home_dir(&e).unwrap(), "/home/me");
    e.home = Some("   ".to_string());
    assert_eq!(user_home_dir(&e).unwrap(), "/u");
    e.userprofile = None;
    assert_eq!(user_home_dir(&e).unwrap(), "/other");
    assert_eq!(user_home_dir(&env(false)).unwrap_err(), "无法获取用户主目录");
    assert_eq!(non_empty_env_path(&Some(" x ".to_string())).as_deref(), Some("x"));
    assert_eq!(non_empty_env_path(&Some("  ".to_string())), None);
}

#[test]
fn opencode_paths_under_home_and_overrides() {
    let mut e = env(false);
    e.home = Some("/home/me".to_string());
    assert_eq!(opencode_config_file(&e).unwrap(), "/home/me/.config/opencode/opencode.json");
    assert_eq!(opencode_auth_file(&e).unwrap(), "/home/me/.local/share/opencode/auth.json");
    assert_eq!(xdg_data_home(&e).unwrap(), "/home/me/.local/share");
    assert_eq!(omo_cache_dir(&e).unwrap(), "/home/me/.cache/oh-my-opencode");
    assert_eq!(omo_switch_presets_dir(&e).unwrap(), "/home/me/.config/OMO-Switch/presets");
    assert_eq!(opencode_backups_dir(&e).unwrap(), "/home/me/.config/opencode/backups");

    e.xdg_config_home = Some("/xdg".to_string());
    e.opencode_config_dir = Some("/custom".to_string());
    e.opencode_config = Some("/explicit.json".to_string());
    assert_eq!(opencode_config_dirs(&e).unwrap(), vec!["/custom".to_string(), "/xdg/opencode".to_string()]);
    assert_eq!(
        opencode_config_candidates(&e).unwrap(),
        vec![
            "/explicit.json".to_string(),
            "/custom/opencode.json".to_string(),
            "/custom/opencode.jsonc".to_string(),
            "/xdg/opencode/opencode.json".to_string(),
            "/xdg/opencode/opencode.jsonc".to_string(),
        ]
    );
    let existing = vec!["/xdg/opencode/opencode.jsonc".to_string()];
    assert_eq!(opencode_config_write_file(&e, &existing).unwrap(), "/xdg/opencode/opencode.jsonc");
    assert_eq!(opencode_config_write_file(&e, &vec![]).unwrap(), "/xdg/opencode/opencode.json");
    assert!(opencode_config_file(&env(false)).is_err());
}

#[test]
fn config_dirs_are_listed_once() {
    let mut e = env(false);
    e.xdg_config_home = Some("/xdg".to_string());
    e.opencode_config_dir = Some("/xdg/opencode".to_string());
    assert_eq!(opencode_config_dirs(&e).unwrap(), vec!["/xdg/opencode".to_string()]);
    let mut paths = vec!["a".to_string()];
    push_unique(&mut paths, "a".to_string());
    push_unique(&mut paths, "b".to_string());
    assert_eq!(paths, vec!["a".to_string(), "b".to_string()]);
    assert_eq!(join_path(false, "/a/", "b"), "/a/b");
    assert_eq!(join_path(false, "", "b"), "b");
    assert_eq!(join_path(true, "C:\\a", "b"), "C:\\a\\b");
    assert_eq!(join_path(true, "C:/a/", "b"), "C:/a/b");
    assert_eq!(join_path(false, "/a\\", "b"), "/a\\/b");
}

#[test]
fn joining_a_rooted_or_prefixed_component() {
    assert_eq!(join_path(false, "/a", "/b"), "/b");
    assert_eq!(join_path(false, "/a", "C:b"), "/a/C:b");
    assert_eq!(join_path(true, "C:\\a", "D:\\b"), "D:\\b");
    assert_eq!(join_path(true, "C:\\a", "d:b"), "d:b");
    assert_eq!(join_path(true, "C:\\a", "\\\\server\\share"), "\\\\server\\share");
    assert_eq!(join_path(true, "C:\\a", "\\b"), "C:\\b");
    assert_eq!(join_path(true, "C:\\a", "/b"), "C:/b");
    assert_eq!(join_path(true, "a", "\\b"), "\\b");
    assert_eq!(join_path(true, "C:", "b"), "C:b");
    assert_eq!(join_path(true, "1:", "b"), "1:\\b");
    assert_eq!(join_path(false, "a", ""), "a/");
}

#[test]
fn omo_cache_dir_under_the_home_cache() {
    let mut e = env(false);
    assert_eq!(get_omo_cache_dir(&e).unwrap_err(), "无法获取系统缓存目录");
    e.home = Some("/home/me".to_string());
    e.xdg_cache_home = Some("/elsewhere".to_string());
    assert_eq!(get_omo_cache_dir(&e).unwrap(), "/home/me/.cache/oh-my-opencode");
}

#[test]
fn agent_model_update_sets_model_and_variant_in_both_sections() {
    let config = obj(vec![
        ("agents", obj(vec![("sisyphus", obj(vec![("model", s("gpt-5")), ("variant", s("high"))]))])),
        ("categories", obj(vec![("sisyphus", obj(vec![("temperature", s("0.1"))])), ("other", obj(vec![]))])),
        ("theme", s("dark")),
    ]);

    let updated = update_agent_model(config, "sisyphus", "opus-max", Some("max"));
    assert_eq!(text_at(&updated, &["agents", "sisyphus", "model"]), Some("opus-max"));
    assert_eq!(text_at(&updated, &["agents", "sisyphus", "variant"]), Some("max"));
    assert_eq!(text_at(&updated, &["categories", "sisyphus", "model"]), Some("opus-max"));
    assert_eq!(text_at(&updated, &["categories", "sisyphus", "temperature"]), Some("0.1"));
    assert!(at(&updated, &["categories", "other", "model"]).is_none());
    assert_eq!(text_at(&updated, &["theme"]), Some("dark"));

    let none = update_agent_model(updated, "sisyphus", "gpt-5", Some("none"));
    assert!(at(&none, &["agents", "sisyphus", "variant"]).is_none());
    let kept = update_agent_model(
        obj(vec![("agents", obj(vec![("a", obj(vec![("variant", s("v"))]))]))]),
        "a",
        "m",
        None,
    );
    assert_eq!(text_at(&kept, &["agents", "a", "variant"]), Some("v"));
}

#[test]
fn agent_model_update_leaves_unknown_names_alone() {
    let config = obj(vec![("agents", obj(vec![("a", s("not an object"))]))]);
    let updated = update_agent_model(config, "a", "m", Some("x"));
    assert_eq!(text_at(&updated, &["agents", "a"]), Some("not an object"));
    let updated = update_agent_model(updated, "missing", "m", None);
    assert!(at(&updated, &["agents", "missing"]).is_none());
    assert!(at(&updated, &["categories"]).is_none());
}

#[test]
fn batch_update_applies_each_update_in_order() {
    let config = obj(vec![
        ("agents", obj(vec![("a", obj(vec![])), ("b", obj(vec![("variant", s("old"))]))])),
        ("categories", obj(vec![("quick", obj(vec![]))])),
    ]);
    let updates = vec![
        AgentUpdateRequest { agent_name: "a".to_string(), model: "m1".to_string(), variant: None },
        AgentUpdateRequest { agent_name: "b".to_string(), model: "m2".to_string(), variant: Some("none".to_string()) },
        AgentUpdateRequest { agent_name: "quick".to_string(), model: "m3".to_string(), variant: Some("fast".to_string()) },
        AgentUpdateRequest { agent_name: "a".to_string(), model: "m4".to_string(), variant: None },
    ];
    let updated = update_agents_batch(config, &updates);
    assert_eq!(text_at(&updated, &["agents", "a", "model"]), Some("m4"));
    assert_eq!(text_at(&updated, &["agents", "b", "model"]), Some("m2"));
    assert!(at(&updated, &["agents", "b", "variant"]).is_none());
    assert_eq!(text_at(&updated, &["categories", "quick", "variant"]), Some("fast"));
}

#[test]
fn config_path_is_in_the_opencode_config_dir() {
    let mut e = env(false);
    e.home = Some("/home/me".to_string());
    assert_eq!(get_config_path(&e).unwrap(), "/home/me/.config/opencode/oh-my-openagent.json");
    assert_eq!(get_config_path(&env(false)).unwrap_err(), "无法获取用户主目录");
}

#[test]
fn json_and_jsonc_texts_are_parsed() {
    let plain = parse_json_or_jsonc(r#"{"a": [1, -2, 1.5, true, null, "x"]}"#, "ctx").unwrap();
    match at(&plain, &["a"]) {
        Some(JsonValue::Array(items)) => {
            assert!(matches!(items[0], JsonValue::Number(JsonNumber::PosInt(1))));
            assert!(matches!(items[1], JsonValue::Number(JsonNumber::NegInt(-2))));
            assert!(matches!(items[2], JsonValue::Number(JsonNumber::Float(_))));
            assert!(matches!(items[3], JsonValue::Bool(true)));
            assert!(matches!(items[4], JsonValue::Null));
            assert_eq!(items[5].as_str(), Some("x"));
        }
        _ => panic!("expected an array"),
    }
    let commented = parse_json_or_jsonc("{\n  // plugins\n  plugin: ['oh-my-openagent@3.0.0',],\n}", "ctx").unwrap();
    assert!(at(&commented, &["plugin"]).is_some());
    let err = parse_json_or_jsonc("{", "解析失败").unwrap_err();
    assert!(err.starts_with("解析失败: "));
    assert!(parse_json_or_json5("{").is_none());
    assert!(parse_json_or_json5("{a: 1}").is_some());
    assert!(parse_json("{a: 1}").is_none());
    assert_eq!(text_at(&parse_json(r#"{"k":"v"}"#).unwrap(), &["k"]), Some("v"));
}

#[test]
fn windows_paths_use_backslashes() {
    let mut w = env(true);
    w.userprofile = Some("C:\\Users\\me".to_string());
    assert_eq!(opencode_config_file(&w).unwrap(), "C:\\Users\\me\\.config\\opencode\\opencode.json");
    assert_eq!(opencode_auth_file(&w).unwrap(), "C:\\Users\\me\\.local\\share\\opencode\\auth.json");
    assert_eq!(get_omo_cache_dir(&w).unwrap(), "C:\\Users\\me\\.cache\\oh-my-opencode");
    w.xdg_config_home = Some("D:/xdg/".to_string());
    assert_eq!(opencode_config_file(&w).unwrap(), "D:/xdg/opencode\\opencode.json");
}
