use omo_switch::json::{parse_json, JsonNumber, JsonValue};
use omo_switch::paths::Env;
use omo_switch::providers::{
    cached_provider_ids, catalog_provider_ids, connected_provider_ids, get_provider_icon_cache_path, hyphenated_provider_key,
};
use omo_switch::providers::{
    apply_provider_settings, auth_with_api_key, can_add_custom_provider, can_apply_provider_settings,
    check_api_key, custom_provider_info, custom_provider_key, delete_provider_auth, get_provider_base_url,
    get_provider_config, get_provider_npm, get_provider_status, is_valid_base_url, provider_default_npm,
    provider_has_custom_shape, provider_icon_domain, provider_icon_url, provider_supports_base_url,
    provider_supports_connection_test, test_provider_connection, validate_custom_provider, with_custom_provider,
    AuthEntry, ProviderInfo, ProviderPreset,
};

fn s(text: &str) -> JsonValue {
    JsonValue::Str(text.to_string())
}

fn obj(members: Vec<(&str, JsonValue)>) -> JsonValue {
    JsonValue::Object(members.into_iter().map(|(k, v)| (k.to_string(), v)).collect())
}

fn field<'a>(v: &'a JsonValue, key: &str) -> Option<&'a JsonValue> {
    v.get(key)
}

fn text<'a>(v: Option<&'a JsonValue>) -> Option<&'a str> {
    v.and_then(|x| x.as_str())
}

fn strings(items: &[&str]) -> Vec<String> {
    items.iter().map(|x| x.to_string()).collect()
}

fn provider_by_id<'a>(providers: &'a [ProviderInfo], provider_id: &str) -> &'a ProviderInfo {
    providers
        .iter()
        .find(|provider| provider.id == provider_id)
        .unwrap_or_else(|| panic!("provider {provider_id} should exist"))
}

fn custom_mirror_config(id: &str) -> JsonValue {
    obj(vec![(
        "provider",
        obj(vec![(
            id,
            obj(vec![
                ("npm", s("@ai-sdk/openai-compatible")),
                ("options", obj(vec![("baseURL", s("https://mirror.example.com/v1"))])),
                ("models", obj(vec![("gpt-5.5", obj(vec![]))])),
            ]),
        )]),
    )])
}

fn api_auth(id: &str, key: &str) -> (String, AuthEntry) {
    (
        id.to_string(),
        AuthEntry { auth_type: Some("api".to_string()), key: Some(key.to_string()), extra: vec![] },
    )
}

#[test]
fn test_test_provider_connection_rejects_invalid_base_url() {
    let result = test_provider_connection(
        "@ai-sdk/openai".to_string(),
        Some("ftp://invalid.example.com".to_string()),
        "sk-test".to_string(),
    )
    .unwrap();

    assert!(!result.success);
    assert!(result.message.contains("Base URL"));
}

#[test]
fn test_test_provider_connection_accepts_valid_payload() {
    let result = test_provider_connection(
        "@ai-sdk/openai".to_string(),
        Some("https://api.openai.com/v1".to_string()),
        "sk-test".to_string(),
    )
    .unwrap();

    assert!(result.success);
}

#[test]
fn test_test_provider_connection_uses_validation_wording() {
    let result = test_provider_connection(
        "@ai-sdk/openai".to_string(),
        Some("https://api.openai.com/v1".to_string()),
        "sk-test".to_string(),
    )
    .unwrap();

    assert!(result.success);
    assert_eq!(result.message, "配置校验通过");
}

#[test]
fn connection_check_reports_each_problem_in_order() {
    let blank_key = test_provider_connection("@x/y".to_string(), None, "  ".to_string()).unwrap();
    assert!(!blank_key.success);
    assert_eq!(blank_key.message, "API Key 不能为空");

    let bad_npm = test_provider_connection("openai".to_string(), None, "sk".to_string()).unwrap();
    assert!(!bad_npm.success);
    assert_eq!(bad_npm.message, "Provider npm 标识格式无效");

    let blank_url = test_provider_connection("".to_string(), Some("   ".to_string()), "sk".to_string()).unwrap();
    assert!(blank_url.success);
    assert_eq!(blank_url.message, "配置校验通过");
}

#[test]
fn default_npm_packages_follow_the_table() {
    assert_eq!(provider_default_npm("openai"), "@ai-sdk/openai");
    assert_eq!(provider_default_npm("github-copilot"), "@ai-sdk/github-copilot");
    assert_eq!(provider_default_npm("minimax-cn"), "@ai-sdk/openai-compatible");
    assert_eq!(provider_default_npm("deepseek"), "@ai-sdk/anthropic");
    assert_eq!(provider_default_npm("xai"), "@ai-sdk/openai");
    assert_eq!(provider_default_npm("groq"), "@ai-sdk/groq");
    assert_eq!(provider_default_npm("openrouter"), "@openrouter/ai-sdk-provider");
    assert_eq!(provider_default_npm("somebody-else"), "@ai-sdk/openai");
}

#[test]
fn base_url_and_connection_support() {
    assert!(provider_supports_base_url("openai"));
    assert!(!provider_supports_base_url("opencode"));
    assert!(provider_supports_connection_test("minimax-cn-coding-plan"));
    assert!(!provider_supports_connection_test("anthropic"));
    assert!(is_valid_base_url("  https://api.example.com "));
    assert!(is_valid_base_url("http://localhost:8080"));
    assert!(!is_valid_base_url("ftp://example.com"));
    assert!(!is_valid_base_url("   "));
}

#[test]
fn test_get_provider_status_treats_provider_model_cache_provider_as_builtin() {
    let providers = get_provider_status(
        &strings(&["amazon-bedrock"]),
        &strings(&["amazon-bedrock"]),
        &vec![],
        &vec![],
        &obj(vec![]),
        &vec![],
    );
    let amazon_bedrock = provider_by_id(&providers, "amazon-bedrock");

    assert!(
        amazon_bedrock.is_builtin,
        "provider-model cache IDs come from OpenCode's catalog and must not be custom"
    );
}

#[test]
fn test_get_provider_status_marks_direct_non_catalog_config_provider_as_custom() {
    let providers =
        get_provider_status(&vec![], &vec![], &vec![], &vec![], &custom_mirror_config("mirror0425"), &vec![]);
    let mirror = provider_by_id(&providers, "mirror0425");

    assert!(!mirror.is_builtin, "non-catalog providers explicitly defined in opencode.json should be custom");
    assert!(mirror.is_configured, "providers explicitly defined in opencode.json should be shown as configured");
}

#[test]
fn test_get_provider_status_does_not_treat_verified_provider_model_cache_as_builtin() {
    let providers = get_provider_status(
        &strings(&["mirror0425"]),
        &vec![],
        &vec![],
        &vec![],
        &custom_mirror_config("mirror0425"),
        &vec![],
    );
    let mirror = provider_by_id(&providers, "mirror0425");

    assert!(!mirror.is_builtin);
}

#[test]
fn test_get_provider_status_keeps_openai_compatible_alias_provider_custom() {
    let config = obj(vec![(
        "provider",
        obj(vec![(
            "ngle",
            obj(vec![
                ("npm", s("@ai-sdk/openai-compatible")),
                ("options", obj(vec![("baseURL", s("https://mirror.example.com/v1"))])),
                ("models", obj(vec![("opus-4-6-thinking", obj(vec![("name", s("opus-4-6"))]))])),
            ]),
        )]),
    )]);
    let providers = get_provider_status(&strings(&["ngle"]), &vec![], &vec![], &vec![], &config, &vec![]);
    let ngle = provider_by_id(&providers, "ngle");

    assert!(!ngle.is_builtin);
}

#[test]
fn test_get_provider_status_catalog_membership_wins_over_config_shape() {
    let config = obj(vec![(
        "provider",
        obj(vec![(
            "amazon-bedrock",
            obj(vec![
                ("npm", s("@ai-sdk/openai-compatible")),
                ("options", obj(vec![("baseURL", s("https://bedrock-runtime.example.com"))])),
                ("models", obj(vec![("custom-bedrock-alias", obj(vec![]))])),
            ]),
        )]),
    )]);
    let providers = get_provider_status(
        &strings(&["amazon-bedrock"]),
        &strings(&["amazon-bedrock"]),
        &vec![],
        &vec![],
        &config,
        &vec![],
    );
    let amazon_bedrock = provider_by_id(&providers, "amazon-bedrock");

    assert!(amazon_bedrock.is_builtin, "built-in catalog membership must win over config overrides");
}

#[test]
fn test_get_provider_status_treats_auth_only_provider_as_builtin_known() {
    let providers =
        get_provider_status(&vec![], &vec![], &vec![], &strings(&["oauth-only-provider"]), &obj(vec![]), &vec![]);
    let provider = provider_by_id(&providers, "oauth-only-provider");

    assert!(provider.is_builtin);
    assert!(provider.is_configured);
    assert!(provider.can_delete_auth);
}

#[test]
fn test_get_provider_status_graceful_when_auth_invalid() {
    let providers = get_provider_status(&strings(&["openai"]), &vec![], &vec![], &vec![], &obj(vec![]), &vec![]);
    let openai = provider_by_id(&providers, "openai");
    assert!(!openai.is_configured);
}

#[test]
fn provider_status_lists_each_id_once_sorted_by_name() {
    let presets = vec![
        ProviderPreset {
            id: "openai".to_string(),
            name: "OpenAI".to_string(),
            npm: Some("@ai-sdk/openai".to_string()),
            website_url: Some("https://openai.com".to_string()),
        },
        ProviderPreset { id: "anthropic".to_string(), name: "Anthropic".to_string(), npm: None, website_url: None },
    ];
    let providers = get_provider_status(
        &strings(&["openai", "zeta"]),
        &strings(&["openai"]),
        &strings(&["zeta"]),
        &strings(&["openai"]),
        &custom_mirror_config("Beta"),
        &presets,
    );
    let names: Vec<&str> = providers.iter().map(|p| p.name.as_str()).collect();
    assert_eq!(names, vec!["Anthropic", "Beta", "OpenAI", "zeta"]);
    let openai = provider_by_id(&providers, "openai");
    assert_eq!(openai.npm.as_deref(), Some("@ai-sdk/openai"));
    assert!(openai.is_configured && openai.can_delete_auth && openai.supports_connection_test);
    assert!(!provider_by_id(&providers, "Beta").is_builtin);
    assert!(provider_by_id(&providers, "zeta").is_configured);
    assert!(!provider_by_id(&providers, "anthropic").is_configured);
}

#[test]
fn test_get_provider_config_reads_legacy_base_url_key() {
    let config = obj(vec![(
        "provider",
        obj(vec![(
            "openai",
            obj(vec![
                ("npm", s("@ai-sdk/openai")),
                ("options", obj(vec![("baseUrl", s("https://legacy.example.com/v1"))])),
            ]),
        )]),
    )]);
    let auth = vec![api_auth("openai", "sk-legacy")];

    let snapshot = get_provider_config("openai", &auth, &config);

    assert_eq!(snapshot.api_key.as_deref(), Some("sk-legacy"));
    assert_eq!(snapshot.base_url.as_deref(), Some("https://legacy.example.com/v1"));
    assert_eq!(snapshot.provider_type.as_deref(), Some("@ai-sdk/openai"));
    assert_eq!(snapshot.default_provider_type, "@ai-sdk/openai");
}

#[test]
fn provider_config_prefers_base_url_and_skips_blank_values() {
    let config = obj(vec![(
        "provider",
        obj(vec![(
            "groq",
            obj(vec![
                ("npm", s("   ")),
                ("options", obj(vec![("baseURL", s("  https://new.example.com ")), ("baseUrl", s("https://old"))])),
            ]),
        )]),
    )]);
    let auth = vec![api_auth("groq", "   ")];
    let snapshot = get_provider_config("groq", &auth, &config);
    assert_eq!(snapshot.api_key, None);
    assert_eq!(snapshot.base_url.as_deref(), Some("https://new.example.com"));
    assert_eq!(snapshot.provider_type, None);
    assert_eq!(snapshot.default_provider_type, "@ai-sdk/groq");
    assert_eq!(get_provider_base_url("missing", &config), None);
    assert_eq!(get_provider_npm("groq", &config), None);
}

#[test]
fn custom_shape_detection() {
    let config = custom_mirror_config("m");
    assert!(provider_has_custom_shape(&config, "m"));
    let plain = obj(vec![("provider", obj(vec![("openai", obj(vec![("npm", s("@ai-sdk/openai"))]))]))]);
    assert!(!provider_has_custom_shape(&plain, "openai"));
    assert!(!provider_has_custom_shape(&plain, "nobody"));
}

#[test]
fn api_key_is_set_then_read_back_then_deleted() {
    assert!(check_api_key("  ").is_err());
    assert_eq!(check_api_key(" ").unwrap_err(), "API Key 不能为空");
    assert!(check_api_key("sk").is_ok());

    let auth = vec![api_auth("openai", "sk-old"), api_auth("groq", "gsk")];
    let auth = auth_with_api_key(auth, "openai".to_string(), " sk-new ".to_string());
    let config = obj(vec![]);
    assert_eq!(get_provider_config("openai", &auth, &config).api_key.as_deref(), Some("sk-new"));
    assert_eq!(get_provider_config("groq", &auth, &config).api_key.as_deref(), Some("gsk"));
    assert_eq!(auth.len(), 2);
    assert_eq!(auth[1].1.auth_type.as_deref(), Some("api"));

    let after = delete_provider_auth("openai", auth).expect("openai has credentials");
    assert_eq!(get_provider_config("openai", &after, &config).api_key, None);
    assert_eq!(get_provider_config("groq", &after, &config).api_key.as_deref(), Some("gsk"));
    assert!(delete_provider_auth("openai", after).is_none());
}

#[test]
fn provider_settings_are_written_and_read_back() {
    let config = obj(vec![("theme", s("dark"))]);
    assert!(can_apply_provider_settings(&config, "openai", Some("https://api.example.com")));
    let written =
        apply_provider_settings(config, "openai", Some("  https://api.example.com/v1 "), Some(" @ai-sdk/openai ")).unwrap();
    assert_eq!(text(field(&written, "theme")), Some("dark"));
    assert_eq!(get_provider_base_url("openai", &written).as_deref(), Some("https://api.example.com/v1"));
    assert_eq!(get_provider_npm("openai", &written).as_deref(), Some("@ai-sdk/openai"));
    let entry = field(field(&written, "provider").unwrap(), "openai").unwrap();
    assert_eq!(text(field(field(entry, "options").unwrap(), "baseURL")), Some("https://api.example.com/v1"));

    let cleared = apply_provider_settings(written, "openai", None, None).unwrap();
    let entry = field(field(&cleared, "provider").unwrap(), "openai").unwrap();
    assert!(field(entry, "options").is_none());
    assert_eq!(get_provider_npm("openai", &cleared).as_deref(), Some("@ai-sdk/openai"));
}

#[test]
fn provider_settings_without_url_leave_a_null_options_member() {
    let config = obj(vec![("provider", obj(vec![("deepseek", obj(vec![]))]))]);
    let written = apply_provider_settings(config, "deepseek", None, Some("  ")).unwrap();
    let entry = field(field(&written, "provider").unwrap(), "deepseek").unwrap();
    assert!(matches!(field(entry, "options"), Some(JsonValue::Null)));
    assert_eq!(text(field(entry, "npm")), Some("@ai-sdk/anthropic"));
}

#[test]
fn provider_settings_keep_other_options_when_url_is_cleared() {
    let config = obj(vec![(
        "provider",
        obj(vec![(
            "openai",
            obj(vec![
                ("options", obj(vec![("baseURL", s("https://x.example")), ("timeout", JsonValue::Number(JsonNumber::PosInt(5)))])),
                ("models", obj(vec![])),
            ]),
        )]),
    )]);
    let written = apply_provider_settings(config, "openai", Some("   "), None).unwrap();
    let entry = field(field(&written, "provider").unwrap(), "openai").unwrap();
    let options = field(entry, "options").unwrap();
    assert!(field(options, "baseURL").is_none());
    assert!(matches!(field(options, "timeout"), Some(JsonValue::Number(JsonNumber::PosInt(5)))));
    assert!(field(entry, "models").is_some());
}

#[test]
fn provider_settings_reject_a_base_url_without_scheme() {
    let config = obj(vec![]);
    let err = apply_provider_settings(config, "openai", Some("ftp://x"), None).unwrap_err();
    assert_eq!(err, "Base URL 必须以 http:// 或 https:// 开头");
    assert!(!can_apply_provider_settings(&s("text"), "openai", None));
    let bad_options = obj(vec![("provider", obj(vec![("openai", obj(vec![("options", s("x"))]))]))]);
    assert!(!can_apply_provider_settings(&bad_options, "openai", Some("https://ok.example")));
    assert!(can_apply_provider_settings(&bad_options, "openai", None));
}

#[test]
fn test_add_custom_provider_writes_models_object_without_private_marker() {
    let key = validate_custom_provider("Mirror 0425", "sk-test", "https://mirror.example.com/v1").unwrap();
    assert_eq!(key, "mirror-0425");
    let config = obj(vec![]);
    assert!(can_add_custom_provider(&config));
    let config = with_custom_provider(config, &key, "https://mirror.example.com/v1");
    let provider =
        custom_provider_info(key.clone(), "Mirror 0425".to_string(), "https://mirror.example.com/v1".to_string());

    assert_eq!(provider.id, "mirror-0425");
    assert!(!provider.is_builtin);

    let provider_config = field(field(&config, "provider").unwrap(), "mirror-0425").unwrap();
    assert_eq!(text(field(provider_config, "npm")), Some("@ai-sdk/openai-compatible"));
    assert_eq!(
        text(field(field(provider_config, "options").unwrap(), "baseURL")),
        Some("https://mirror.example.com/v1")
    );
    assert!(matches!(field(provider_config, "models"), Some(JsonValue::Object(ms)) if ms.is_empty()));
    assert!(field(provider_config, "omo_custom").is_none());
    assert!(provider_has_custom_shape(&config, "mirror-0425"));
}

#[test]
fn custom_provider_validation_messages() {
    assert_eq!(validate_custom_provider("  ", "sk", "https://x").unwrap_err(), "Provider 名称不能为空");
    assert_eq!(validate_custom_provider("n", " ", "https://x").unwrap_err(), "API Key 不能为空");
    assert_eq!(validate_custom_provider("n", "sk", "x").unwrap_err(), "Base URL 必须以 http:// 或 https:// 开头");
    assert_eq!(custom_provider_key("My_Big Provider"), "my-big-provider");
    assert!(!can_add_custom_provider(&obj(vec![("provider", s("x"))])));
}

#[test]
fn provider_icons_come_from_the_domain_table() {
    assert_eq!(provider_icon_domain("xai"), Some("x.ai"));
    assert_eq!(provider_icon_domain("moonshotai-cn"), Some("moonshot.cn"));
    assert_eq!(provider_icon_domain("unknown"), None);
    assert_eq!(provider_icon_url("openai").as_deref(), Some("https://logo.clearbit.com/openai.com?size=64"));
    assert_eq!(provider_icon_url("unknown"), None);
}

#[test]
fn catalog_ids_skip_openai_compatible_aliases() {
    let entry = |npm: &str| obj(vec![("api", obj(vec![("npm", s(npm))]))]);
    let doc = obj(vec![(
        "models",
        obj(vec![
            ("amazon-bedrock", JsonValue::Array(vec![entry("@ai-sdk/amazon-bedrock")])),
            ("ngle", JsonValue::Array(vec![entry("@ai-sdk/openai-compatible")])),
            ("openai", JsonValue::Array(vec![s("gpt-5")])),
            ("empty", JsonValue::Array(vec![])),
        ]),
    )]);
    assert_eq!(catalog_provider_ids(&doc), strings(&["amazon-bedrock", "openai"]));
    assert_eq!(cached_provider_ids(&doc), strings(&["amazon-bedrock", "ngle", "openai", "empty"]));
    assert!(catalog_provider_ids(&obj(vec![])).is_empty());
}

#[test]
fn provider_names_sort_without_regard_to_case() {
    let presets = vec![
        ProviderPreset { id: "b".to_string(), name: "Banana".to_string(), npm: None, website_url: None },
        ProviderPreset { id: "a".to_string(), name: "apple".to_string(), npm: None, website_url: None },
        ProviderPreset { id: "c".to_string(), name: "Cherry".to_string(), npm: None, website_url: None },
    ];
    let providers = get_provider_status(&vec![], &vec![], &vec![], &vec![], &obj(vec![]), &presets);
    let names: Vec<&str> = providers.iter().map(|p| p.name.as_str()).collect();
    assert_eq!(names, vec!["apple", "Banana", "Cherry"]);
}

#[test]
fn providers_of_equal_names_keep_their_order() {
    let presets = vec![
        ProviderPreset { id: "z".to_string(), name: "Same".to_string(), npm: None, website_url: None },
        ProviderPreset { id: "a".to_string(), name: "same".to_string(), npm: None, website_url: None },
        ProviderPreset { id: "m".to_string(), name: "Alpha".to_string(), npm: None, website_url: None },
    ];
    let providers = get_provider_status(&vec![], &vec![], &vec![], &vec![], &obj(vec![]), &presets);
    let ids: Vec<&str> = providers.iter().map(|p| p.id.as_str()).collect();
    assert_eq!(ids, vec!["m", "z", "a"]);
}

#[test]
fn connected_ids_and_icon_cache_paths() {
    let doc = obj(vec![("connected", JsonValue::Array(vec![s("openai"), JsonValue::Null, s("groq")])), ("updatedAt", s("t"))]);
    assert_eq!(connected_provider_ids(&doc), strings(&["openai", "groq"]));
    assert!(connected_provider_ids(&obj(vec![])).is_empty());
    let env = Env {
        windows: false,
        home: Some("/home/me".to_string()),
        userprofile: None,
        xdg_config_home: None,
        xdg_cache_home: None,
        xdg_data_home: None,
        opencode_config_dir: None,
        opencode_config: None,
        opencode_bin: None,
        appdata: None,
        localappdata: None,
        pnpm_home: None,
        bun_install: None,
        program_files: None,
        program_files_x86: None,
        dirs_home: None,
    };
    assert_eq!(
        get_provider_icon_cache_path(&env, "openai").unwrap(),
        "/home/me/.cache/oh-my-opencode/provider-icons/openai.png"
    );
    assert_eq!(hyphenated_provider_key("my big_name"), "my-big-name");
}

fn status_from_documents(models_cache: &str, config: &str) -> Vec<ProviderInfo> {
    let doc = parse_json(models_cache).expect("provider model cache should parse");
    let config = parse_json(config).expect("opencode.json should parse");
    get_provider_status(&cached_provider_ids(&doc), &catalog_provider_ids(&doc), &vec![], &vec![], &config, &vec![])
}

#[test]
fn status_from_cache_document_treats_catalog_provider_as_builtin() {
    let providers = status_from_documents(
        r#"{
          "models": {
            "amazon-bedrock": [{
              "id": "amazon.titan-text-premier-v1:0",
              "providerID": "amazon-bedrock",
              "api": {
                "id": "amazon.titan-text-premier-v1:0",
                "url": "",
                "npm": "@ai-sdk/amazon-bedrock"
              },
              "name": "Titan Text Premier",
              "family": "titan-text",
              "release_date": "2024-06-20"
            }]
          }
        }"#,
        "{}",
    );
    assert!(provider_by_id(&providers, "amazon-bedrock").is_builtin);
}

#[test]
fn status_from_cache_document_keeps_openai_compatible_alias_custom() {
    let providers = status_from_documents(
        r#"{
          "models": {
            "ngle": [{
              "id": "opus-4-6-thinking",
              "providerID": "ngle",
              "api": {
                "id": "opus-4-6-thinking",
                "url": "",
                "npm": "@ai-sdk/openai-compatible"
              },
              "name": "opus-4-6",
              "family": "",
              "release_date": ""
            }]
          }
        }"#,
        r#"{
          "provider": {
            "ngle": {
              "npm": "@ai-sdk/openai-compatible",
              "options": { "baseURL": "https://mirror.example.com/v1" },
              "models": {
                "opus-4-6-thinking": {
                  "name": "opus-4-6"
                }
              }
            }
          }
        }"#,
    );
    let ngle = provider_by_id(&providers, "ngle");
    assert!(!ngle.is_builtin);
    assert!(ngle.is_configured);
}

#[test]
fn status_from_cache_document_lets_catalog_membership_win_over_config_shape() {
    let providers = status_from_documents(
        r#"{
          "models": {
            "amazon-bedrock": [{
              "id": "amazon.titan-text-premier-v1:0",
              "api": { "npm": "@ai-sdk/amazon-bedrock" }
            }]
          }
        }"#,
        r#"{
          "provider": {
            "amazon-bedrock": {
              "npm": "@ai-sdk/openai-compatible",
              "options": { "baseURL": "https://bedrock-runtime.example.com" },
              "models": { "custom-bedrock-alias": {} }
            }
          }
        }"#,
    );
    assert!(provider_by_id(&providers, "amazon-bedrock").is_builtin);
}
