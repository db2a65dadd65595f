//! Model providers: their defaults, how the OpenCode configuration and the stored
//! credentials describe them, and which of them are built in.
use vstd::prelude::*;

use crate::install::{contains_path, dedup_paths, unique};
use crate::paths::{cache_home_spec, join_result, omo_cache_dir, path_outcome, under, Env};
use crate::json::{keys_of, lemma_lookup_some_iff, member_keys, text_of, JsonValue};
use crate::order::{chars_lt, code_points, lemma_lex_irreflexive, lemma_lex_total, lemma_lex_transitive, lex_lt};
use crate::text::{concat, lemma_trim_idempotent, lemma_trim_plain, replace_char, replace_char_spec, contains, has_infix, has_prefix, owned, starts_with, str_eq, to_chars, to_lowercase, trim, trim_spec, unicode_lowercase};

verus! {

/// What the provider list shows of a provider.
#[derive(Debug)]
pub struct ProviderInfo {
    pub id: String,
    pub name: String,
    pub npm: Option<String>,
    pub website_url: Option<String>,
    pub is_configured: bool,
    pub is_builtin: bool,
    pub supports_base_url: bool,
    pub supports_connection_test: bool,
    pub can_delete_auth: bool,
}

/// A provider entry as text.
pub struct ProviderInfoView {
    pub id: Seq<char>,
    pub name: Seq<char>,
    pub npm: Option<Seq<char>>,
    pub website_url: Option<Seq<char>>,
    pub is_configured: bool,
    pub is_builtin: bool,
    pub supports_base_url: bool,
    pub supports_connection_test: bool,
    pub can_delete_auth: bool,
}

impl DeepView for ProviderInfo {
    type V = ProviderInfoView;

    open spec fn deep_view(&self) -> ProviderInfoView {
        ProviderInfoView {
            id: self.id@,
            name: self.name@,
            npm: self.npm.deep_view(),
            website_url: self.website_url.deep_view(),
            is_configured: self.is_configured,
            is_builtin: self.is_builtin,
            supports_base_url: self.supports_base_url,
            supports_connection_test: self.supports_connection_test,
            can_delete_auth: self.can_delete_auth,
        }
    }
}

/// What the settings form shows of one provider's configuration.
#[derive(Debug)]
pub struct ProviderConfigSnapshot {
    pub api_key: Option<String>,
    pub base_url: Option<String>,
    pub provider_type: Option<String>,
    pub default_provider_type: String,
}

/// The outcome of checking a provider's connection settings.
#[derive(Debug)]
pub struct ConnectionTestResult {
    pub success: bool,
    pub message: String,
}

/// One provider's stored credential; `extra` holds any other members of the entry.
#[derive(Debug)]
pub struct AuthEntry {
    pub auth_type: Option<String>,
    pub key: Option<String>,
    pub extra: Vec<(String, JsonValue)>,
}

/// Display metadata bundled for a provider.
#[derive(Debug)]
pub struct ProviderPreset {
    pub id: String,
    pub name: String,
    pub npm: Option<String>,
    pub website_url: Option<String>,
}

/// The providers that take a base URL and can have their connection checked.
pub open spec fn base_url_compatible_providers() -> Seq<Seq<char>> {
    seq![
        "openai"@,
        "deepseek"@,
        "groq"@,
        "openrouter"@,
        "xai"@,
        "moonshotai"@,
        "moonshotai-cn"@,
        "kimi-for-coding"@,
        "zhipuai"@,
        "zhipuai-coding-plan"@,
        "minimax"@,
        "minimax-cn"@,
        "minimax-coding-plan"@,
        "minimax-cn-coding-plan"@,
    ]
}

/// The npm package a provider uses unless configured otherwise.
pub open spec fn default_npm_spec(id: Seq<char>) -> Seq<char> {
    if id == "openai"@ {
        "@ai-sdk/openai"@
    } else if id == "github-copilot"@ {
        "@ai-sdk/github-copilot"@
    } else if id == "zhipuai"@ || id == "zhipuai-coding-plan"@ || id == "moonshotai"@ || id == "moonshotai-cn"@
        || id == "kimi-for-coding"@ || id == "minimax"@ || id == "minimax-cn"@ || id == "minimax-coding-plan"@
        || id == "minimax-cn-coding-plan"@ {
        "@ai-sdk/openai-compatible"@
    } else if id == "deepseek"@ {
        "@ai-sdk/anthropic"@
    } else if id == "xai"@ {
        "@ai-sdk/openai"@
    } else if id == "groq"@ {
        "@ai-sdk/groq"@
    } else if id == "openrouter"@ {
        "@openrouter/ai-sdk-provider"@
    } else {
        "@ai-sdk/openai"@
    }
}

/// A base URL: non-blank, and starting with `https://` or `http://` once trimmed.
pub open spec fn valid_base_url_spec(url: Seq<char>) -> bool {
    let t = trim_spec(url);
    t.len() > 0 && (has_prefix(t, "https://"@) || has_prefix(t, "http://"@)) && has_infix(t, "://"@)
}

/// The npm package a provider uses unless configured otherwise.
pub fn provider_default_npm(provider_id: &str) -> (r: &'static str)
    ensures
        r@ == default_npm_spec(provider_id@),
{
    let id = provider_id;
    if str_eq(id, "openai") {
        "@ai-sdk/openai"
    } else if str_eq(id, "github-copilot") {
        "@ai-sdk/github-copilot"
    } else if str_eq(id, "zhipuai") || str_eq(id, "zhipuai-coding-plan") || str_eq(id, "moonshotai") || str_eq(
        id,
        "moonshotai-cn",
    ) || str_eq(id, "kimi-for-coding") || str_eq(id, "minimax") || str_eq(id, "minimax-cn") || str_eq(
        id,
        "minimax-coding-plan",
    ) || str_eq(id, "minimax-cn-coding-plan") {
        "@ai-sdk/openai-compatible"
    } else if str_eq(id, "deepseek") {
        "@ai-sdk/anthropic"
    } else if str_eq(id, "xai") {
        "@ai-sdk/openai"
    } else if str_eq(id, "groq") {
        "@ai-sdk/groq"
    } else if str_eq(id, "openrouter") {
        "@openrouter/ai-sdk-provider"
    } else {
        "@ai-sdk/openai"
    }
}

/// Every provider but `opencode` takes a base URL.
pub fn provider_supports_base_url(provider_id: &str) -> (r: bool)
    ensures
        r == (provider_id@ != "opencode"@),
{
    !str_eq(provider_id, "opencode")
}

/// Whether a provider's connection settings can be checked.
pub fn provider_supports_connection_test(provider_id: &str) -> (r: bool)
    ensures
        r == base_url_compatible_providers().contains(provider_id@),
{
    let list = vec![
        "openai",
        "deepseek",
        "groq",
        "openrouter",
        "xai",
        "moonshotai",
        "moonshotai-cn",
        "kimi-for-coding",
        "zhipuai",
        "zhipuai-coding-plan",
        "minimax",
        "minimax-cn",
        "minimax-coding-plan",
        "minimax-cn-coding-plan",
    ];
    let ghost want = base_url_compatible_providers();
    assert(list@.len() == want.len());
    assert forall|j: int| 0 <= j < want.len() implies #[trigger] list@[j]@ == want[j] by {}
    let mut i: usize = 0;
    while i < list.len()
        invariant
            i <= list.len(),
            list@.len() == want.len(),
            want == base_url_compatible_providers(),
            forall|j: int| 0 <= j < want.len() ==> #[trigger] list@[j]@ == want[j],
            forall|j: int| 0 <= j < i ==> want[j] != provider_id@,
        decreases list.len() - i,
    {
        if str_eq(list[i], provider_id) {
            assert(want[i as int] == provider_id@);
            return true;
        }
        i = i + 1;
    }
    false
}

/// Whether a base URL is usable: non-blank and starting with `http://` or `https://`.
pub fn is_valid_base_url(url: &str) -> (r: bool)
    ensures
        r == valid_base_url_spec(url@),
{
    let t = trim(url);
    let n = to_chars(t.as_str()).len();
    n > 0 && (starts_with(t.as_str(), "https://") || starts_with(t.as_str(), "http://")) && contains(t.as_str(), "://")
}

/// The message for an empty API key.
pub open spec fn api_key_empty_message() -> Seq<char> {
    "API Key 不能为空"@
}

/// The message for a base URL without an HTTP scheme.
pub open spec fn base_url_message() -> Seq<char> {
    "Base URL 必须以 http:// 或 https:// 开头"@
}

/// The outcome of checking connection settings: the first problem found, or success.
pub open spec fn connection_check_spec(npm: Seq<char>, base_url: Option<Seq<char>>, api_key: Seq<char>) -> (bool, Seq<char>) {
    if trim_spec(api_key).len() == 0 {
        (false, api_key_empty_message())
    } else if base_url matches Some(u) && trim_spec(u).len() > 0 && !valid_base_url_spec(trim_spec(u)) {
        (false, base_url_message())
    } else if trim_spec(npm).len() > 0 && !has_prefix(trim_spec(npm), "@"@) {
        (false, "Provider npm 标识格式无效"@)
    } else {
        (true, "配置校验通过"@)
    }
}

/// Checks a provider's connection settings: a non-blank API key, a base URL (where one is
/// given) with an HTTP scheme, and an npm package (where one is given) that starts with `@`.
pub fn test_provider_connection(npm: String, base_url: Option<String>, api_key: String) -> (r: Result<
    ConnectionTestResult,
    String,
>)
    ensures
        r matches Ok(t) && (t.success, t.message@) == connection_check_spec(npm@, base_url.deep_view(), api_key@),
{
    if to_chars(trim(api_key.as_str()).as_str()).len() == 0 {
        return Ok(ConnectionTestResult { success: false, message: owned("API Key 不能为空") });
    }
    if let Some(u) = &base_url {
        let t = trim(u.as_str());
        if to_chars(t.as_str()).len() > 0 {
            if !is_valid_base_url(t.as_str()) {
                return Ok(
                    ConnectionTestResult {
                        success: false,
                        message: owned("Base URL 必须以 http:// 或 https:// 开头"),
                    },
                );
            }
        }
    }
    let n = trim(npm.as_str());
    if to_chars(n.as_str()).len() > 0 && !starts_with(n.as_str(), "@") {
        return Ok(ConnectionTestResult { success: false, message: owned("Provider npm 标识格式无效") });
    }
    Ok(ConnectionTestResult { success: true, message: owned("配置校验通过") })
}

/// The configuration entry of a provider.
pub open spec fn provider_entry(config: JsonValue, id: Seq<char>) -> Option<JsonValue> {
    match config.field("provider"@) {
        Some(p) => p.field(id),
        None => None,
    }
}

/// The base URL member of a provider's options: `baseURL`, or else `baseUrl`.
pub open spec fn base_url_member(options: Option<JsonValue>) -> Option<JsonValue> {
    match options {
        Some(o) => if o.field("baseURL"@) is Some {
            o.field("baseURL"@)
        } else {
            o.field("baseUrl"@)
        },
        None => None,
    }
}

/// The trimmed text of a string value, where it is not blank.
pub open spec fn nonblank_text(v: Option<JsonValue>) -> Option<Seq<char>> {
    match text_of(v) {
        Some(t) => if trim_spec(t).len() > 0 {
            Some(trim_spec(t))
        } else {
            None
        },
        None => None,
    }
}

/// The base URL configured for a provider.
pub open spec fn configured_base_url(config: JsonValue, id: Seq<char>) -> Option<Seq<char>> {
    match provider_entry(config, id) {
        Some(p) => nonblank_text(base_url_member(p.field("options"@))),
        None => None,
    }
}

/// The npm package configured for a provider.
pub open spec fn configured_npm(config: JsonValue, id: Seq<char>) -> Option<Seq<char>> {
    match provider_entry(config, id) {
        Some(p) => nonblank_text(p.field("npm"@)),
        None => None,
    }
}

/// The provider's entry looks user-defined: the OpenAI-compatible package, a base URL, or a
/// `models` object.
pub open spec fn custom_shape_spec(config: JsonValue, id: Seq<char>) -> bool {
    match provider_entry(config, id) {
        Some(p) => {
            ||| (text_of(p.field("npm"@)) matches Some(t) && trim_spec(t) == "@ai-sdk/openai-compatible"@)
            ||| (p.field("options"@) matches Some(JsonValue::Object(_)) && nonblank_text(base_url_member(p.field("options"@))) is Some)
            ||| p.field("models"@) matches Some(JsonValue::Object(_))
        },
        None => false,
    }
}

fn nonblank(v: Option<&JsonValue>) -> (r: Option<String>)
    ensures
        r.deep_view() == nonblank_text(match v {
            Some(x) => Some(*x),
            None => None,
        }),
{
    match v {
        Some(x) => match x.as_str() {
            Some(s) => {
                let t = trim(s);
                if to_chars(t.as_str()).len() > 0 {
                    Some(t)
                } else {
                    None
                }
            },
            None => None,
        },
        None => None,
    }
}

fn base_url_of(options: Option<&JsonValue>) -> (r: Option<&JsonValue>)
    ensures
        match r {
            Some(x) => base_url_member(match options {
                Some(o) => Some(*o),
                None => None,
            }) == Some(*x),
            None => base_url_member(match options {
                Some(o) => Some(*o),
                None => None,
            }) is None,
        },
{
    match options {
        Some(o) => match o.get("baseURL") {
            Some(v) => Some(v),
            None => o.get("baseUrl"),
        },
        None => None,
    }
}

fn entry_of<'a>(config: &'a JsonValue, provider_id: &str) -> (r: Option<&'a JsonValue>)
    ensures
        match r {
            Some(x) => provider_entry(*config, provider_id@) == Some(*x),
            None => provider_entry(*config, provider_id@) is None,
        },
{
    match config.get("provider") {
        Some(p) => p.get(provider_id),
        None => None,
    }
}

/// The base URL configured for a provider (`options.baseURL`, or the older `options.baseUrl`),
/// trimmed, where it is a non-blank string.
pub fn get_provider_base_url(provider_id: &str, config: &JsonValue) -> (r: Option<String>)
    ensures
        r.deep_view() == configured_base_url(*config, provider_id@),
{
    match entry_of(config, provider_id) {
        Some(p) => nonblank(base_url_of(p.get("options"))),
        None => None,
    }
}

/// The npm package configured for a provider, trimmed, where it is a non-blank string.
pub fn get_provider_npm(provider_id: &str, config: &JsonValue) -> (r: Option<String>)
    ensures
        r.deep_view() == configured_npm(*config, provider_id@),
{
    match entry_of(config, provider_id) {
        Some(p) => nonblank(p.get("npm")),
        None => None,
    }
}

/// Whether the provider's configuration entry looks user-defined.
pub fn provider_has_custom_shape(config: &JsonValue, provider_id: &str) -> (r: bool)
    ensures
        r == custom_shape_spec(*config, provider_id@),
{
    let provider = match entry_of(config, provider_id) {
        Some(p) => p,
        None => return false,
    };
    let has_openai_compatible_npm = match provider.get("npm") {
        Some(v) => match v.as_str() {
            Some(s) => str_eq(trim(s).as_str(), "@ai-sdk/openai-compatible"),
            None => false,
        },
        None => false,
    };
    let options = provider.get("options");
    let has_base_url = match options {
        Some(o) => o.is_object() && nonblank(base_url_of(options)).is_some(),
        None => false,
    };
    let has_models = match provider.get("models") {
        Some(m) => m.is_object(),
        None => false,
    };
    has_openai_compatible_npm || has_base_url || has_models
}

/// The ids under the configuration's `provider` object.
pub open spec fn config_provider_keys(config: JsonValue) -> Seq<Seq<char>> {
    match config.field("provider"@) {
        Some(JsonValue::Object(es)) => keys_of(es@),
        _ => Seq::empty(),
    }
}

/// The ids under the configuration's `provider` object, each once.
pub fn configured_provider_ids(config: &JsonValue) -> (r: Vec<String>)
    ensures
        r.deep_view() == crate::paths::dedup(config_provider_keys(*config)),
        forall|k: Seq<char>| r.deep_view().contains(k) <==> #[trigger] provider_entry(*config, k) is Some,
{
    let keys = match config.get("provider") {
        Some(JsonValue::Object(es)) => member_keys(es),
        _ => Vec::new(),
    };
    assert(keys.deep_view() =~= config_provider_keys(*config));
    let r = crate::install::dedup_paths(keys);
    proof {
        assert forall|k: Seq<char>| r.deep_view().contains(k) <==> #[trigger] provider_entry(*config, k) is Some by {
            crate::paths::lemma_dedup_contains(config_provider_keys(*config), k);
            match config.field("provider"@) {
                Some(JsonValue::Object(es)) => {
                    lemma_lookup_some_iff(es@, k);
                },
                _ => {},
            }
        }
    }
    r
}


/// The ids of the bundled presets, in order.
pub open spec fn preset_ids(presets: Seq<ProviderPreset>) -> Seq<Seq<char>> {
    presets.map_values(|p: ProviderPreset| p.id@)
}

/// The built-in providers: those with a bundled preset and those in OpenCode's provider catalog.
pub open spec fn builtin_ids_spec(catalog: Seq<Seq<char>>, presets: Seq<ProviderPreset>) -> Seq<Seq<char>> {
    unique(preset_ids(presets) + catalog)
}

/// The first preset for a provider.
pub open spec fn find_preset(presets: Seq<ProviderPreset>, id: Seq<char>) -> Option<ProviderPreset>
    decreases presets.len(),
{
    if presets.len() == 0 {
        None
    } else if presets[0].id@ == id {
        Some(presets[0])
    } else {
        find_preset(presets.drop_first(), id)
    }
}

/// A provider counts as built in when it is in the built-in set, or when it is not a
/// user-defined entry of the configuration (configured with a custom shape).
pub open spec fn is_builtin_spec(id: Seq<char>, config: JsonValue, builtin: Seq<Seq<char>>) -> bool {
    builtin.contains(id) || !(provider_entry(config, id) is Some && custom_shape_spec(config, id))
}

/// What the provider list shows for one provider id.
pub open spec fn provider_info_spec(
    id: Seq<char>,
    presets: Seq<ProviderPreset>,
    connected: Seq<Seq<char>>,
    auth_ids: Seq<Seq<char>>,
    config: JsonValue,
    builtin: Seq<Seq<char>>,
) -> ProviderInfoView {
    let preset = find_preset(presets, id);
    ProviderInfoView {
        id,
        name: match preset {
            Some(p) => p.name@,
            None => id,
        },
        npm: match preset {
            Some(p) => p.npm.deep_view(),
            None => None,
        },
        website_url: match preset {
            Some(p) => p.website_url.deep_view(),
            None => None,
        },
        is_configured: connected.contains(id) || auth_ids.contains(id) || provider_entry(config, id) is Some,
        is_builtin: is_builtin_spec(id, config, builtin),
        supports_base_url: id != "opencode"@,
        supports_connection_test: base_url_compatible_providers().contains(id),
        can_delete_auth: auth_ids.contains(id),
    }
}

/// Every provider id the list shows, each once.
pub open spec fn status_ids(
    model_ids: Seq<Seq<char>>,
    catalog: Seq<Seq<char>>,
    connected: Seq<Seq<char>>,
    auth_ids: Seq<Seq<char>>,
    config: JsonValue,
    presets: Seq<ProviderPreset>,
) -> Seq<Seq<char>> {
    unique(
        builtin_ids_spec(catalog, presets) + model_ids + connected + auth_ids + unique(config_provider_keys(config)),
    )
}

/// The key the list is ordered by: the lower-cased name, by code points.
pub open spec fn name_key(v: ProviderInfoView) -> Seq<int> {
    code_points(unicode_lowercase(v.name))
}

/// The entries are in order of their lower-cased names.
pub open spec fn sorted_by_name(s: Seq<ProviderInfoView>) -> bool {
    forall|a: int, b: int| 0 <= a < b < s.len() ==> !lex_lt(name_key(s[b]), name_key(s[a]))
}

/// The built-in providers: those with a bundled preset and those in OpenCode's provider catalog.
pub fn build_builtin_provider_ids(catalog_ids: &Vec<String>, presets: &Vec<ProviderPreset>) -> (r: Vec<String>)
    ensures
        r.deep_view() == builtin_ids_spec(catalog_ids.deep_view(), presets@),
{
    let mut raw: Vec<String> = Vec::new();
    let mut i: usize = 0;
    while i < presets.len()
        invariant
            i <= presets.len(),
            raw.deep_view() == preset_ids(presets@.take(i as int)),
        decreases presets.len() - i,
    {
        let ghost before = raw.deep_view();
        raw.push(owned(presets[i].id.as_str()));
        assert(raw.deep_view() =~= before.push(presets@[i as int].id@));
        assert(raw.deep_view() =~= preset_ids(presets@.take(i + 1)));
        i = i + 1;
    }
    assert(presets@.take(presets.len() as int) == presets@);
    let ghost mid = raw.deep_view();
    let mut k: usize = 0;
    while k < catalog_ids.len()
        invariant
            k <= catalog_ids.len(),
            raw.deep_view() == mid + catalog_ids.deep_view().take(k as int),
        decreases catalog_ids.len() - k,
    {
        let ghost before = raw.deep_view();
        raw.push(owned(catalog_ids[k].as_str()));
        assert(raw.deep_view() =~= before.push(catalog_ids[k as int]@));
        assert(raw.deep_view() =~= mid + catalog_ids.deep_view().take(k + 1));
        k = k + 1;
    }
    assert(catalog_ids.deep_view().take(catalog_ids.len() as int) == catalog_ids.deep_view());
    dedup_paths(raw)
}

/// Whether a provider counts as built in.
pub fn provider_is_builtin(provider_id: &str, config: &JsonValue, config_provider_ids: &Vec<String>, builtin_provider_ids: &Vec<String>) -> (r: bool)
    ensures
        r == (builtin_provider_ids.deep_view().contains(provider_id@) || !(config_provider_ids.deep_view().contains(
            provider_id@,
        ) && custom_shape_spec(*config, provider_id@))),
{
    if contains_path(builtin_provider_ids, provider_id) {
        return true;
    }
    !(contains_path(config_provider_ids, provider_id) && provider_has_custom_shape(config, provider_id))
}

fn find_preset_exec(presets: &Vec<ProviderPreset>, id: &str) -> (r: Option<usize>)
    ensures
        match r {
            Some(i) => i < presets.len() && find_preset(presets@, id@) == Some(presets@[i as int]),
            None => find_preset(presets@, id@) is None,
        },
{
    let ghost ps = presets@;
    let mut i: usize = 0;
    assert(ps.skip(0) == ps);
    while i < presets.len()
        invariant
            i <= presets.len(),
            ps == presets@,
            find_preset(ps, id@) == find_preset(ps.skip(i as int), id@),
        decreases presets.len() - i,
    {
        proof {
            assert(ps.skip(i as int)[0] == ps[i as int]);
            assert(ps.skip(i as int).drop_first() == ps.skip(i + 1));
        }
        if str_eq(presets[i].id.as_str(), id) {
            return Some(i);
        }
        i = i + 1;
    }
    None
}

fn copy_opt(o: &Option<String>) -> (r: Option<String>)
    ensures
        r.deep_view() == o.deep_view(),
{
    match o {
        Some(s) => Some(owned(s.as_str())),
        None => None,
    }
}

fn provider_info_for(
    id: &str,
    presets: &Vec<ProviderPreset>,
    connected: &Vec<String>,
    auth_ids: &Vec<String>,
    config: &JsonValue,
    config_ids: &Vec<String>,
    builtin: &Vec<String>,
) -> (r: ProviderInfo)
    requires
        forall|k: Seq<char>| config_ids.deep_view().contains(k) <==> #[trigger] provider_entry(*config, k) is Some,
    ensures
        r.deep_view() == provider_info_spec(id@, presets@, connected.deep_view(), auth_ids.deep_view(), *config, builtin.deep_view()),
{
    let preset = find_preset_exec(presets, id);
    let (name, npm, website_url) = match preset {
        Some(i) => (owned(presets[i].name.as_str()), copy_opt(&presets[i].npm), copy_opt(&presets[i].website_url)),
        None => (owned(id), None, None),
    };
    let has_auth = contains_path(auth_ids, id);
    let is_configured = contains_path(connected, id) || has_auth || contains_path(config_ids, id);
    assert(config_ids.deep_view().contains(id@) == (provider_entry(*config, id@) is Some));
    ProviderInfo {
        id: owned(id),
        name,
        npm,
        website_url,
        is_configured,
        is_builtin: provider_is_builtin(id, config, config_ids, builtin),
        supports_base_url: provider_supports_base_url(id),
        supports_connection_test: provider_supports_connection_test(id),
        can_delete_auth: has_auth,
    }
}

fn append_all(raw: &mut Vec<String>, more: &Vec<String>)
    ensures
        final(raw).deep_view() == old(raw).deep_view() + more.deep_view(),
{
    let ghost start = raw.deep_view();
    let mut k: usize = 0;
    while k < more.len()
        invariant
            k <= more.len(),
            raw.deep_view() == start + more.deep_view().take(k as int),
        decreases more.len() - k,
    {
        let ghost before = raw.deep_view();
        raw.push(owned(more[k].as_str()));
        assert(raw.deep_view() =~= before.push(more[k as int]@));
        assert(raw.deep_view() =~= start + more.deep_view().take(k + 1));
        k = k + 1;
    }
    assert(more.deep_view().take(more.len() as int) == more.deep_view());
}

fn name_key_exec(p: &ProviderInfo) -> (r: Vec<char>)
    ensures
        code_points(r@) == name_key(p.deep_view()),
{
    let lower = to_lowercase(p.name.as_str());
    to_chars(lower.as_str())
}

proof fn lemma_insert_sorted(s: Seq<ProviderInfoView>, i: int, p: int, x: ProviderInfoView)
    requires
        0 <= p <= i <= s.len(),
        forall|a: int, b: int| 0 <= a < b < i ==> !lex_lt(name_key(s[b]), name_key(s[a])),
        forall|q: int| 0 <= q < p ==> !lex_lt(name_key(x), name_key(#[trigger] s[q])),
        p < i ==> lex_lt(name_key(x), name_key(s[p])),
    ensures
        forall|a: int, b: int| 0 <= a < b < i + 1 ==> !lex_lt(name_key(s.insert(p, x)[b]), name_key(s.insert(p, x)[a])),
{
    let t = s.insert(p, x);
    assert forall|a: int, b: int| 0 <= a < b < i + 1 implies !lex_lt(name_key(t[b]), name_key(t[a])) by {
        if b < p {
            assert(t[a] == s[a] && t[b] == s[b]);
        } else if b == p {
            assert(t[a] == s[a] && t[b] == x);
        } else {
            assert(t[b] == s[b - 1]);
            if a < p {
                assert(t[a] == s[a]);
            } else if a == p {
                assert(t[a] == x);
                if lex_lt(name_key(s[b - 1]), name_key(x)) {
                    lemma_lex_transitive(name_key(s[b - 1]), name_key(x), name_key(s[p]));
                    if p == b - 1 {
                        lemma_lex_irreflexive(name_key(s[p]));
                    }
                }
            } else {
                assert(t[a] == s[a - 1]);
            }
        }
    }
}

/// Where an entry goes among entries ordered by name: before the first whose name sorts
/// after its own, so after every entry of an equal name.
pub open spec fn insert_pos(s: Seq<ProviderInfoView>, x: ProviderInfoView) -> int
    decreases s.len(),
{
    if s.len() == 0 {
        0
    } else if lex_lt(name_key(x), name_key(s[0])) {
        0
    } else {
        1 + insert_pos(s.drop_first(), x)
    }
}

/// The entries ordered by lower-cased name, entries of equal names in the order they came
/// in: each entry inserted, in turn, after every entry before it whose name does not sort
/// after its own.
pub open spec fn sort_by_name_spec(s: Seq<ProviderInfoView>) -> Seq<ProviderInfoView>
    decreases s.len(),
{
    if s.len() == 0 {
        s
    } else {
        let t = sort_by_name_spec(s.drop_last());
        t.insert(insert_pos(t, s.last()), s.last())
    }
}

/// The entries whose name key is `k`, in order.
pub open spec fn with_name_key(s: Seq<ProviderInfoView>, k: Seq<int>) -> Seq<ProviderInfoView>
    decreases s.len(),
{
    if s.len() == 0 {
        s
    } else if name_key(s.last()) == k {
        with_name_key(s.drop_last(), k).push(s.last())
    } else {
        with_name_key(s.drop_last(), k)
    }
}

proof fn lemma_insert_pos(s: Seq<ProviderInfoView>, x: ProviderInfoView)
    ensures
        0 <= insert_pos(s, x) <= s.len(),
        forall|q: int| 0 <= q < insert_pos(s, x) ==> !lex_lt(name_key(x), name_key(#[trigger] s[q])),
        insert_pos(s, x) < s.len() ==> lex_lt(name_key(x), name_key(s[insert_pos(s, x)])),
    decreases s.len(),
{
    if s.len() > 0 && !lex_lt(name_key(x), name_key(s[0])) {
        lemma_insert_pos(s.drop_first(), x);
        assert forall|q: int| 0 <= q < insert_pos(s, x) implies !lex_lt(name_key(x), name_key(#[trigger] s[q])) by {
            if q > 0 {
                assert(s[q] == s.drop_first()[q - 1]);
            }
        }
        if insert_pos(s, x) < s.len() {
            assert(s[insert_pos(s, x)] == s.drop_first()[insert_pos(s, x) - 1]);
        }
    }
}

proof fn lemma_insert_pos_unique(s: Seq<ProviderInfoView>, x: ProviderInfoView, p: int)
    requires
        0 <= p <= s.len(),
        forall|q: int| 0 <= q < p ==> !lex_lt(name_key(x), name_key(#[trigger] s[q])),
        p < s.len() ==> lex_lt(name_key(x), name_key(s[p])),
    ensures
        insert_pos(s, x) == p,
    decreases p,
{
    if p > 0 {
        assert(!lex_lt(name_key(x), name_key(s[0])));
        assert forall|q: int| 0 <= q < p - 1 implies !lex_lt(name_key(x), name_key(#[trigger] s.drop_first()[q])) by {
            assert(s.drop_first()[q] == s[q + 1]);
        }
        if p < s.len() {
            assert(s.drop_first()[p - 1] == s[p]);
        }
        lemma_insert_pos_unique(s.drop_first(), x, p - 1);
    }
}

proof fn lemma_sort_spec_shape(s: Seq<ProviderInfoView>)
    ensures
        sort_by_name_spec(s).len() == s.len(),
        sorted_by_name(sort_by_name_spec(s)),
    decreases s.len(),
{
    if s.len() > 0 {
        let t = sort_by_name_spec(s.drop_last());
        lemma_sort_spec_shape(s.drop_last());
        lemma_insert_pos(t, s.last());
        lemma_insert_sorted(t, t.len() as int, insert_pos(t, s.last()), s.last());
    }
}

proof fn lemma_with_name_key_concat(a: Seq<ProviderInfoView>, b: Seq<ProviderInfoView>, k: Seq<int>)
    ensures
        with_name_key(a + b, k) == with_name_key(a, k) + with_name_key(b, k),
    decreases b.len(),
{
    if b.len() == 0 {
        assert(a + b == a);
    } else {
        lemma_with_name_key_concat(a, b.drop_last(), k);
        assert((a + b).drop_last() == a + b.drop_last());
        assert((a + b).last() == b.last());
    }
}

proof fn lemma_with_name_key_none(u: Seq<ProviderInfoView>, k: Seq<int>)
    requires
        forall|j: int| 0 <= j < u.len() ==> name_key(#[trigger] u[j]) != k,
    ensures
        with_name_key(u, k).len() == 0,
    decreases u.len(),
{
    if u.len() > 0 {
        assert(name_key(u[u.len() - 1]) != k);
        assert forall|j: int| 0 <= j < u.drop_last().len() implies name_key(#[trigger] u.drop_last()[j]) != k by {
            assert(u.drop_last()[j] == u[j]);
        }
        lemma_with_name_key_none(u.drop_last(), k);
    }
}

/// Ordering by name keeps entries of equal names in the order they came in: the entries
/// of each name come out in the order they went in.
pub proof fn law_sort_keeps_order_of_equal_names(s: Seq<ProviderInfoView>, k: Seq<int>)
    ensures
        with_name_key(sort_by_name_spec(s), k) == with_name_key(s, k),
    decreases s.len(),
{
    if s.len() > 0 {
        let t = sort_by_name_spec(s.drop_last());
        let x = s.last();
        law_sort_keeps_order_of_equal_names(s.drop_last(), k);
        lemma_sort_spec_shape(s.drop_last());
        lemma_insert_pos(t, x);
        let p = insert_pos(t, x);
        let a = t.take(p);
        let b = t.skip(p);
        assert(t.insert(p, x) =~= a + seq![x] + b);
        assert(t =~= a + b);
        lemma_with_name_key_concat(a + seq![x], b, k);
        lemma_with_name_key_concat(a, seq![x], k);
        lemma_with_name_key_concat(a, b, k);
        assert(seq![x].drop_last() =~= Seq::<ProviderInfoView>::empty());
        let wx = with_name_key(seq![x], k);
        assert(seq![x].len() == 1 && seq![x].last() == x);
        assert(with_name_key(Seq::<ProviderInfoView>::empty(), k) =~= Seq::<ProviderInfoView>::empty());
        assert(s.drop_last().push(x) =~= s);
        if name_key(x) == k {
            assert(wx =~= seq![x]);
            assert forall|j: int| 0 <= j < b.len() implies name_key(#[trigger] b[j]) != k by {
                assert(b[j] == t[p + j]);
                lemma_lex_irreflexive(name_key(x));
                if j > 0 {
                    assert(!lex_lt(name_key(t[p + j]), name_key(t[p])));
                    lemma_lex_total(name_key(t[p + j]), name_key(t[p]));
                    if lex_lt(name_key(t[p]), name_key(t[p + j])) {
                        lemma_lex_transitive(name_key(x), name_key(t[p]), name_key(t[p + j]));
                    }
                }
            }
            lemma_with_name_key_none(b, k);
            assert(with_name_key(b, k) =~= Seq::<ProviderInfoView>::empty());
            assert(with_name_key(sort_by_name_spec(s), k) =~= with_name_key(a, k).push(x));
            assert(with_name_key(t, k) =~= with_name_key(a, k));
        } else {
            assert(wx =~= Seq::<ProviderInfoView>::empty());
            assert(with_name_key(sort_by_name_spec(s), k) =~= with_name_key(a, k) + with_name_key(b, k));
        }
    }
}

/// Orders the entries by their lower-cased names, keeping the order of equal names.
pub fn sort_by_name(v: &mut Vec<ProviderInfo>)
    ensures
        final(v).deep_view() == sort_by_name_spec(old(v).deep_view()),
        final(v).deep_view().to_multiset() == old(v).deep_view().to_multiset(),
        sorted_by_name(final(v).deep_view()),
{
    broadcast use vstd::multiset::group_multiset_axioms;

    let ghost orig = v.deep_view();
    let mut i: usize = 1;
    if v.len() == 0 {
        return;
    }
    proof {
        let o1 = orig.take(1);
        assert(o1.drop_last() =~= Seq::<ProviderInfoView>::empty());
        assert(sort_by_name_spec(o1.drop_last()) =~= Seq::<ProviderInfoView>::empty());
        assert(sort_by_name_spec(o1) =~= seq![orig[0]]);
        assert(v.deep_view() =~= sort_by_name_spec(orig.take(1)) + orig.subrange(1, orig.len() as int));
    }
    while i < v.len()
        invariant
            1 <= i <= v.len(),
            v.len() == orig.len(),
            v.deep_view() == sort_by_name_spec(orig.take(i as int)) + orig.subrange(i as int, orig.len() as int),
            v.deep_view().to_multiset() == orig.to_multiset(),
            forall|a: int, b: int| 0 <= a < b < i ==> !lex_lt(name_key(v.deep_view()[b]), name_key(v.deep_view()[a])),
        decreases v.len() - i,
    {
        proof {
            lemma_sort_spec_shape(orig.take(i as int));
        }
        let ghost before = v.deep_view();
        let x = v.remove(i);
        let ghost xv = x.deep_view();
        let ghost mid = v.deep_view();
        assert(mid =~= before.remove(i as int));
        assert(xv == before[i as int]);
        let kx = name_key_exec(&x);
        let mut p: usize = 0;
        while p < i && !chars_lt(&kx, &name_key_exec(&v[p]))
            invariant
                p <= i,
                i <= v.len(),
                mid == v.deep_view(),
                code_points(kx@) == name_key(xv),
                forall|q: int| 0 <= q < p ==> !lex_lt(name_key(xv), name_key(#[trigger] mid[q])),
            decreases i - p,
        {
            p = p + 1;
        }
        proof {
            assert forall|a: int, b: int| 0 <= a < b < i implies !lex_lt(name_key(mid[b]), name_key(mid[a])) by {
                assert(mid[a] == before[a] && mid[b] == before[b]);
            }
            lemma_insert_sorted(mid, i as int, p as int, xv);
            let t = sort_by_name_spec(orig.take(i as int));
            let rest = orig.subrange(i + 1, orig.len() as int);
            assert(mid =~= t + rest);
            assert(xv == orig[i as int]);
            assert forall|q: int| 0 <= q < p implies !lex_lt(name_key(xv), name_key(#[trigger] t[q])) by {
                assert(t[q] == mid[q]);
            }
            if p < i {
                assert(t[p as int] == mid[p as int]);
                assert(lex_lt(name_key(xv), name_key(t[p as int])));
            }
            lemma_insert_pos_unique(t, xv, p as int);
            let o = orig.take(i + 1);
            assert(o.drop_last() =~= orig.take(i as int));
            assert(o.last() == xv);
            assert(mid.insert(p as int, xv) =~= t.insert(p as int, xv) + rest);
        }
        v.insert(p, x);
        proof {
            assert(v.deep_view() =~= mid.insert(p as int, xv));
            vstd::seq_lib::to_multiset_insert(mid, p as int, xv);
            vstd::seq_lib::to_multiset_remove(before, i as int);
            vstd::seq_lib::to_multiset_contains(before, xv);
            assert(before.contains(xv)) by {
                assert(before[i as int] == xv);
            }
            assert(mid.insert(p as int, xv).to_multiset() == mid.to_multiset().insert(xv));
            assert(mid.to_multiset() == before.to_multiset().remove(xv));
            assert(before.to_multiset().contains(xv));
            assert(before.to_multiset().remove(xv).insert(xv) =~= before.to_multiset());
        }
        i = i + 1;
    }
    proof {
        assert(orig.take(orig.len() as int) =~= orig);
        assert(orig.subrange(orig.len() as int, orig.len() as int) =~= Seq::<ProviderInfoView>::empty());
        assert(v.deep_view() =~= sort_by_name_spec(orig));
    }
}

/// The provider list: every provider id known from the presets, OpenCode's catalog, the
/// model cache, the connected list, the stored credentials and the configuration, each once,
/// ordered by lower-cased name; entries of equal names keep the order of those sources.
pub fn get_provider_status(
    provider_model_ids: &Vec<String>,
    catalog_ids: &Vec<String>,
    connected: &Vec<String>,
    auth_ids: &Vec<String>,
    config: &JsonValue,
    presets: &Vec<ProviderPreset>,
) -> (r: Vec<ProviderInfo>)
    ensures
        r.deep_view() == sort_by_name_spec(
            status_ids(
                provider_model_ids.deep_view(),
                catalog_ids.deep_view(),
                connected.deep_view(),
                auth_ids.deep_view(),
                *config,
                presets@,
            ).map_values(
                |id: Seq<char>|
                    provider_info_spec(
                        id,
                        presets@,
                        connected.deep_view(),
                        auth_ids.deep_view(),
                        *config,
                        builtin_ids_spec(catalog_ids.deep_view(), presets@),
                    ),
            ),
        ),
        sorted_by_name(r.deep_view()),
        r.deep_view().to_multiset() == status_ids(
            provider_model_ids.deep_view(),
            catalog_ids.deep_view(),
            connected.deep_view(),
            auth_ids.deep_view(),
            *config,
            presets@,
        ).map_values(
            |id: Seq<char>|
                provider_info_spec(
                    id,
                    presets@,
                    connected.deep_view(),
                    auth_ids.deep_view(),
                    *config,
                    builtin_ids_spec(catalog_ids.deep_view(), presets@),
                ),
        ).to_multiset(),
{
    let config_ids = configured_provider_ids(config);
    let builtin = build_builtin_provider_ids(catalog_ids, presets);
    let mut raw: Vec<String> = Vec::new();
    append_all(&mut raw, &builtin);
    append_all(&mut raw, provider_model_ids);
    append_all(&mut raw, connected);
    append_all(&mut raw, auth_ids);
    append_all(&mut raw, &config_ids);
    let ids = dedup_paths(raw);
    let ghost idv = ids.deep_view();
    assert(idv == status_ids(
        provider_model_ids.deep_view(),
        catalog_ids.deep_view(),
        connected.deep_view(),
        auth_ids.deep_view(),
        *config,
        presets@,
    ));
    let mut providers: Vec<ProviderInfo> = Vec::new();
    let mut i: usize = 0;
    while i < ids.len()
        invariant
            i <= ids.len(),
            idv == ids.deep_view(),
            forall|k: Seq<char>| config_ids.deep_view().contains(k) <==> #[trigger] provider_entry(*config, k) is Some,
            builtin.deep_view() == builtin_ids_spec(catalog_ids.deep_view(), presets@),
            providers.deep_view() == idv.take(i as int).map_values(
                |id: Seq<char>|
                    provider_info_spec(id, presets@, connected.deep_view(), auth_ids.deep_view(), *config, builtin.deep_view()),
            ),
        decreases ids.len() - i,
    {
        let info = provider_info_for(ids[i].as_str(), presets, connected, auth_ids, config, &config_ids, &builtin);
        let ghost before = providers.deep_view();
        providers.push(info);
        proof {
            let g = |id: Seq<char>|
                provider_info_spec(id, presets@, connected.deep_view(), auth_ids.deep_view(), *config, builtin.deep_view());
            assert(idv[i as int] == ids[i as int]@);
            assert(providers.deep_view() =~= before.push(g(idv[i as int])));
            assert(idv.take(i + 1).map_values(g) =~= idv.take(i as int).map_values(g).push(g(idv[i as int])));
        }
        i = i + 1;
    }
    assert(idv.take(ids.len() as int) == idv);
    sort_by_name(&mut providers);
    providers
}


/// The first stored credential for a provider.
pub open spec fn auth_lookup(auth: Seq<(String, AuthEntry)>, id: Seq<char>) -> Option<AuthEntry>
    decreases auth.len(),
{
    if auth.len() == 0 {
        None
    } else if auth[0].0@ == id {
        Some(auth[0].1)
    } else {
        auth_lookup(auth.drop_first(), id)
    }
}

/// The stored credentials without those of a provider.
pub open spec fn auth_without(auth: Seq<(String, AuthEntry)>, id: Seq<char>) -> Seq<(String, AuthEntry)>
    decreases auth.len(),
{
    if auth.len() == 0 {
        auth
    } else if auth.last().0@ == id {
        auth_without(auth.drop_last(), id)
    } else {
        auth_without(auth.drop_last(), id).push(auth.last())
    }
}

/// The API key stored for a provider, trimmed, where it is not blank.
pub open spec fn stored_api_key(auth: Seq<(String, AuthEntry)>, id: Seq<char>) -> Option<Seq<char>> {
    match auth_lookup(auth, id) {
        Some(e) => match e.key {
            Some(k) => if trim_spec(k@).len() > 0 {
                Some(trim_spec(k@))
            } else {
                None
            },
            None => None,
        },
        None => None,
    }
}

fn auth_find(auth: &Vec<(String, AuthEntry)>, id: &str) -> (r: Option<usize>)
    ensures
        match r {
            Some(i) => i < auth.len() && auth_lookup(auth@, id@) == Some(auth@[i as int].1),
            None => auth_lookup(auth@, id@) is None,
        },
{
    let ghost a = auth@;
    let mut i: usize = 0;
    assert(a.skip(0) == a);
    while i < auth.len()
        invariant
            i <= auth.len(),
            a == auth@,
            auth_lookup(a, id@) == auth_lookup(a.skip(i as int), id@),
        decreases auth.len() - i,
    {
        proof {
            assert(a.skip(i as int)[0] == a[i as int]);
            assert(a.skip(i as int).drop_first() == a.skip(i + 1));
        }
        if str_eq(auth[i].0.as_str(), id) {
            return Some(i);
        }
        i = i + 1;
    }
    None
}

/// One provider's settings: the stored API key, and the base URL and npm package from the
/// configuration, with the package it uses by default.
pub fn get_provider_config(provider_id: &str, auth: &Vec<(String, AuthEntry)>, config: &JsonValue) -> (r: ProviderConfigSnapshot)
    ensures
        r.api_key.deep_view() == stored_api_key(auth@, provider_id@),
        r.base_url.deep_view() == configured_base_url(*config, provider_id@),
        r.provider_type.deep_view() == configured_npm(*config, provider_id@),
        r.default_provider_type@ == default_npm_spec(provider_id@),
{
    let api_key = match auth_find(auth, provider_id) {
        Some(i) => match &auth[i].1.key {
            Some(k) => {
                let t = trim(k.as_str());
                if to_chars(t.as_str()).len() > 0 {
                    Some(t)
                } else {
                    None
                }
            },
            None => None,
        },
        None => None,
    };
    ProviderConfigSnapshot {
        api_key,
        base_url: get_provider_base_url(provider_id, config),
        provider_type: get_provider_npm(provider_id, config),
        default_provider_type: owned(provider_default_npm(provider_id)),
    }
}

/// Removes a provider's stored credentials; `None` when it has none, so there is nothing to
/// write.
pub fn delete_provider_auth(provider_id: &str, auth: Vec<(String, AuthEntry)>) -> (r: Option<Vec<(String, AuthEntry)>>)
    ensures
        r is None <==> auth_lookup(auth@, provider_id@) is None,
        r matches Some(v) ==> v@ == auth_without(auth@, provider_id@),
{
    if auth_find(&auth, provider_id).is_none() {
        return None;
    }
    Some(remove_auth(auth, provider_id))
}

/// The stored credentials without those of a provider.
fn remove_auth(auth: Vec<(String, AuthEntry)>, id: &str) -> (r: Vec<(String, AuthEntry)>)
    ensures
        r@ == auth_without(auth@, id@),
{
    let ghost a = auth@;
    let mut rest = auth;
    let mut kept: Vec<(String, AuthEntry)> = Vec::new();
    let ghost mut n: int = 0;
    assert(a.take(0) == Seq::<(String, AuthEntry)>::empty());
    while rest.len() > 0
        invariant
            0 <= n <= a.len(),
            rest@ == a.subrange(n, a.len() as int),
            kept@ == auth_without(a.take(n), id@),
        decreases rest.len(),
    {
        let e = rest.remove(0);
        proof {
            assert(e == a[n]);
            assert(a.take(n + 1).drop_last() == a.take(n));
            assert(a.take(n + 1).last() == a[n]);
        }
        if !str_eq(e.0.as_str(), id) {
            kept.push(e);
        }
        proof {
            n = n + 1;
            assert(rest@ == a.subrange(n, a.len() as int));
        }
    }
    assert(a.take(n) == a);
    kept
}

/// The credential stored for an API key.
pub open spec fn api_entry(e: AuthEntry, key: Seq<char>) -> bool {
    &&& e.auth_type.deep_view() == Some("api"@)
    &&& e.key.deep_view() == Some(key)
    &&& e.extra@.len() == 0
}

/// The stored credentials with a provider's API key set, replacing what it had.
pub fn auth_with_api_key(auth: Vec<(String, AuthEntry)>, provider_id: String, api_key: String) -> (r: Vec<(String, AuthEntry)>)
    ensures
        r@ == auth_without(auth@, provider_id@).push(r@.last()),
        r@.last().0@ == provider_id@,
        api_entry(r@.last().1, api_key@),
{
    let mut r = remove_auth(auth, provider_id.as_str());
    let ghost before = r@;
    r.push((provider_id, AuthEntry { auth_type: Some(owned("api")), key: Some(api_key), extra: Vec::new() }));
    r
}


/// What a value, where there is one, holds under `key`.
pub open spec fn field_of(v: Option<JsonValue>, key: Seq<char>) -> Option<JsonValue> {
    match v {
        Some(x) => x.field(key),
        None => None,
    }
}

/// The trimmed text, where it is not blank.
pub open spec fn nonblank_trimmed(s: Option<Seq<char>>) -> Option<Seq<char>> {
    match s {
        Some(t) => if trim_spec(t).len() > 0 {
            Some(trim_spec(t))
        } else {
            None
        },
        None => None,
    }
}

/// The npm package a provider is set to: the one given, else its default.
pub open spec fn selected_npm(id: Seq<char>, provider_type: Option<Seq<char>>) -> Seq<char> {
    match nonblank_trimmed(provider_type) {
        Some(t) => t,
        None => default_npm_spec(id),
    }
}

/// The configuration has room for a provider's settings: every value that a member is
/// written into is an object, or `null`, which becomes one.
pub open spec fn settings_applicable(config: JsonValue, id: Seq<char>, base_url: Option<Seq<char>>) -> bool {
    &&& config.assignable()
    &&& (config.field("provider"@) matches Some(p) ==> p.assignable())
    &&& (provider_entry(config, id) matches Some(e) ==> e.assignable())
    &&& ((nonblank_trimmed(base_url) matches Some(u) && valid_base_url_spec(u)) ==> (field_of(
        provider_entry(config, id),
        "options"@,
    ) matches Some(o) ==> o.assignable()))
}

/// The options of a provider's entry after its settings are written: the base URL set where
/// one is given; otherwise `baseURL` removed from an options object, and the object itself
/// where nothing else is left in it, while options that are no object stay as they were
/// and missing options become `null`.
pub open spec fn options_after(before: Option<JsonValue>, url: Option<Seq<char>>, after: Option<JsonValue>) -> bool {
    match url {
        Some(u) => match after {
            Some(o) => {
                &&& o is Object
                &&& text_of(o.field("baseURL"@)) == Some(u)
                &&& forall|k: Seq<char>| k != "baseURL"@ ==> #[trigger] o.field(k) == field_of(before, k)
            },
            None => false,
        },
        None => match before {
            None => after == Some(JsonValue::Null),
            Some(o) => if o is Object {
                if forall|k: Seq<char>| k != "baseURL"@ ==> #[trigger] o.field(k) is None {
                    after is None
                } else {
                    after matches Some(n) && JsonValue::is_removal_of(n, o, "baseURL"@)
                }
            } else {
                after == Some(o)
            },
        },
    }
}

/// A provider's entry after its settings are written over `before`.
pub open spec fn entry_after(
    before: Option<JsonValue>,
    after: JsonValue,
    id: Seq<char>,
    base_url: Option<Seq<char>>,
    provider_type: Option<Seq<char>>,
) -> bool {
    &&& after is Object
    &&& text_of(after.field("npm"@)) == Some(selected_npm(id, provider_type))
    &&& forall|k: Seq<char>| k != "npm"@ && k != "options"@ ==> #[trigger] after.field(k) == field_of(before, k)
    &&& options_after(field_of(before, "options"@), nonblank_trimmed(base_url), after.field("options"@))
}

/// The configuration after a provider's settings are written over `before`: only that
/// provider's entry changes.
pub open spec fn config_after_settings(
    before: JsonValue,
    after: JsonValue,
    id: Seq<char>,
    base_url: Option<Seq<char>>,
    provider_type: Option<Seq<char>>,
) -> bool {
    &&& after is Object
    &&& forall|k: Seq<char>| k != "provider"@ ==> #[trigger] after.field(k) == before.field(k)
    &&& match after.field("provider"@) {
        Some(p) => {
            &&& p is Object
            &&& forall|k: Seq<char>| k != id ==> #[trigger] p.field(k) == field_of(before.field("provider"@), k)
            &&& match p.field(id) {
                Some(e) => entry_after(provider_entry(before, id), e, id, base_url, provider_type),
                None => false,
            }
        },
        None => false,
    }
}

fn nonblank_str(s: Option<&str>) -> (r: Option<String>)
    ensures
        r.deep_view() == nonblank_trimmed(match s {
            Some(t) => Some(t@),
            None => None,
        }),
{
    match s {
        Some(t) => {
            let tt = trim(t);
            if to_chars(tt.as_str()).len() > 0 {
                Some(tt)
            } else {
                None
            }
        },
        None => None,
    }
}

/// The options of a provider's entry once the base URL is set, or cleared where `url` is
/// `None`; `None` where the options are dropped.
fn settled_options(options: JsonValue, present: bool, url: Option<String>) -> (r: Option<JsonValue>)
    requires
        !present ==> options == JsonValue::Null,
        url is Some ==> options.assignable(),
    ensures
        options_after(if present { Some(options) } else { None }, url.deep_view(), r),
{
    let ghost before: Option<JsonValue> = if present { Some(options) } else { None };
    match url {
        Some(u) => {
            let ghost uv = u@;
            let o = options.with_field(owned("baseURL"), JsonValue::Str(u));
            proof {
                assert(text_of(o.field("baseURL"@)) == Some(uv));
                assert forall|k: Seq<char>| k != "baseURL"@ implies #[trigger] o.field(k) == field_of(before, k) by {
                    assert(o.field(k) == options.field(k));
                }
            }
            Some(o)
        },
        None => {
            if options.is_object() {
                let ghost o0 = options;
                let (rest, _) = options.take_field("baseURL");
                match &rest {
                    JsonValue::Object(es) => {
                        if es.len() == 0 {
                            None
                        } else {
                            Some(rest)
                        }
                    },
                    _ => {
                        assert(false);
                        None
                    },
                }
            } else {
                Some(options)
            }
        },
    }
}

/// The configuration with a provider's settings written into its entry: the npm package
/// given (or its default), and the base URL given, or none; an error for a base URL
/// without an HTTP scheme.
pub fn apply_provider_settings(
    config: JsonValue,
    provider_id: &str,
    base_url: Option<&str>,
    provider_type: Option<&str>,
) -> (r: Result<JsonValue, String>)
    requires
        settings_applicable(config, provider_id@, base_url.deep_view()),
    ensures
        r is Err <==> (nonblank_trimmed(base_url.deep_view()) matches Some(u) && !valid_base_url_spec(u)),
        r matches Err(m) ==> m@ == base_url_message(),
        r matches Ok(c) ==> config_after_settings(config, c, provider_id@, base_url.deep_view(), provider_type.deep_view()),
{
    let url = nonblank_str(base_url);
    if let Some(u) = &url {
        if !is_valid_base_url(u.as_str()) {
            return Err(owned("Base URL 必须以 http:// 或 https:// 开头"));
        }
    }
    let ghost c0 = config;
    let ghost id = provider_id@;
    let npm = match nonblank_str(provider_type) {
        Some(t) => t,
        None => owned(provider_default_npm(provider_id)),
    };
    let ghost nv = npm@;
    let (rest, providers) = config.take_field("provider");
    let ghost p0 = providers;
    assert(p0.assignable());
    assert(forall|k: Seq<char>| #[trigger] p0.field(k) == field_of(c0.field("provider"@), k));
    let (prest, entry) = providers.take_field(provider_id);
    let ghost e0 = entry;
    assert(e0.assignable());
    assert(forall|k: Seq<char>| #[trigger] e0.field(k) == field_of(provider_entry(c0, id), k));
    let e1 = entry.with_field(owned("npm"), JsonValue::Str(npm));
    let present = e1.get("options").is_some();
    let (erest, options) = e1.take_field("options");
    proof {
        reveal_strlit("options");
        reveal_strlit("npm");
        assert("options"@.len() != "npm"@.len());
    }
    assert(e1.field("options"@) == field_of(provider_entry(c0, id), "options"@));
    let ghost before_opts = field_of(provider_entry(c0, id), "options"@);
    assert((if present { Some(options) } else { None }) == before_opts);
    let settled = settled_options(options, present, url);
    let e2 = match settled {
        Some(o) => erest.with_field(owned("options"), o),
        None => erest,
    };
    proof {
        assert(e2.field("options"@) == settled);
        assert(text_of(e2.field("npm"@)) == Some(nv));
        assert forall|k: Seq<char>| k != "npm"@ && k != "options"@ implies #[trigger] e2.field(k) == field_of(
            provider_entry(c0, id),
            k,
        ) by {
            assert(e2.field(k) == e1.field(k));
            assert(e1.field(k) == e0.field(k));
        }
        assert(entry_after(provider_entry(c0, id), e2, id, base_url.deep_view(), provider_type.deep_view()));
    }
    let p1 = prest.with_field(provider_id.to_string(), e2);
    proof {
        assert forall|k: Seq<char>| k != id implies #[trigger] p1.field(k) == field_of(c0.field("provider"@), k) by {
            assert(p1.field(k) == prest.field(k));
            assert(prest.field(k) == p0.field(k));
        }
    }
    let c1 = rest.with_field(owned("provider"), p1);
    proof {
        assert forall|k: Seq<char>| k != "provider"@ implies #[trigger] c1.field(k) == c0.field(k) by {
            assert(c1.field(k) == rest.field(k));
        }
    }
    Ok(c1)
}


/// Whether the configuration has room for a provider's settings (see `settings_applicable`).
pub fn can_apply_provider_settings(config: &JsonValue, provider_id: &str, base_url: Option<&str>) -> (r: bool)
    ensures
        r == settings_applicable(*config, provider_id@, base_url.deep_view()),
{
    if !config.is_assignable() {
        return false;
    }
    let providers = config.get("provider");
    let entry = match providers {
        Some(p) => {
            if !p.is_assignable() {
                return false;
            }
            p.get(provider_id)
        },
        None => None,
    };
    match entry {
        Some(e) => {
            if !e.is_assignable() {
                return false;
            }
            let url = nonblank_str(base_url);
            match url {
                Some(u) => {
                    if is_valid_base_url(u.as_str()) {
                        match e.get("options") {
                            Some(o) => o.is_assignable(),
                            None => true,
                        }
                    } else {
                        true
                    }
                },
                None => true,
            }
        },
        None => true,
    }
}

/// Checks that an API key is not blank.
pub fn check_api_key(api_key: &str) -> (r: Result<(), String>)
    ensures
        r is Err <==> trim_spec(api_key@).len() == 0,
        r matches Err(m) ==> m@ == api_key_empty_message(),
{
    if to_chars(trim(api_key).as_str()).len() == 0 {
        Err(owned("API Key 不能为空"))
    } else {
        Ok(())
    }
}

proof fn lemma_auth_lookup_push(auth: Seq<(String, AuthEntry)>, e: (String, AuthEntry), k: Seq<char>)
    ensures
        auth_lookup(auth.push(e), k) == (if auth_lookup(auth, k) is Some {
            auth_lookup(auth, k)
        } else if e.0@ == k {
            Some(e.1)
        } else {
            None
        }),
    decreases auth.len(),
{
    if auth.len() > 0 {
        assert(auth.push(e).drop_first() == auth.drop_first().push(e));
        lemma_auth_lookup_push(auth.drop_first(), e, k);
    } else {
        assert(auth.push(e).drop_first() == auth);
    }
}

proof fn lemma_auth_without(auth: Seq<(String, AuthEntry)>, id: Seq<char>, k: Seq<char>)
    ensures
        auth_lookup(auth_without(auth, id), k) == (if k == id {
            None
        } else {
            auth_lookup(auth, k)
        }),
    decreases auth.len(),
{
    if auth.len() > 0 {
        lemma_auth_without(auth.drop_last(), id, k);
        assert(auth == auth.drop_last().push(auth.last()));
        lemma_auth_lookup_push(auth.drop_last(), auth.last(), k);
        if auth.last().0@ != id {
            lemma_auth_lookup_push(auth_without(auth.drop_last(), id), auth.last(), k);
        }
    }
}

/// Removing a provider's credentials leaves it with none and every other provider with
/// what it had.
pub proof fn law_delete_auth_forgets_only_that_provider(auth: Seq<(String, AuthEntry)>, id: Seq<char>, k: Seq<char>)
    ensures
        auth_lookup(auth_without(auth, id), id) is None,
        stored_api_key(auth_without(auth, id), id) is None,
        k != id ==> auth_lookup(auth_without(auth, id), k) == auth_lookup(auth, k),
{
    lemma_auth_without(auth, id, id);
    lemma_auth_without(auth, id, k);
}

/// An API key that was set is the one read back for that provider, trimmed; every other
/// provider keeps its credentials.
pub proof fn law_api_key_read_back(
    auth: Seq<(String, AuthEntry)>,
    id: Seq<char>,
    key: Seq<char>,
    entry: (String, AuthEntry),
    k: Seq<char>,
)
    requires
        entry.0@ == id,
        api_entry(entry.1, key),
    ensures
        stored_api_key(auth_without(auth, id).push(entry), id) == nonblank_trimmed(Some(key)),
        k != id ==> auth_lookup(auth_without(auth, id).push(entry), k) == auth_lookup(auth, k),
{
    lemma_auth_without(auth, id, id);
    lemma_auth_lookup_push(auth_without(auth, id), entry, id);
    lemma_auth_without(auth, id, k);
    lemma_auth_lookup_push(auth_without(auth, id), entry, k);
}


proof fn lemma_plain_package(t: Seq<char>)
    requires
        t.len() > 0,
        t[0] == '@',
        'a' <= t.last() <= 'z',
    ensures
        trim_spec(t) == t,
        nonblank_trimmed(Some(t)) == Some(t),
{
    lemma_trim_plain(t);
}

proof fn lemma_default_npm_plain(id: Seq<char>)
    ensures
        nonblank_trimmed(Some(default_npm_spec(id))) == Some(default_npm_spec(id)),
{
    reveal_strlit("@ai-sdk/openai");
    reveal_strlit("@ai-sdk/github-copilot");
    reveal_strlit("@ai-sdk/openai-compatible");
    reveal_strlit("@ai-sdk/anthropic");
    reveal_strlit("@ai-sdk/groq");
    reveal_strlit("@openrouter/ai-sdk-provider");
    lemma_plain_package(default_npm_spec(id));
}

/// What was written as a provider's settings is read back from its entry: the npm package
/// chosen, and the base URL given (trimmed), or no `baseURL` where none was given; every
/// other provider's entry stays as it was.
pub proof fn law_settings_read_back(
    before: JsonValue,
    after: JsonValue,
    id: Seq<char>,
    base_url: Option<Seq<char>>,
    provider_type: Option<Seq<char>>,
    k: Seq<char>,
)
    requires
        config_after_settings(before, after, id, base_url, provider_type),
    ensures
        configured_npm(after, id) == Some(selected_npm(id, provider_type)),
        nonblank_trimmed(base_url) matches Some(u) ==> configured_base_url(after, id) == Some(u),
        nonblank_trimmed(base_url) is None ==> field_of(field_of(provider_entry(after, id), "options"@), "baseURL"@) is None,
        k != id ==> provider_entry(after, k) == provider_entry(before, k),
{
    lemma_default_npm_plain(id);
    if let Some(t) = provider_type {
        lemma_trim_idempotent(t);
    }
    if let Some(u) = base_url {
        lemma_trim_idempotent(u);
    }
}


/// A lower-cased name with spaces and underscores turned into hyphens.
pub open spec fn hyphenated_spec(lower: Seq<char>) -> Seq<char> {
    replace_char_spec(replace_char_spec(lower, ' ', '-'), '_', '-')
}

/// The id a custom provider gets from its name: lower-cased, with spaces and underscores
/// turned into hyphens.
pub open spec fn custom_provider_key_spec(name: Seq<char>) -> Seq<char> {
    hyphenated_spec(unicode_lowercase(name))
}

/// A lower-cased name with spaces and underscores turned into hyphens.
pub fn hyphenated_provider_key(lower: &str) -> (r: String)
    ensures
        r@ == hyphenated_spec(lower@),
{
    let spaced = replace_char(lower, ' ', '-');
    replace_char(spaced.as_str(), '_', '-')
}

/// The id a custom provider gets from its name.
pub fn custom_provider_key(name: &str) -> (r: String)
    ensures
        r@ == custom_provider_key_spec(name@),
{
    let lower = to_lowercase(name);
    hyphenated_provider_key(lower.as_str())
}

/// Checks a new custom provider's name, API key and base URL, in that order, and gives the
/// id it will have.
pub fn validate_custom_provider(name: &str, api_key: &str, base_url: &str) -> (r: Result<String, String>)
    ensures
        r is Ok <==> (trim_spec(name@).len() > 0 && trim_spec(api_key@).len() > 0 && valid_base_url_spec(base_url@)),
        r matches Ok(k) ==> k@ == custom_provider_key_spec(name@),
        r matches Err(m) ==> m@ == (if trim_spec(name@).len() == 0 {
            "Provider 名称不能为空"@
        } else if trim_spec(api_key@).len() == 0 {
            api_key_empty_message()
        } else {
            base_url_message()
        }),
{
    if to_chars(trim(name).as_str()).len() == 0 {
        return Err(owned("Provider 名称不能为空"));
    }
    if to_chars(trim(api_key).as_str()).len() == 0 {
        return Err(owned("API Key 不能为空"));
    }
    if !is_valid_base_url(base_url) {
        return Err(owned("Base URL 必须以 http:// 或 https:// 开头"));
    }
    Ok(custom_provider_key(name))
}

/// The entry a custom provider is written with: the OpenAI-compatible package, the base
/// URL as given, and no models yet.
pub open spec fn custom_entry(e: JsonValue, base_url: Seq<char>) -> bool {
    &&& e is Object
    &&& text_of(e.field("npm"@)) == Some("@ai-sdk/openai-compatible"@)
    &&& match e.field("options"@) {
        Some(o) => {
            &&& o is Object
            &&& text_of(o.field("baseURL"@)) == Some(base_url)
            &&& forall|k: Seq<char>| k != "baseURL"@ ==> #[trigger] o.field(k) is None
        },
        None => false,
    }
    &&& e.field("models"@) matches Some(JsonValue::Object(ms)) && ms@.len() == 0
    &&& forall|k: Seq<char>| k != "npm"@ && k != "options"@ && k != "models"@ ==> #[trigger] e.field(k) is None
}

/// The configuration has room for a new provider entry.
pub open spec fn custom_provider_applicable(config: JsonValue) -> bool {
    &&& config.assignable()
    &&& (config.field("provider"@) matches Some(p) ==> p.assignable())
}

/// The configuration after a custom provider is written over `before`: only that provider's
/// entry changes, and it is replaced whole.
pub open spec fn config_with_custom_provider(before: JsonValue, after: JsonValue, key: Seq<char>, base_url: Seq<char>) -> bool {
    &&& after is Object
    &&& forall|k: Seq<char>| k != "provider"@ ==> #[trigger] after.field(k) == before.field(k)
    &&& match after.field("provider"@) {
        Some(p) => {
            &&& p is Object
            &&& forall|k: Seq<char>| k != key ==> #[trigger] p.field(k) == field_of(before.field("provider"@), k)
            &&& match p.field(key) {
                Some(e) => custom_entry(e, base_url),
                None => false,
            }
        },
        None => false,
    }
}

/// Whether the configuration has room for a new provider entry.
pub fn can_add_custom_provider(config: &JsonValue) -> (r: bool)
    ensures
        r == custom_provider_applicable(*config),
{
    config.is_assignable() && match config.get("provider") {
        Some(p) => p.is_assignable(),
        None => true,
    }
}

/// The configuration with a custom provider's entry written under `key`.
pub fn with_custom_provider(config: JsonValue, key: &str, base_url: &str) -> (r: JsonValue)
    requires
        custom_provider_applicable(config),
    ensures
        config_with_custom_provider(config, r, key@, base_url@),
{
    let empty_opts = JsonValue::Object(Vec::new());
    let options = empty_opts.with_field(owned("baseURL"), JsonValue::Str(owned(base_url)));
    let e0 = JsonValue::Object(Vec::new());
    let e1 = e0.with_field(owned("npm"), JsonValue::Str(owned("@ai-sdk/openai-compatible")));
    let e2 = e1.with_field(owned("options"), options);
    let e3 = e2.with_field(owned("models"), JsonValue::Object(Vec::new()));
    proof {
        reveal_strlit("npm");
        reveal_strlit("options");
        reveal_strlit("models");
        assert("npm"@.len() != "options"@.len() && "npm"@.len() != "models"@.len() && "options"@.len() != "models"@.len());
        assert(e3.field("npm"@) == e2.field("npm"@));
        assert(e2.field("npm"@) == e1.field("npm"@));
        assert(e3.field("options"@) == e2.field("options"@));
        assert forall|k: Seq<char>| k != "baseURL"@ implies #[trigger] options.field(k) is None by {
            assert(options.field(k) == empty_opts.field(k));
        }
        assert forall|k: Seq<char>| k != "npm"@ && k != "options"@ && k != "models"@ implies #[trigger] e3.field(k) is None by {
            assert(e3.field(k) == e2.field(k));
            assert(e2.field(k) == e1.field(k));
            assert(e1.field(k) == e0.field(k));
        }
        assert(custom_entry(e3, base_url@));
    }
    let (rest, providers) = config.take_field("provider");
    let p1 = providers.with_field(key.to_string(), e3);
    proof {
        assert forall|k: Seq<char>| k != key@ implies #[trigger] p1.field(k) == field_of(config.field("provider"@), k) by {
            assert(p1.field(k) == providers.field(k));
        }
    }
    let c1 = rest.with_field(owned("provider"), p1);
    proof {
        assert forall|k: Seq<char>| k != "provider"@ implies #[trigger] c1.field(k) == config.field(k) by {
            assert(c1.field(k) == rest.field(k));
        }
    }
    c1
}

/// What the provider list shows of a custom provider just added.
pub fn custom_provider_info(key: String, name: String, base_url: String) -> (r: ProviderInfo)
    ensures
        r.deep_view() == (ProviderInfoView {
            id: key@,
            name: name@,
            npm: Some("@ai-sdk/openai-compatible"@),
            website_url: Some(base_url@),
            is_configured: true,
            is_builtin: false,
            supports_base_url: true,
            supports_connection_test: true,
            can_delete_auth: true,
        }),
{
    ProviderInfo {
        id: key,
        name,
        npm: Some(owned("@ai-sdk/openai-compatible")),
        website_url: Some(base_url),
        is_configured: true,
        is_builtin: false,
        supports_base_url: true,
        supports_connection_test: true,
        can_delete_auth: true,
    }
}

/// A custom provider, once written, reads back as a user-defined entry with its base URL
/// and the OpenAI-compatible package: it is not built in unless the built-in set names it,
/// and every other provider's entry stays as it was.
pub proof fn law_custom_provider_reads_back(
    before: JsonValue,
    after: JsonValue,
    key: Seq<char>,
    base_url: Seq<char>,
    builtin: Seq<Seq<char>>,
    k: Seq<char>,
)
    requires
        config_with_custom_provider(before, after, key, base_url),
    ensures
        custom_shape_spec(after, key),
        is_builtin_spec(key, after, builtin) == builtin.contains(key),
        configured_base_url(after, key) == nonblank_trimmed(Some(base_url)),
        configured_npm(after, key) == Some("@ai-sdk/openai-compatible"@),
        k != key ==> provider_entry(after, k) == provider_entry(before, k),
{
    reveal_strlit("@ai-sdk/openai-compatible");
    lemma_plain_package("@ai-sdk/openai-compatible"@);
    reveal_strlit("baseURL");
    reveal_strlit("baseUrl");
    let e = provider_entry(after, key)->Some_0;
    let o = e.field("options"@)->Some_0;
    assert(base_url_member(Some(o)) == o.field("baseURL"@));
}


/// The web domain whose logo stands for a provider.
pub open spec fn provider_domains() -> Seq<(Seq<char>, Seq<char>)> {
    seq![
        ("anthropic"@, "anthropic.com"@),
        ("openai"@, "openai.com"@),
        ("google"@, "google.com"@),
        ("groq"@, "groq.com"@),
        ("openrouter"@, "openrouter.ai"@),
        ("mistral"@, "mistral.ai"@),
        ("cohere"@, "cohere.com"@),
        ("deepseek"@, "deepseek.com"@),
        ("xai"@, "x.ai"@),
        ("cerebras"@, "cerebras.ai"@),
        ("perplexity"@, "perplexity.ai"@),
        ("togetherai"@, "together.xyz"@),
        ("deepinfra"@, "deepinfra.com"@),
        ("azure"@, "azure.microsoft.com"@),
        ("amazon-bedrock"@, "aws.amazon.com"@),
        ("github-copilot"@, "github.com"@),
        ("vercel"@, "vercel.com"@),
        ("gitlab"@, "gitlab.com"@),
        ("aicodewith"@, "aicodewith.com"@),
        ("kimi-for-coding"@, "moonshot.cn"@),
        ("zhipuai"@, "bigmodel.cn"@),
        ("zhipuai-coding-plan"@, "bigmodel.cn"@),
        ("moonshotai"@, "moonshot.cn"@),
        ("moonshotai-cn"@, "moonshot.cn"@),
        ("opencode"@, "opencode.ai"@),
    ]
}

/// The domain of the first entry of `t` for a provider id.
pub open spec fn first_domain(t: Seq<(Seq<char>, Seq<char>)>, id: Seq<char>) -> Option<Seq<char>>
    decreases t.len(),
{
    if t.len() == 0 {
        None
    } else if t[0].0 == id {
        Some(t[0].1)
    } else {
        first_domain(t.drop_first(), id)
    }
}

/// The domain whose logo stands for a provider, where the table has one.
pub fn provider_icon_domain(provider_id: &str) -> (r: Option<&'static str>)
    ensures
        match r {
            Some(d) => first_domain(provider_domains(), provider_id@) == Some(d@),
            None => first_domain(provider_domains(), provider_id@) is None,
        },
{
    let table: Vec<(&'static str, &'static str)> = vec![
        ("anthropic", "anthropic.com"),
        ("openai", "openai.com"),
        ("google", "google.com"),
        ("groq", "groq.com"),
        ("openrouter", "openrouter.ai"),
        ("mistral", "mistral.ai"),
        ("cohere", "cohere.com"),
        ("deepseek", "deepseek.com"),
        ("xai", "x.ai"),
        ("cerebras", "cerebras.ai"),
        ("perplexity", "perplexity.ai"),
        ("togetherai", "together.xyz"),
        ("deepinfra", "deepinfra.com"),
        ("azure", "azure.microsoft.com"),
        ("amazon-bedrock", "aws.amazon.com"),
        ("github-copilot", "github.com"),
        ("vercel", "vercel.com"),
        ("gitlab", "gitlab.com"),
        ("aicodewith", "aicodewith.com"),
        ("kimi-for-coding", "moonshot.cn"),
        ("zhipuai", "bigmodel.cn"),
        ("zhipuai-coding-plan", "bigmodel.cn"),
        ("moonshotai", "moonshot.cn"),
        ("moonshotai-cn", "moonshot.cn"),
        ("opencode", "opencode.ai"),
    ];
    let ghost want = provider_domains();
    assert(table@.len() == want.len());
    assert forall|j: int| 0 <= j < want.len() implies #[trigger] table@[j].0@ == want[j].0 && table@[j].1@ == want[j].1 by {}
    let mut i: usize = 0;
    assert(want.skip(0) == want);
    while i < table.len()
        invariant
            i <= table.len(),
            table@.len() == want.len(),
            want == provider_domains(),
            forall|j: int| 0 <= j < want.len() ==> #[trigger] table@[j].0@ == want[j].0 && table@[j].1@ == want[j].1,
            first_domain(want, provider_id@) == first_domain(want.skip(i as int), provider_id@),
        decreases table.len() - i,
    {
        proof {
            assert(want.skip(i as int)[0] == want[i as int]);
            assert(want.skip(i as int).drop_first() == want.skip(i + 1));
        }
        if str_eq(table[i].0, provider_id) {
            return Some(table[i].1);
        }
        i = i + 1;
    }
    None
}

/// Where a provider's logo is fetched from, where the table names its domain.
pub fn provider_icon_url(provider_id: &str) -> (r: Option<String>)
    ensures
        match first_domain(provider_domains(), provider_id@) {
            Some(d) => r matches Some(u) && u@ == "https://logo.clearbit.com/"@ + d + "?size=64"@,
            None => r is None,
        },
{
    match provider_icon_domain(provider_id) {
        Some(d) => {
            let a = concat("https://logo.clearbit.com/", d);
            Some(concat(a.as_str(), "?size=64"))
        },
        None => None,
    }
}


/// Every provider known from the model cache, the catalog, the bundled presets, the
/// connected list, the stored credentials or the configuration's `provider` object is
/// listed, and none twice.
pub proof fn law_status_lists_every_known_provider_once(
    model_ids: Seq<Seq<char>>,
    catalog: Seq<Seq<char>>,
    connected: Seq<Seq<char>>,
    auth_ids: Seq<Seq<char>>,
    config: JsonValue,
    presets: Seq<ProviderPreset>,
    id: Seq<char>,
)
    ensures
        status_ids(model_ids, catalog, connected, auth_ids, config, presets).no_duplicates(),
        status_ids(model_ids, catalog, connected, auth_ids, config, presets).contains(id) <==> (model_ids.contains(id)
            || catalog.contains(id) || preset_ids(presets).contains(id) || connected.contains(id) || auth_ids.contains(
            id,
        ) || provider_entry(config, id) is Some),
{
    let keys = config_provider_keys(config);
    let b = builtin_ids_spec(catalog, presets);
    let all = b + model_ids + connected + auth_ids + unique(keys);
    crate::paths::lemma_dedup_no_duplicates(all);
    crate::paths::lemma_dedup_contains(all, id);
    crate::paths::lemma_dedup_contains(keys, id);
    crate::paths::lemma_dedup_contains(preset_ids(presets) + catalog, id);
    lemma_seq_concat_contains(preset_ids(presets), catalog, id);
    lemma_seq_concat_contains(b, model_ids, id);
    lemma_seq_concat_contains(b + model_ids, connected, id);
    lemma_seq_concat_contains(b + model_ids + connected, auth_ids, id);
    lemma_seq_concat_contains(b + model_ids + connected + auth_ids, unique(keys), id);
    match config.field("provider"@) {
        Some(JsonValue::Object(es)) => {
            lemma_lookup_some_iff(es@, id);
        },
        _ => {},
    }
}

proof fn lemma_seq_concat_contains(a: Seq<Seq<char>>, b: Seq<Seq<char>>, x: Seq<char>)
    ensures
        (a + b).contains(x) <==> (a.contains(x) || b.contains(x)),
{
    if a.contains(x) {
        let i = choose|i: int| 0 <= i < a.len() && a[i] == x;
        assert((a + b)[i] == x);
    }
    if b.contains(x) {
        let i = choose|i: int| 0 <= i < b.len() && b[i] == x;
        assert((a + b)[a.len() + i] == x);
    }
    if (a + b).contains(x) {
        let i = choose|i: int| 0 <= i < (a + b).len() && (a + b)[i] == x;
        if i < a.len() {
            assert(a[i] == x);
        } else {
            assert(b[i - a.len()] == x);
        }
    }
}

/// A provider in the built-in set is built in; one that the configuration does not define
/// is built in (known from caches or credentials); one the configuration defines with a
/// custom shape and the built-in set lacks is custom.
pub proof fn law_builtin_classification(id: Seq<char>, config: JsonValue, builtin: Seq<Seq<char>>)
    ensures
        builtin.contains(id) ==> is_builtin_spec(id, config, builtin),
        provider_entry(config, id) is None ==> is_builtin_spec(id, config, builtin),
        (provider_entry(config, id) is Some && !builtin.contains(id) && custom_shape_spec(config, id)) ==> !is_builtin_spec(
            id,
            config,
            builtin,
        ),
{
}


/// A cached model entry that OpenCode serves through the OpenAI-compatible package, as
/// user-defined providers do.
pub open spec fn is_compatible_alias(m: JsonValue) -> bool {
    text_of(field_of(m.field("api"@), "npm"@)) == Some("@ai-sdk/openai-compatible"@)
}

/// A provider's cached model list names some model that is not an OpenAI-compatible alias.
pub open spec fn lists_catalog_model(v: JsonValue) -> bool {
    match v {
        JsonValue::Array(items) => exists|i: int| 0 <= i < items@.len() && !is_compatible_alias(#[trigger] items@[i]),
        _ => false,
    }
}

/// The keys of the members whose model list names a catalog model, in order.
pub open spec fn catalog_keys(es: Seq<(String, JsonValue)>) -> Seq<Seq<char>>
    decreases es.len(),
{
    if es.len() == 0 {
        Seq::empty()
    } else if lists_catalog_model(es.last().1) {
        catalog_keys(es.drop_last()).push(es.last().0@)
    } else {
        catalog_keys(es.drop_last())
    }
}

/// The providers of OpenCode's catalog in a provider-model cache document: those under
/// `models` whose list names a model that is not an OpenAI-compatible alias, each once.
pub open spec fn catalog_ids_spec(doc: JsonValue) -> Seq<Seq<char>> {
    match doc.field("models"@) {
        Some(JsonValue::Object(es)) => unique(catalog_keys(es@)),
        _ => Seq::empty(),
    }
}

/// The providers under `models` in a provider-model cache document, each once.
pub open spec fn cached_provider_ids_spec(doc: JsonValue) -> Seq<Seq<char>> {
    match doc.field("models"@) {
        Some(JsonValue::Object(es)) => unique(keys_of(es@)),
        _ => Seq::empty(),
    }
}

fn is_alias_exec(m: &JsonValue) -> (r: bool)
    ensures
        r == is_compatible_alias(*m),
{
    match m.get("api") {
        Some(api) => match api.get("npm") {
            Some(npm) => match npm.as_str() {
                Some(t) => str_eq(t, "@ai-sdk/openai-compatible"),
                None => false,
            },
            None => false,
        },
        None => false,
    }
}

fn lists_catalog_exec(v: &JsonValue) -> (r: bool)
    ensures
        r == lists_catalog_model(*v),
{
    match v {
        JsonValue::Array(items) => {
            let mut i: usize = 0;
            while i < items.len()
                invariant
                    i <= items.len(),
                    *v == JsonValue::Array(*items),
                    forall|j: int| 0 <= j < i ==> is_compatible_alias(#[trigger] items@[j]),
                decreases items.len() - i,
            {
                if !is_alias_exec(&items[i]) {
                    proof {
                        let w = v->Array_0;
                        assert(w@[i as int] == items@[i as int]);
                        assert(!is_compatible_alias(w@[i as int]));
                    }
                    return true;
                }
                i = i + 1;
            }
            false
        },
        _ => false,
    }
}

/// The providers of OpenCode's catalog in a provider-model cache document.
pub fn catalog_provider_ids(doc: &JsonValue) -> (r: Vec<String>)
    ensures
        r.deep_view() == catalog_ids_spec(*doc),
{
    let es = match doc.get("models") {
        Some(JsonValue::Object(es)) => es,
        _ => return Vec::new(),
    };
    let mut raw: Vec<String> = Vec::new();
    let mut i: usize = 0;
    while i < es.len()
        invariant
            i <= es.len(),
            raw.deep_view() == catalog_keys(es@.take(i as int)),
        decreases es.len() - i,
    {
        let ghost before = raw.deep_view();
        proof {
            assert(es@.take(i + 1).drop_last() == es@.take(i as int));
            assert(es@.take(i + 1).last() == es@[i as int]);
        }
        if lists_catalog_exec(&es[i].1) {
            raw.push(owned(es[i].0.as_str()));
            assert(raw.deep_view() =~= before.push(es@[i as int].0@));
        }
        i = i + 1;
    }
    assert(es@.take(es.len() as int) == es@);
    dedup_paths(raw)
}

/// The providers under `models` in a provider-model cache document.
pub fn cached_provider_ids(doc: &JsonValue) -> (r: Vec<String>)
    ensures
        r.deep_view() == cached_provider_ids_spec(*doc),
{
    match doc.get("models") {
        Some(JsonValue::Object(es)) => dedup_paths(member_keys(es)),
        _ => Vec::new(),
    }
}


/// Where the icon of a provider is cached: `<id>.png` under `provider-icons` in the OMO
/// cache directory.
pub fn get_provider_icon_cache_path(env: &Env, provider_id: &str) -> (r: Result<String, String>)
    ensures
        path_outcome(
            r,
            under(env.windows, under(env.windows, under(env.windows, cache_home_spec(*env), "oh-my-opencode"@), "provider-icons"@), provider_id@ + ".png"@),
        ),
{
    let file = concat(provider_id, ".png");
    join_result(env.windows, join_result(env.windows, omo_cache_dir(env), "provider-icons"), file.as_str())
}

/// The strings among the items, in order.
pub open spec fn texts_of(items: Seq<JsonValue>) -> Seq<Seq<char>>
    decreases items.len(),
{
    if items.len() == 0 {
        Seq::empty()
    } else {
        match items.last() {
            JsonValue::Str(s) => texts_of(items.drop_last()).push(s@),
            _ => texts_of(items.drop_last()),
        }
    }
}

/// The providers listed under `connected` in OpenCode's connected-providers document.
pub fn connected_provider_ids(doc: &JsonValue) -> (r: Vec<String>)
    ensures
        r.deep_view() == match doc.field("connected"@) {
            Some(JsonValue::Array(items)) => texts_of(items@),
            _ => Seq::empty(),
        },
{
    let items = match doc.get("connected") {
        Some(JsonValue::Array(items)) => items,
        _ => return Vec::new(),
    };
    let mut r: Vec<String> = Vec::new();
    let mut i: usize = 0;
    while i < items.len()
        invariant
            i <= items.len(),
            r.deep_view() == texts_of(items@.take(i as int)),
        decreases items.len() - i,
    {
        let ghost before = r.deep_view();
        proof {
            assert(items@.take(i + 1).drop_last() == items@.take(i as int));
            assert(items@.take(i + 1).last() == items@[i as int]);
        }
        if let Some(t) = items[i].as_str() {
            r.push(owned(t));
            assert(r.deep_view() =~= before.push(t@));
        }
        i = i + 1;
    }
    assert(items@.take(items.len() as int) == items@);
    r
}


/// The default npm package of each provider id, as a table: every OpenAI-compatible provider
/// (Zhipu, Moonshot, Kimi and MiniMax, with their plans and regional variants) uses
/// `@ai-sdk/openai-compatible`; OpenAI and xAI use `@ai-sdk/openai`; GitHub Copilot, DeepSeek,
/// Groq and OpenRouter each have their own package; any other id uses `@ai-sdk/openai`.
pub proof fn law_default_npm_table(id: Seq<char>)
    ensures
        id == "zhipuai"@ || id == "zhipuai-coding-plan"@ || id == "moonshotai"@ || id == "moonshotai-cn"@ || id == "kimi-for-coding"@ || id == "minimax"@ || id == "minimax-cn"@ || id == "minimax-coding-plan"@ || id == "minimax-cn-coding-plan"@ ==> default_npm_spec(id) == "@ai-sdk/openai-compatible"@,
        id == "openai"@ || id == "xai"@ ==> default_npm_spec(id) == "@ai-sdk/openai"@,
        id == "github-copilot"@ ==> default_npm_spec(id) == "@ai-sdk/github-copilot"@,
        id == "deepseek"@ ==> default_npm_spec(id) == "@ai-sdk/anthropic"@,
        id == "groq"@ ==> default_npm_spec(id) == "@ai-sdk/groq"@,
        id == "openrouter"@ ==> default_npm_spec(id) == "@openrouter/ai-sdk-provider"@,
        id != "openai"@ && id != "github-copilot"@ && id != "zhipuai"@ && id != "zhipuai-coding-plan"@ && id != "moonshotai"@ && id != "moonshotai-cn"@ && id != "kimi-for-coding"@ && id != "minimax"@ && id != "minimax-cn"@ && id != "minimax-coding-plan"@ && id != "minimax-cn-coding-plan"@ && id != "deepseek"@ && id != "xai"@ && id != "groq"@ && id != "openrouter"@ ==> default_npm_spec(id) == "@ai-sdk/openai"@,
{
    reveal_strlit("openai");
    reveal_strlit("github-copilot");
    reveal_strlit("zhipuai");
    reveal_strlit("zhipuai-coding-plan");
    reveal_strlit("moonshotai");
    reveal_strlit("moonshotai-cn");
    reveal_strlit("kimi-for-coding");
    reveal_strlit("minimax");
    reveal_strlit("minimax-cn");
    reveal_strlit("minimax-coding-plan");
    reveal_strlit("minimax-cn-coding-plan");
    reveal_strlit("deepseek");
    reveal_strlit("xai");
    reveal_strlit("groq");
    reveal_strlit("openrouter");
    reveal_strlit("@ai-sdk/openai");
    reveal_strlit("@ai-sdk/github-copilot");
    reveal_strlit("@ai-sdk/openai-compatible");
    reveal_strlit("@ai-sdk/anthropic");
    reveal_strlit("@ai-sdk/groq");
    reveal_strlit("@openrouter/ai-sdk-provider");
    assert("openai"@.len() == 6);
    assert("github-copilot"@.len() == 14);
    assert("zhipuai"@.len() == 7);
    assert("zhipuai-coding-plan"@.len() == 19);
    assert("moonshotai"@.len() == 10);
    assert("moonshotai-cn"@.len() == 13);
    assert("kimi-for-coding"@.len() == 15);
    assert("minimax"@.len() == 7);
    assert("minimax-cn"@.len() == 10);
    assert("minimax-coding-plan"@.len() == 19);
    assert("minimax-cn-coding-plan"@.len() == 22);
    assert("deepseek"@.len() == 8);
    assert("xai"@.len() == 3);
    assert("groq"@.len() == 4);
    assert("openrouter"@.len() == 10);
    assert("openrouter"@[0] != "moonshotai"@[0] && "openrouter"@[0] != "minimax-cn"@[0]);
}

/// A connection check with a blank API key fails with the API key message, whatever else
/// is given.
pub proof fn law_connection_check_needs_api_key(npm: Seq<char>, base_url: Option<Seq<char>>, api_key: Seq<char>)
    requires
        trim_spec(api_key).len() == 0,
    ensures
        connection_check_spec(npm, base_url, api_key) == (false, "API Key 不能为空"@),
{
}

/// With a non-blank API key and a base URL that is absent, blank or has an HTTP scheme, the
/// connection check passes for every npm package whose trimmed name is blank or begins with
/// `@`, whatever its scope, and fails with the npm message for every other.
pub proof fn law_connection_check_npm_scope(npm: Seq<char>, base_url: Option<Seq<char>>, api_key: Seq<char>)
    requires
        trim_spec(api_key).len() > 0,
        base_url matches Some(u) ==> trim_spec(u).len() == 0 || valid_base_url_spec(trim_spec(u)),
    ensures
        trim_spec(npm).len() == 0 || trim_spec(npm)[0] == '@' ==> connection_check_spec(npm, base_url, api_key) == (
            true,
            "配置校验通过"@,
        ),
        trim_spec(npm).len() > 0 && trim_spec(npm)[0] != '@' ==> connection_check_spec(npm, base_url, api_key) == (
            false,
            "Provider npm 标识格式无效"@,
        ),
{
    reveal_strlit("@");
    let n = trim_spec(npm);
    if n.len() > 0 {
        if n[0] == '@' {
            assert(n.subrange(0, 1) =~= "@"@);
        } else {
            assert(n.subrange(0, 1)[0] != "@"@[0]);
        }
    }
}

} // verus!
