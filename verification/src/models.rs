//! Models of custom providers: the `models` object under a provider's entry in the
//! OpenCode configuration, and the token limits stored with a model.
use vstd::prelude::*;

use crate::json::{JsonNumber, JsonValue};
use crate::providers::field_of;
use crate::text::{concat, owned, to_chars, trim, trim_spec};

verus! {

/// Token limits of a model.
#[derive(Clone, Copy, Debug, PartialEq, Eq)]
pub struct ModelLimit {
    pub context: u64,
    pub input: Option<u64>,
    pub output: u64,
}

/// What is stored with a custom model besides its id.
#[derive(Clone, Copy, Debug, PartialEq, Eq)]
pub struct CustomModelMetadata {
    pub limit: Option<ModelLimit>,
}

/// The message for a limit that is zero where it must be positive.
pub open spec fn limit_problem(limit: ModelLimit) -> Option<Seq<char>> {
    if limit.context == 0 {
        Some("context 必须是大于 0 的整数"@)
    } else if limit.input == Some(0u64) {
        Some("input 必须是大于 0 的整数"@)
    } else if limit.output == 0 {
        Some("output 必须是大于 0 的整数"@)
    } else {
        None
    }
}

/// Checks that every limit given is positive.
pub fn validate_model_limit(limit: &ModelLimit) -> (r: Result<(), String>)
    ensures
        r is Ok <==> limit_problem(*limit) is None,
        r matches Err(m) ==> Some(m@) == limit_problem(*limit),
{
    if limit.context == 0 {
        return Err(owned("context 必须是大于 0 的整数"));
    }
    if let Some(0) = limit.input {
        return Err(owned("input 必须是大于 0 的整数"));
    }
    if limit.output == 0 {
        return Err(owned("output 必须是大于 0 的整数"));
    }
    Ok(())
}

/// The message for a configuration without a `provider` object.
pub open spec fn no_providers_message() -> Seq<char> {
    "配置文件中不存在 provider 字段"@
}

/// The message for a provider missing from the configuration.
pub open spec fn provider_missing_message(pid: Seq<char>) -> Seq<char> {
    "供应商 "@ + pid + " 不存在"@
}

/// The message for a provider without a `models` object.
pub open spec fn no_models_message(pid: Seq<char>) -> Seq<char> {
    "供应商 "@ + pid + " 没有配置任何模型"@
}

/// The message for a model missing from a provider.
pub open spec fn model_missing_message(mid: Seq<char>, pid: Seq<char>) -> Seq<char> {
    "模型 "@ + mid + " 在供应商 "@ + pid + " 中不存在"@
}

/// The message for a model whose entry is no object.
pub open spec fn model_malformed_message(mid: Seq<char>, pid: Seq<char>) -> Seq<char> {
    "模型 "@ + mid + " 在供应商 "@ + pid + " 中的配置格式错误"@
}

/// The message for a provider whose entry is no object.
pub open spec fn provider_malformed_message(pid: Seq<char>) -> Seq<char> {
    "供应商 "@ + pid + " 配置格式错误"@
}

/// The entry of model `mid` of provider `pid`, or the message for the first step of the
/// way that is missing or malformed.
pub open spec fn model_entry(config: JsonValue, pid: Seq<char>, mid: Seq<char>) -> Result<JsonValue, Seq<char>> {
    match config.field("provider"@) {
        Some(ps) => if ps is Object {
            match ps.field(pid) {
                Some(p) => match p.field("models"@) {
                    Some(ms) => if ms is Object {
                        match ms.field(mid) {
                            Some(m) => if m is Object {
                                Ok(m)
                            } else {
                                Err(model_malformed_message(mid, pid))
                            },
                            None => Err(model_missing_message(mid, pid)),
                        }
                    } else {
                        Err(no_models_message(pid))
                    },
                    None => Err(no_models_message(pid)),
                },
                None => Err(provider_missing_message(pid)),
            }
        } else {
            Err(no_providers_message())
        },
        None => Err(no_providers_message()),
    }
}

fn message2(a: &str, x: &str, b: &str) -> (r: String)
    ensures
        r@ == a@ + x@ + b@,
{
    let ax = concat(a, x);
    concat(ax.as_str(), b)
}

fn message4(a: &str, x: &str, b: &str, y: &str, c: &str) -> (r: String)
    ensures
        r@ == a@ + x@ + b@ + y@ + c@,
{
    let axb = message2(a, x, b);
    let axby = concat(axb.as_str(), y);
    concat(axby.as_str(), c)
}

/// The entry of model `model_id` of provider `provider_id`.
pub fn custom_model_config<'a>(config: &'a JsonValue, provider_id: &str, model_id: &str) -> (r: Result<
    &'a JsonValue,
    String,
>)
    ensures
        match model_entry(*config, provider_id@, model_id@) {
            Ok(m) => r matches Ok(v) && *v == m,
            Err(msg) => r matches Err(e) && e@ == msg,
        },
{
    let providers = match config.get("provider") {
        Some(p) => p,
        None => return Err(owned("配置文件中不存在 provider 字段")),
    };
    if !providers.is_object() {
        return Err(owned("配置文件中不存在 provider 字段"));
    }
    let provider = match providers.get(provider_id) {
        Some(p) => p,
        None => return Err(message2("供应商 ", provider_id, " 不存在")),
    };
    let models = match provider.get("models") {
        Some(m) => m,
        None => return Err(message2("供应商 ", provider_id, " 没有配置任何模型")),
    };
    if !models.is_object() {
        return Err(message2("供应商 ", provider_id, " 没有配置任何模型"));
    }
    let model = match models.get(model_id) {
        Some(m) => m,
        None => return Err(message4("模型 ", model_id, " 在供应商 ", provider_id, " 中不存在")),
    };
    if !model.is_object() {
        return Err(message4("模型 ", model_id, " 在供应商 ", provider_id, " 中的配置格式错误"));
    }
    Ok(model)
}

/// The `limit` value stored with a custom model, where it has one.
pub fn custom_model_limit_value(config: JsonValue, provider_id: &str, model_id: &str) -> (r: Result<
    Option<JsonValue>,
    String,
>)
    ensures
        match model_entry(config, provider_id@, model_id@) {
            Ok(m) => r == Ok::<Option<JsonValue>, String>(m.field("limit"@)),
            Err(msg) => r matches Err(e) && e@ == msg,
        },
{
    if let Err(e) = custom_model_config(&config, provider_id, model_id) {
        return Err(e);
    }
    let (_, providers) = config.take_field("provider");
    let (_, provider) = providers.take_field(provider_id);
    let (_, models) = provider.take_field("models");
    let (_, model) = models.take_field(model_id);
    let (_, limit) = model.without_field("limit");
    Ok(limit)
}

/// The JSON form of a limit: `context`, `input` where there is one, and `output`.
pub open spec fn is_limit_json(v: JsonValue, limit: ModelLimit) -> bool {
    &&& v is Object
    &&& v.field("context"@) == Some(JsonValue::Number(JsonNumber::PosInt(limit.context)))
    &&& v.field("input"@) == match limit.input {
        Some(n) => Some(JsonValue::Number(JsonNumber::PosInt(n))),
        None => None,
    }
    &&& v.field("output"@) == Some(JsonValue::Number(JsonNumber::PosInt(limit.output)))
    &&& forall|k: Seq<char>| k != "context"@ && k != "input"@ && k != "output"@ ==> #[trigger] v.field(k) is None
}

/// The JSON form of a limit.
pub fn limit_json(limit: &ModelLimit) -> (r: JsonValue)
    ensures
        is_limit_json(r, *limit),
{
    proof {
        reveal_strlit("context");
        reveal_strlit("input");
        reveal_strlit("output");
        assert("context"@.len() != "input"@.len() && "context"@.len() != "output"@.len());
        assert("input"@[0] != "output"@[0]);
    }
    let e0 = JsonValue::Object(Vec::new());
    let e1 = e0.with_field(owned("context"), JsonValue::Number(JsonNumber::PosInt(limit.context)));
    let e2 = match limit.input {
        Some(n) => e1.with_field(owned("input"), JsonValue::Number(JsonNumber::PosInt(n))),
        None => e1,
    };
    let e3 = e2.with_field(owned("output"), JsonValue::Number(JsonNumber::PosInt(limit.output)));
    proof {
        assert(e3.field("context"@) == e2.field("context"@));
        assert(e2.field("context"@) == e1.field("context"@));
        assert(e3.field("input"@) == e2.field("input"@));
        assert forall|k: Seq<char>| k != "context"@ && k != "input"@ && k != "output"@ implies #[trigger] e3.field(k) is None by {
            assert(e3.field(k) == e2.field(k));
            assert(e2.field(k) == e1.field(k));
            assert(e1.field(k) == e0.field(k));
        }
    }
    e3
}

/// The configuration keeps everything but the entry of model `mid` of provider `pid`.
pub open spec fn others_kept(before: JsonValue, after: JsonValue, pid: Seq<char>, mid: Seq<char>) -> bool {
    &&& after is Object
    &&& forall|k: Seq<char>| k != "provider"@ ==> #[trigger] after.field(k) == before.field(k)
    &&& match after.field("provider"@) {
        Some(ps) => {
            &&& ps is Object
            &&& forall|k: Seq<char>| k != pid ==> #[trigger] ps.field(k) == field_of(before.field("provider"@), k)
            &&& match ps.field(pid) {
                Some(p) => {
                    &&& p is Object
                    &&& forall|k: Seq<char>| k != "models"@ ==> #[trigger] p.field(k) == field_of(
                        field_of(before.field("provider"@), pid),
                        k,
                    )
                    &&& match p.field("models"@) {
                        Some(ms) => {
                            &&& ms is Object
                            &&& forall|k: Seq<char>| k != mid ==> #[trigger] ms.field(k) == field_of(
                                field_of(field_of(before.field("provider"@), pid), "models"@),
                                k,
                            )
                        },
                        None => false,
                    }
                },
                None => false,
            }
        },
        None => false,
    }
}

/// A model's entry with its `limit` set and every other member kept.
pub open spec fn limit_set(m: JsonValue, m2: JsonValue, limit: ModelLimit) -> bool {
    &&& m2 is Object
    &&& m2.field("limit"@) matches Some(l) && is_limit_json(l, limit)
    &&& forall|k: Seq<char>| k != "limit"@ ==> #[trigger] m2.field(k) == m.field(k)
}

/// The configuration with a custom model's `limit` set, every other member kept; the
/// message for a missing or malformed step of the way to the model.
pub fn with_model_limit(config: JsonValue, provider_id: &str, model_id: &str, limit: &ModelLimit) -> (r: Result<
    JsonValue,
    String,
>)
    ensures
        match model_entry(config, provider_id@, model_id@) {
            Ok(m) => r matches Ok(c) && others_kept(config, c, provider_id@, model_id@) && (model_entry(
                c,
                provider_id@,
                model_id@,
            ) matches Ok(m2) && limit_set(m, m2, *limit)),
            Err(msg) => r matches Err(e) && e@ == msg,
        },
{
    if let Err(e) = custom_model_config(&config, provider_id, model_id) {
        return Err(e);
    }
    let ghost c0 = config;
    let (rest, providers) = config.take_field("provider");
    let (prest, provider) = providers.take_field(provider_id);
    let (mrest, models) = provider.take_field("models");
    let (msrest, model) = models.take_field(model_id);
    let ghost m = model;
    let m2 = model.with_field(owned("limit"), limit_json(limit));
    let ms1 = msrest.with_field(model_id.to_string(), m2);
    proof {
        assert forall|k: Seq<char>| k != model_id@ implies #[trigger] ms1.field(k) == field_of(
            field_of(field_of(c0.field("provider"@), provider_id@), "models"@),
            k,
        ) by {
            assert(ms1.field(k) == msrest.field(k));
        }
    }
    let p1 = mrest.with_field(owned("models"), ms1);
    proof {
        assert forall|k: Seq<char>| k != "models"@ implies #[trigger] p1.field(k) == field_of(
            field_of(c0.field("provider"@), provider_id@),
            k,
        ) by {
            assert(p1.field(k) == mrest.field(k));
        }
    }
    let ps1 = prest.with_field(provider_id.to_string(), p1);
    proof {
        assert forall|k: Seq<char>| k != provider_id@ implies #[trigger] ps1.field(k) == field_of(c0.field("provider"@), k) by {
            assert(ps1.field(k) == prest.field(k));
        }
    }
    let c1 = rest.with_field(owned("provider"), ps1);
    proof {
        assert forall|k: Seq<char>| k != "provider"@ implies #[trigger] c1.field(k) == c0.field(k) by {
            assert(c1.field(k) == rest.field(k));
        }
    }
    Ok(c1)
}

/// Trims a provider id and a model id, neither of which may be blank.
pub fn check_model_ids(provider_id: &str, model_id: &str) -> (r: Result<(String, String), String>)
    ensures
        match r {
            Ok((p, m)) => p@ == trim_spec(provider_id@) && m@ == trim_spec(model_id@) && p@.len() > 0 && m@.len() > 0,
            Err(e) => (trim_spec(provider_id@).len() == 0 && e@ == "供应商 ID 不能为空"@) || (trim_spec(
                provider_id@,
            ).len() > 0 && trim_spec(model_id@).len() == 0 && e@ == "模型 ID 不能为空"@),
        },
        r is Ok <==> (trim_spec(provider_id@).len() > 0 && trim_spec(model_id@).len() > 0),
{
    let p = trim(provider_id);
    if to_chars(p.as_str()).len() == 0 {
        return Err(owned("供应商 ID 不能为空"));
    }
    let m = trim(model_id);
    if to_chars(m.as_str()).len() == 0 {
        return Err(owned("模型 ID 不能为空"));
    }
    Ok((p, m))
}

/// The `models` value of a provider's entry.
pub open spec fn models_of(config: JsonValue, pid: Seq<char>) -> Option<JsonValue> {
    field_of(field_of(config.field("provider"@), pid), "models"@)
}

/// The provider has a `models` object in an object entry under a `provider` object.
pub open spec fn has_models(config: JsonValue, pid: Seq<char>) -> bool {
    &&& config.field("provider"@) matches Some(ps) && ps is Object
    &&& field_of(config.field("provider"@), pid) matches Some(p) && p is Object
    &&& models_of(config, pid) matches Some(ms) && ms is Object
}

/// Why a model cannot be added to a provider, if it cannot.
pub open spec fn add_model_problem(config: JsonValue, pid: Seq<char>) -> Option<Seq<char>> {
    match config.field("provider"@) {
        Some(ps) => if ps is Object {
            match ps.field(pid) {
                Some(p) => if p is Object {
                    match p.field("models"@) {
                        Some(ms) => if ms is Object {
                            None
                        } else {
                            Some("models 字段格式错误"@)
                        },
                        None => None,
                    }
                } else {
                    Some(provider_malformed_message(pid))
                },
                None => Some(provider_missing_message(pid)),
            }
        } else {
            Some(no_providers_message())
        },
        None => Some(no_providers_message()),
    }
}

/// A model's entry once it is listed: the entry it had, or else an empty object.
pub open spec fn model_listed(before: Option<JsonValue>, after: Option<JsonValue>) -> bool {
    match before {
        Some(m) => after == Some(m),
        None => after matches Some(JsonValue::Object(es)) && es@.len() == 0,
    }
}

/// The configuration with model `model_id` listed under provider `provider_id` (a `models`
/// object made where there is none); a model already listed keeps its entry.
pub fn with_custom_model(config: JsonValue, provider_id: &str, model_id: &str) -> (r: Result<JsonValue, String>)
    ensures
        match add_model_problem(config, provider_id@) {
            Some(msg) => r matches Err(e) && e@ == msg,
            None => r matches Ok(c) && others_kept(config, c, provider_id@, model_id@) && has_models(c, provider_id@)
                && model_listed(
                field_of(models_of(config, provider_id@), model_id@),
                field_of(models_of(c, provider_id@), model_id@),
            ),
        },
{
    let ghost c0 = config;
    let ok = match config.get("provider") {
        Some(ps) => ps.is_object(),
        None => false,
    };
    if !ok {
        return Err(owned("配置文件中不存在 provider 字段"));
    }
    match config.get("provider") {
        Some(ps) => match ps.get(provider_id) {
            Some(p) => {
                if !p.is_object() {
                    return Err(message2("供应商 ", provider_id, " 配置格式错误"));
                }
                match p.get("models") {
                    Some(ms) => if !ms.is_object() {
                        return Err(owned("models 字段格式错误"));
                    },
                    None => {},
                }
            },
            None => return Err(message2("供应商 ", provider_id, " 不存在")),
        },
        None => return Err(owned("配置文件中不存在 provider 字段")),
    }
    let (rest, providers) = config.take_field("provider");
    let (prest, provider) = providers.take_field(provider_id);
    let (mrest, models) = provider.take_field("models");
    let ms0 = if models.is_object() {
        models
    } else {
        JsonValue::Object(Vec::new())
    };
    let ghost old_ms = ms0;
    let ms1 = if ms0.get(model_id).is_some() {
        ms0
    } else {
        ms0.with_field(model_id.to_string(), JsonValue::Object(Vec::new()))
    };
    proof {
        assert forall|k: Seq<char>| k != model_id@ implies #[trigger] ms1.field(k) == field_of(
            models_of(c0, provider_id@),
            k,
        ) by {
            assert(ms1.field(k) == old_ms.field(k));
        }
    }
    let p1 = mrest.with_field(owned("models"), ms1);
    proof {
        assert forall|k: Seq<char>| k != "models"@ implies #[trigger] p1.field(k) == field_of(
            field_of(c0.field("provider"@), provider_id@),
            k,
        ) by {
            assert(p1.field(k) == mrest.field(k));
        }
    }
    let ps1 = prest.with_field(provider_id.to_string(), p1);
    proof {
        assert forall|k: Seq<char>| k != provider_id@ implies #[trigger] ps1.field(k) == field_of(c0.field("provider"@), k) by {
            assert(ps1.field(k) == prest.field(k));
        }
    }
    let c1 = rest.with_field(owned("provider"), ps1);
    proof {
        assert forall|k: Seq<char>| k != "provider"@ implies #[trigger] c1.field(k) == c0.field(k) by {
            assert(c1.field(k) == rest.field(k));
        }
    }
    Ok(c1)
}

/// Why a model cannot be removed from a provider, if it cannot.
pub open spec fn remove_model_problem(config: JsonValue, pid: Seq<char>, mid: Seq<char>) -> Option<Seq<char>> {
    match config.field("provider"@) {
        Some(ps) => match ps.field(pid) {
            Some(p) => match p.field("models"@) {
                Some(ms) => match ms.field(mid) {
                    Some(_) => None,
                    None => Some(model_missing_message(mid, pid)),
                },
                None => Some(no_models_message(pid)),
            },
            None => Some(provider_missing_message(pid)),
        },
        None => Some(no_providers_message()),
    }
}

/// The configuration without model `model_id` of provider `provider_id`.
pub fn without_custom_model(config: JsonValue, provider_id: &str, model_id: &str) -> (r: Result<JsonValue, String>)
    ensures
        match remove_model_problem(config, provider_id@, model_id@) {
            Some(msg) => r matches Err(e) && e@ == msg,
            None => r matches Ok(c) && others_kept(config, c, provider_id@, model_id@) && has_models(c, provider_id@)
                && field_of(models_of(c, provider_id@), model_id@) is None,
        },
{
    let ghost c0 = config;
    match config.get("provider") {
        Some(ps) => match ps.get(provider_id) {
            Some(p) => match p.get("models") {
                Some(ms) => if ms.get(model_id).is_none() {
                    return Err(message4("模型 ", model_id, " 在供应商 ", provider_id, " 中不存在"));
                },
                None => return Err(message2("供应商 ", provider_id, " 没有配置任何模型")),
            },
            None => return Err(message2("供应商 ", provider_id, " 不存在")),
        },
        None => return Err(owned("配置文件中不存在 provider 字段")),
    }
    let (rest, providers) = config.take_field("provider");
    let (prest, provider) = providers.take_field(provider_id);
    let (mrest, models) = provider.take_field("models");
    let (ms1, _) = models.take_field(model_id);
    proof {
        assert forall|k: Seq<char>| k != model_id@ implies #[trigger] ms1.field(k) == field_of(
            models_of(c0, provider_id@),
            k,
        ) by {
            assert(ms1.field(k) == models.field(k));
        }
    }
    let p1 = mrest.with_field(owned("models"), ms1);
    proof {
        assert forall|k: Seq<char>| k != "models"@ implies #[trigger] p1.field(k) == field_of(
            field_of(c0.field("provider"@), provider_id@),
            k,
        ) by {
            assert(p1.field(k) == mrest.field(k));
        }
    }
    let ps1 = prest.with_field(provider_id.to_string(), p1);
    proof {
        assert forall|k: Seq<char>| k != provider_id@ implies #[trigger] ps1.field(k) == field_of(c0.field("provider"@), k) by {
            assert(ps1.field(k) == prest.field(k));
        }
    }
    let c1 = rest.with_field(owned("provider"), ps1);
    proof {
        assert forall|k: Seq<char>| k != "provider"@ implies #[trigger] c1.field(k) == c0.field(k) by {
            assert(c1.field(k) == rest.field(k));
        }
    }
    Ok(c1)
}

/// Editing one model's entry leaves what every other model lookup finds as it was.
pub proof fn law_model_edit_keeps_other_models(
    before: JsonValue,
    after: JsonValue,
    pid: Seq<char>,
    mid: Seq<char>,
    p2: Seq<char>,
    m2: Seq<char>,
)
    requires
        others_kept(before, after, pid, mid),
        has_models(before, pid),
        p2 != pid || m2 != mid,
    ensures
        model_entry(after, p2, m2) == model_entry(before, p2, m2),
{
    reveal_strlit("models");
    let ps = after.field("provider"@)->Some_0;
    let ps0 = before.field("provider"@)->Some_0;
    assert(ps.field(p2) == ps0.field(p2) || p2 == pid);
    if p2 == pid {
        let p = ps.field(pid)->Some_0;
        let p0 = ps0.field(pid)->Some_0;
        let ms = p.field("models"@)->Some_0;
        let ms0 = p0.field("models"@)->Some_0;
        assert(ms.field(m2) == ms0.field(m2));
    }
}

/// Listing a model that is already listed changes no model lookup.
pub proof fn law_add_model_is_idempotent(
    before: JsonValue,
    after: JsonValue,
    pid: Seq<char>,
    mid: Seq<char>,
    p2: Seq<char>,
    m2: Seq<char>,
)
    requires
        others_kept(before, after, pid, mid),
        has_models(before, pid),
        field_of(models_of(before, pid), mid) is Some,
        model_listed(field_of(models_of(before, pid), mid), field_of(models_of(after, pid), mid)),
    ensures
        model_entry(after, p2, m2) == model_entry(before, p2, m2),
{
    if p2 != pid || m2 != mid {
        law_model_edit_keeps_other_models(before, after, pid, mid, p2, m2);
    }
}

/// A model that was removed is no longer found: the lookup reports it missing.
pub proof fn law_removed_model_is_missing(before: JsonValue, after: JsonValue, pid: Seq<char>, mid: Seq<char>)
    requires
        others_kept(before, after, pid, mid),
        has_models(after, pid),
        field_of(models_of(after, pid), mid) is None,
    ensures
        model_entry(after, pid, mid) == Err::<JsonValue, Seq<char>>(model_missing_message(mid, pid)),
{
}

/// A limit written with `with_model_limit` is what reading the model's limit gives back:
/// the stored value is the JSON form of that limit and of no other, and every other model
/// lookup is as it was.
pub proof fn law_limit_read_back(
    before: JsonValue,
    after: JsonValue,
    pid: Seq<char>,
    mid: Seq<char>,
    limit: ModelLimit,
    other: ModelLimit,
    p2: Seq<char>,
    m2: Seq<char>,
)
    requires
        model_entry(before, pid, mid) is Ok,
        others_kept(before, after, pid, mid),
        model_entry(after, pid, mid) matches Ok(m) && limit_set(model_entry(before, pid, mid)->Ok_0, m, limit),
    ensures
        model_entry(after, pid, mid) matches Ok(m) && m.field("limit"@) matches Some(v) && is_limit_json(v, limit)
            && (is_limit_json(v, other) ==> other == limit),
        p2 != pid || m2 != mid ==> model_entry(after, p2, m2) == model_entry(before, p2, m2),
{
    let m = model_entry(after, pid, mid)->Ok_0;
    let v = m.field("limit"@)->Some_0;
    if is_limit_json(v, other) {
        assert(other.input == limit.input) by {
            match limit.input {
                Some(n) => {
                    assert(v.field("input"@) == Some(JsonValue::Number(JsonNumber::PosInt(n))));
                },
                None => {},
            }
        }
    }
    if p2 != pid || m2 != mid {
        law_model_edit_keeps_other_models(before, after, pid, mid, p2, m2);
    }
}

} // verus!
