use omo_switch::json::{JsonNumber, JsonValue};
use omo_switch::models::{
    check_model_ids, custom_model_config, custom_model_limit_value, limit_json, validate_model_limit,
    with_custom_model, with_model_limit, without_custom_model, CustomModelMetadata, ModelLimit,
};

fn s(text: &str) -> JsonValue {
    JsonValue::Str(text.to_string())
}

fn n(x: u64) -> JsonValue {
    JsonValue::Number(JsonNumber::PosInt(x))
}

fn obj(members: Vec<(&str, JsonValue)>) -> JsonValue {
    JsonValue::Object(members.into_iter().map(|(k, v)| (k.to_string(), v)).collect())
}

fn at<'a>(v: &'a JsonValue, path: &[&str]) -> Option<&'a JsonValue> {
    let mut cur = v;
    for key in path {
        cur = cur.get(key)?;
    }
    Some(cur)
}

fn number(v: Option<&JsonValue>) -> Option<u64> {
    match v {
        Some(JsonValue::Number(JsonNumber::PosInt(x))) => Some(*x),
        _ => None,
    }
}

fn members(v: Option<&JsonValue>) -> Vec<String> {
    match v {
        Some(JsonValue::Object(es)) => es.iter().map(|(k, _)| k.clone()).collect(),
        _ => panic!("expected an object"),
    }
}

fn provider_with_models(models: JsonValue) -> JsonValue {
    obj(vec![("provider", obj(vec![("test-provider", obj(vec![("models", models)]))]))])
}

fn openai_compatible_fixture(provider: &str) -> JsonValue {
    obj(vec![("provider", obj(vec![(provider, obj(vec![("npm", s("@ai-sdk/openai-compatible"))]))]))])
}

fn limit_from(v: &JsonValue) -> ModelLimit {
    ModelLimit {
        context: number(v.get("context")).unwrap(),
        input: number(v.get("input")),
        output: number(v.get("output")).unwrap(),
    }
}

fn add_model(config: JsonValue, provider_id: &str, model_id: &str) -> Result<JsonValue, String> {
    let (p, m) = check_model_ids(provider_id, model_id)?;
    with_custom_model(config, &p, &m)
}

#[test]
fn test_get_custom_model_metadata_returns_existing_limit() {
    let config = provider_with_models(obj(vec![(
        "test-model",
        obj(vec![("limit", obj(vec![("context", n(128000)), ("input", n(120000)), ("output", n(8192))]))]),
    )]));

    let value = custom_model_limit_value(config, "test-provider", "test-model").expect("读取模型 metadata 应该成功");
    let metadata = CustomModelMetadata { limit: value.as_ref().map(limit_from) };

    let limit = metadata.limit.expect("应该返回已有 limit");
    assert_eq!(limit.context, 128000);
    assert_eq!(limit.input, Some(120000));
    assert_eq!(limit.output, 8192);
}

#[test]
fn test_get_custom_model_metadata_returns_no_limit_for_empty_model() {
    let config = provider_with_models(obj(vec![("test-model", obj(vec![]))]));

    let value = custom_model_limit_value(config, "test-provider", "test-model").expect("读取空模型 metadata 应该成功");

    assert!(value.is_none());
}

#[test]
fn test_update_custom_model_limit_writes_limit_and_preserves_model_fields() {
    let config = obj(vec![(
        "provider",
        obj(vec![(
            "test-provider",
            obj(vec![
                ("npm", s("@ai-sdk/openai-compatible")),
                (
                    "models",
                    obj(vec![(
                        "test-model",
                        obj(vec![
                            ("name", s("Preserved Name")),
                            ("capabilities", obj(vec![("tools", JsonValue::Bool(true))])),
                        ]),
                    )]),
                ),
            ]),
        )]),
    )]);
    let limit = ModelLimit { context: 200000, input: Some(180000), output: 16000 };
    validate_model_limit(&limit).unwrap();

    let config = with_model_limit(config, "test-provider", "test-model", &limit).expect("更新模型 limit 应该成功");

    let model = at(&config, &["provider", "test-provider", "models", "test-model"]).unwrap();
    assert_eq!(number(at(model, &["limit", "context"])), Some(200000));
    assert_eq!(number(at(model, &["limit", "input"])), Some(180000));
    assert_eq!(number(at(model, &["limit", "output"])), Some(16000));
    assert_eq!(model.get("name").and_then(|v| v.as_str()), Some("Preserved Name"));
    assert!(matches!(at(model, &["capabilities", "tools"]), Some(JsonValue::Bool(true))));
    assert_eq!(
        at(&config, &["provider", "test-provider", "npm"]).and_then(|v| v.as_str()),
        Some("@ai-sdk/openai-compatible")
    );
}

#[test]
fn test_update_custom_model_limit_omits_empty_input() {
    let config = provider_with_models(obj(vec![("test-model", obj(vec![]))]));
    let limit = ModelLimit { context: 128000, input: None, output: 8192 };

    let config = with_model_limit(config, "test-provider", "test-model", &limit).expect("更新无 input 的模型 limit 应该成功");

    let written = at(&config, &["provider", "test-provider", "models", "test-model", "limit"]).unwrap();
    assert_eq!(number(written.get("context")), Some(128000));
    assert!(written.get("input").is_none());
    assert_eq!(number(written.get("output")), Some(8192));
}

#[test]
fn test_update_custom_model_limit_missing_model_returns_error() {
    let config = provider_with_models(obj(vec![("existing-model", obj(vec![]))]));
    let limit = ModelLimit { context: 128000, input: Some(120000), output: 8192 };

    let error = with_model_limit(config, "test-provider", "missing-model", &limit).expect_err("缺失模型应该返回错误");

    assert!(error.contains("missing-model"));
    assert!(error.contains("不存在"));
}

#[test]
fn limit_read_back_after_update() {
    let config = provider_with_models(obj(vec![("m", obj(vec![("limit", s("old"))]))]));
    let limit = ModelLimit { context: 1, input: Some(2), output: 3 };
    let config = with_model_limit(config, "test-provider", "m", &limit).unwrap();
    let value = custom_model_limit_value(config, "test-provider", "m").unwrap().unwrap();
    assert_eq!(limit_from(&value), limit);
}

#[test]
fn limit_json_shape() {
    let v = limit_json(&ModelLimit { context: 7, input: None, output: 9 });
    assert_eq!(members(Some(&v)), vec!["context".to_string(), "output".to_string()]);
}

#[test]
fn model_limit_validation_messages() {
    let ok = ModelLimit { context: 1, input: None, output: 1 };
    assert!(validate_model_limit(&ok).is_ok());
    assert_eq!(
        validate_model_limit(&ModelLimit { context: 0, input: Some(0), output: 0 }).unwrap_err(),
        "context 必须是大于 0 的整数"
    );
    assert_eq!(
        validate_model_limit(&ModelLimit { context: 1, input: Some(0), output: 0 }).unwrap_err(),
        "input 必须是大于 0 的整数"
    );
    assert_eq!(
        validate_model_limit(&ModelLimit { context: 1, input: Some(5), output: 0 }).unwrap_err(),
        "output 必须是大于 0 的整数"
    );
}

#[test]
fn model_lookup_error_messages() {
    assert_eq!(
        custom_model_config(&obj(vec![]), "p", "m").unwrap_err(),
        "配置文件中不存在 provider 字段"
    );
    let config = obj(vec![("provider", obj(vec![("p", obj(vec![("models", obj(vec![("bad", s("x"))]))])), ("q", obj(vec![]))]))]);
    assert_eq!(custom_model_config(&config, "z", "m").unwrap_err(), "供应商 z 不存在");
    assert_eq!(custom_model_config(&config, "q", "m").unwrap_err(), "供应商 q 没有配置任何模型");
    assert_eq!(custom_model_config(&config, "p", "m").unwrap_err(), "模型 m 在供应商 p 中不存在");
    assert_eq!(custom_model_config(&config, "p", "bad").unwrap_err(), "模型 bad 在供应商 p 中的配置格式错误");
}

#[test]
fn test_add_custom_model() {
    let config = openai_compatible_fixture("test-provider");

    let result = add_model(config, "test-provider", "test-model-1");

    assert!(result.is_ok(), "添加模型应该成功: {:?}", result.as_ref().err());
    let config = result.unwrap();
    assert!(matches!(at(&config, &["provider", "test-provider", "models", "test-model-1"]), Some(JsonValue::Object(_))));
}

#[test]
fn test_add_custom_model_duplicate() {
    let config = openai_compatible_fixture("test-provider");

    let result1 = add_model(config, "test-provider", "test-model-2");
    assert!(result1.is_ok());
    let result2 = add_model(result1.unwrap(), "test-provider", "test-model-2");
    assert!(result2.is_ok());

    let config = result2.unwrap();
    let models = members(at(&config, &["provider", "test-provider", "models"]));
    assert_eq!(models.len(), 1);
    assert!(models.contains(&"test-model-2".to_string()));
}

#[test]
fn test_add_custom_model_trims_model_id() {
    let config = openai_compatible_fixture("test-provider");

    let result = add_model(config, "test-provider", "  spaced-model  ");

    assert!(result.is_ok(), "添加模型应该成功: {:?}", result.as_ref().err());
    let config = result.unwrap();
    let models = members(at(&config, &["provider", "test-provider", "models"]));
    assert!(models.contains(&"spaced-model".to_string()));
    assert!(!models.contains(&"  spaced-model  ".to_string()));
}

#[test]
fn test_add_custom_model_rejects_empty_model_id() {
    let error = check_model_ids("test-provider", "   ").expect_err("空模型 ID 应该失败");

    assert!(error.contains("模型 ID"));
}

#[test]
fn test_add_custom_model_rejects_missing_provider() {
    let config = openai_compatible_fixture("other-provider");

    let error = add_model(config, "missing-provider", "test-model").expect_err("缺失供应商应该失败");

    assert!(error.contains("missing-provider"));
    assert!(error.contains("不存在"));
}

#[test]
fn add_custom_model_keeps_an_existing_entry_and_rejects_bad_shapes() {
    let config = provider_with_models(obj(vec![("m", obj(vec![("name", s("kept"))]))]));
    let config = add_model(config, "test-provider", "m").unwrap();
    let model = at(&config, &["provider", "test-provider", "models", "m"]).unwrap();
    assert_eq!(model.get("name").and_then(|v| v.as_str()), Some("kept"));

    assert_eq!(check_model_ids(" ", "m").unwrap_err(), "供应商 ID 不能为空");
    let bad_provider = obj(vec![("provider", obj(vec![("p", s("x"))]))]);
    assert_eq!(add_model(bad_provider, "p", "m").unwrap_err(), "供应商 p 配置格式错误");
    let bad_models = obj(vec![("provider", obj(vec![("p", obj(vec![("models", s("x"))]))]))]);
    assert_eq!(add_model(bad_models, "p", "m").unwrap_err(), "models 字段格式错误");
}

#[test]
fn test_remove_custom_model() {
    let config = openai_compatible_fixture("test-provider");
    let add_result = add_model(config, "test-provider", "test-model-3");
    assert!(add_result.is_ok());

    let remove_result = without_custom_model(add_result.unwrap(), "test-provider", "test-model-3");
    assert!(remove_result.is_ok(), "删除模型应该成功: {:?}", remove_result.as_ref().err());

    let config = remove_result.unwrap();
    let models = members(at(&config, &["provider", "test-provider", "models"]));
    assert!(!models.contains(&"test-model-3".to_string()));
}

#[test]
fn test_remove_custom_model_not_found() {
    let config = openai_compatible_fixture("test-provider");
    let config = add_model(config, "test-provider", "existing-model").unwrap();

    let result = without_custom_model(config, "test-provider", "nonexistent-model");

    assert!(result.is_err());
    let error_msg = result.unwrap_err();
    assert!(error_msg.contains("不存在") || error_msg.contains("nonexistent"));
}
