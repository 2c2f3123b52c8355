use deepseek_cursor_proxy_rust::config::AppConfig;
use deepseek_cursor_proxy_rust::json::{JsonMap, JsonValue};
use deepseek_cursor_proxy_rust::protocol::folding::fold_reasoning_into_content;
use deepseek_cursor_proxy_rust::protocol::model::Message;
use deepseek_cursor_proxy_rust::protocol::normalize::{
    convert_function_call, extract_text_content, filter_supported_fields, legacy_function_to_tool,
    normalize_message, normalize_reasoning_effort, normalize_tool, normalize_tool_choice,
    strip_cursor_thinking_blocks, supported_request_fields,
};
use deepseek_cursor_proxy_rust::protocol::transform::{
    PreparedRequest, RECOVERY_NOTICE_CONTENT, RECOVERY_NOTICE_TEXT, prepare_upstream_request,
    strip_recovery_notice_for_upstream,
};
use serde_json::Value;

fn doc_from_value(v: &Value) -> JsonValue {
    match v {
        Value::Null => JsonValue::Null,
        Value::Bool(b) => JsonValue::Bool(*b),
        Value::Number(n) => JsonValue::Number(n.to_string()),
        Value::String(s) => JsonValue::Str(s.clone()),
        Value::Array(a) => JsonValue::Array(a.iter().map(doc_from_value).collect()),
        Value::Object(m) => {
            JsonValue::Object(m.iter().map(|(k, v)| (k.clone(), doc_from_value(v))).collect())
        }
    }
}

fn value_from_doc(v: &JsonValue) -> Value {
    match v {
        JsonValue::Null => Value::Null,
        JsonValue::Bool(b) => Value::Bool(*b),
        JsonValue::Number(n) => serde_json::from_str(n).unwrap(),
        JsonValue::Str(s) => Value::String(s.clone()),
        JsonValue::Array(a) => Value::Array(a.iter().map(value_from_doc).collect()),
        JsonValue::Object(m) => {
            Value::Object(m.iter().map(|(k, v)| (k.clone(), value_from_doc(v))).collect())
        }
    }
}

fn doc(text: &str) -> JsonValue {
    doc_from_value(&serde_json::from_str(text).unwrap())
}

fn members(text: &str) -> JsonMap {
    match doc(text) {
        JsonValue::Object(m) => m,
        _ => panic!("not an object"),
    }
}

fn payload_value(prepared: &PreparedRequest) -> Value {
    value_from_doc(&JsonValue::Object(
        prepared.payload.iter().map(|(k, v)| (k.clone(), v.deep_clone())).collect(),
    ))
}

fn prepare_with(text: &str, config: &AppConfig) -> Value {
    let prepared = prepare_upstream_request(&members(text), config);
    payload_value(&prepared)
}

#[test]
fn normalizes_reasoning_effort_aliases() {
    assert_eq!(normalize_reasoning_effort("low"), "high");
    assert_eq!(normalize_reasoning_effort("medium"), "high");
    assert_eq!(normalize_reasoning_effort("high"), "high");
    assert_eq!(normalize_reasoning_effort("max"), "max");
    assert_eq!(normalize_reasoning_effort("xhigh"), "max");
    assert_eq!(normalize_reasoning_effort("nonsense"), "high");
}

#[test]
fn reasoning_effort_is_trimmed_and_case_blind() {
    assert_eq!(normalize_reasoning_effort("  MAX \n"), "max");
    assert_eq!(normalize_reasoning_effort("XHigh"), "max");
    assert_eq!(normalize_reasoning_effort(""), "high");
}

#[test]
fn extract_text_content_flattens_multipart_array() {
    let content = doc(
        r#"[
            {"type": "text", "text": "hello"},
            {"type": "image_url", "image_url": {"url": "data:..."}},
            {"type": "input_text", "text": "world"}
        ]"#,
    );
    assert_eq!(
        extract_text_content(&content),
        Some("hello\n[image_url omitted by DeepSeek text proxy]\nworld".to_string())
    );
}

#[test]
fn extract_text_content_passes_through_string_and_none() {
    assert_eq!(extract_text_content(&doc("\"plain\"")), Some("plain".to_string()));
    assert_eq!(extract_text_content(&JsonValue::Null), None);
}

#[test]
fn strips_cursor_thinking_blocks() {
    assert_eq!(
        strip_cursor_thinking_blocks(
            "<details>\n<summary>Thinking</summary>\n\nplan\n</details>\n\nanswer"
        ),
        "answer"
    );
    assert_eq!(
        strip_cursor_thinking_blocks("<think>\nplan\n</think>\n\nanswer"),
        "answer"
    );
    assert_eq!(
        strip_cursor_thinking_blocks("<details><summary>Diff</summary>\nrelevant\n</details>"),
        "<details><summary>Diff</summary>\nrelevant\n</details>"
    );
}

#[test]
fn unclosed_thinking_block_is_stripped_to_the_end() {
    assert_eq!(strip_cursor_thinking_blocks("answer<think>\nstill thinking"), "answer");
}

#[test]
fn normalizes_legacy_and_tool_fields() {
    let tool = legacy_function_to_tool(&doc(r#"{"name": "lookup"}"#));
    assert_eq!(tool.tool_type, "function");
    assert_eq!(value_from_doc(&tool.function)["name"], "lookup");

    let normalized_tool = normalize_tool(&doc(r#"{"function": {"name": "lookup"}}"#));
    assert_eq!(normalized_tool.tool_type, "function");
    assert_eq!(value_from_doc(&normalized_tool.function)["name"], "lookup");
}

#[test]
fn normalizes_function_call_and_tool_choice() {
    assert_eq!(
        convert_function_call(&doc("\"auto\"")).map(|v| value_from_doc(&v)),
        Some(serde_json::from_str::<Value>("\"auto\"").unwrap())
    );
    assert_eq!(
        convert_function_call(&doc(r#"{"name": "lookup"}"#)).map(|v| value_from_doc(&v)),
        Some(
            serde_json::from_str::<Value>(r#"{"type": "function", "function": {"name": "lookup"}}"#)
                .unwrap()
        )
    );
    assert_eq!(
        normalize_tool_choice(&doc(r#"{"type": "function", "function": {"name": "lookup"}}"#))
            .map(|v| value_from_doc(&v)),
        Some(
            serde_json::from_str::<Value>(r#"{"type": "function", "function": {"name": "lookup"}}"#)
                .unwrap()
        )
    );
}

#[test]
fn unknown_tool_choice_mode_is_dropped() {
    assert_eq!(normalize_tool_choice(&doc("\"sometimes\"")), None);
    assert!(normalize_tool_choice(&doc("\"required\"")).is_some());
}

#[test]
fn normalizes_message_and_strips_reasoning_when_disabled() {
    let message = normalize_message(
        &doc(
            r#"{
                "role": "assistant",
                "content": "<think>\nplan\n</think>\n\nanswer",
                "reasoning_content": "secret"
            }"#,
        ),
        false,
    );
    assert_eq!(message.role, "assistant");
    assert_eq!(message.content, Some(doc("\"answer\"")));
    assert_eq!(message.reasoning_content, None);
}

#[test]
fn message_keeps_reasoning_when_enabled() {
    let message = normalize_message(
        &doc(r#"{"role": "assistant", "content": "answer", "reasoning_content": "plan"}"#),
        true,
    );
    assert_eq!(message.reasoning_content, Some("plan".to_string()));
}

#[test]
fn filters_supported_fields_only() {
    let map = members(
        r#"{
            "model": "deepseek-v4-pro",
            "messages": [],
            "parallel_tool_calls": true
        }"#,
    );
    let filtered = value_from_doc(&JsonValue::Object(filter_supported_fields(&map)));
    let filtered = filtered.as_object().unwrap();
    assert!(filtered.contains_key("model"));
    assert!(filtered.contains_key("messages"));
    assert!(!filtered.contains_key("parallel_tool_calls"));
}

#[test]
fn supported_fields_include_the_core_request_fields() {
    let fields = supported_request_fields();
    for name in ["model", "messages", "stream", "tools", "tool_choice", "thinking"] {
        assert!(fields.contains(&name));
    }
    assert!(!fields.contains(&"parallel_tool_calls"));
}

#[test]
fn converts_legacy_functions_to_tools() {
    let payload = prepare_with(
        r#"{
            "model": "deepseek-v4-pro",
            "messages": [{"role": "user", "content": "hi"}],
            "functions": [{"name": "lookup", "parameters": {"type": "object"}}],
            "function_call": "auto"
        }"#,
        &AppConfig::default(),
    );
    assert_eq!(payload["tools"][0]["function"]["name"], "lookup");
    assert_eq!(payload["tool_choice"], "auto");
}

#[test]
fn named_function_call_becomes_named_tool_choice() {
    let payload = prepare_with(
        r#"{
            "model": "deepseek-v4-pro",
            "messages": [{"role": "user", "content": "hi"}],
            "function_call": {"name": "lookup"}
        }"#,
        &AppConfig::default(),
    );
    assert_eq!(
        payload["tool_choice"],
        serde_json::from_str::<Value>(r#"{"type": "function", "function": {"name": "lookup"}}"#)
            .unwrap()
    );
}

#[test]
fn max_completion_tokens_is_aliased_to_max_tokens() {
    let payload = prepare_with(
        r#"{
            "model": "deepseek-v4-pro",
            "messages": [{"role": "user", "content": "hi"}],
            "max_completion_tokens": 256
        }"#,
        &AppConfig::default(),
    );
    assert_eq!(payload["max_tokens"], 256);
}

#[test]
fn standard_openai_fields_are_forwarded() {
    let payload = prepare_with(
        r#"{
            "model": "deepseek-v4-pro",
            "messages": [{"role": "user", "content": "hi"}],
            "user": "user-abc",
            "seed": 42,
            "n": 1,
            "logit_bias": {"50256": -100}
        }"#,
        &AppConfig::default(),
    );
    assert_eq!(payload["user"], "user-abc");
    assert_eq!(payload["seed"], 42);
    assert_eq!(payload["n"], 1);
    assert_eq!(
        payload["logit_bias"],
        serde_json::from_str::<Value>(r#"{"50256": -100}"#).unwrap()
    );
}

#[test]
fn unknown_fields_are_dropped() {
    let payload = prepare_with(
        r#"{
            "model": "deepseek-v4-pro",
            "messages": [{"role": "user", "content": "hi"}],
            "parallel_tool_calls": true,
            "service_tier": "fast"
        }"#,
        &AppConfig::default(),
    );
    let payload = payload.as_object().unwrap();
    assert!(!payload.contains_key("parallel_tool_calls"));
    assert!(!payload.contains_key("service_tier"));
}

#[test]
fn non_deepseek_model_is_rewritten() {
    let config = AppConfig::default();
    let prepared = prepare_upstream_request(
        &members(r#"{"model": "gpt-4", "messages": [{"role": "user", "content": "hi"}]}"#),
        &config,
    );
    assert_eq!(payload_value(&prepared)["model"], "deepseek-v4-pro");
    assert_eq!(prepared.original_model, "gpt-4");
    assert_eq!(prepared.upstream_model, "deepseek-v4-pro");
}

#[test]
fn thinking_disabled_strips_reasoning_from_history() {
    let config = AppConfig {
        thinking: "disabled".to_string(),
        ..AppConfig::default()
    };
    let payload = prepare_with(
        r#"{
            "model": "deepseek-v4-pro",
            "messages": [
                {"role": "user", "content": "hi"},
                {"role": "assistant", "content": "answer", "reasoning_content": "hidden"}
            ]
        }"#,
        &config,
    );
    assert_eq!(
        payload["thinking"],
        serde_json::from_str::<Value>(r#"{"type": "disabled"}"#).unwrap()
    );
    assert!(payload["messages"][1].get("reasoning_content").is_none());
}

#[test]
fn thinking_enabled_sends_configured_effort_and_stream_usage() {
    let payload = prepare_with(
        r#"{"model": "deepseek-v4-flash", "messages": [], "stream": true}"#,
        &AppConfig::default(),
    );
    assert_eq!(payload["reasoning_effort"], "max");
    assert_eq!(payload["stream_options"]["include_usage"], true);
    assert_eq!(payload["model"], "deepseek-v4-flash");
}

#[test]
fn recovery_notice_stripping_returns_copy() {
    let original = vec![doc_from_value(&Value::Object(
        [
            ("role".to_string(), Value::String("assistant".to_string())),
            (
                "content".to_string(),
                Value::String(format!("{RECOVERY_NOTICE_CONTENT}answer")),
            ),
        ]
        .into_iter()
        .collect(),
    ))];
    let stripped = strip_recovery_notice_for_upstream(&original);
    assert_eq!(
        value_from_doc(&original[0])["content"],
        format!("{RECOVERY_NOTICE_CONTENT}answer")
    );
    assert_eq!(value_from_doc(&stripped[0])["content"], "answer");
    assert_ne!(original[0], stripped[0]);
}

#[test]
fn recovery_notice_constants_align() {
    assert!(RECOVERY_NOTICE_CONTENT.starts_with(RECOVERY_NOTICE_TEXT));
}

#[test]
fn folds_reasoning_into_content() {
    let mut payload = doc(
        r#"{
            "choices": [{
                "message": {
                    "role": "assistant",
                    "content": "Final.",
                    "reasoning_content": "Plan."
                }
            }]
        }"#,
    );
    fold_reasoning_into_content(&mut payload, true);
    let payload = value_from_doc(&payload);
    let content = payload["choices"][0]["message"]["content"].as_str().unwrap();
    assert!(content.contains("Thinking"));
    assert!(content.ends_with("Final."));
}

#[test]
fn folding_uses_think_blocks_when_not_collapsible() {
    let mut payload = doc(
        r#"{"choices": [{"message": {"content": "B", "reasoning_content": "A"}}, {"message": {"content": "C", "reasoning_content": ""}}]}"#,
    );
    fold_reasoning_into_content(&mut payload, false);
    let payload = value_from_doc(&payload);
    assert_eq!(payload["choices"][0]["message"]["content"], "<think>\nA\n</think>\n\nB");
    assert_eq!(payload["choices"][1]["message"]["content"], "C");
}

#[test]
fn message_default_has_no_content() {
    let message = Message::default();
    assert_eq!(message.content, None);
    assert_eq!(message.tool_calls, None);
    assert_eq!(message.reasoning_content, None);
}
