use deepseek_cursor_proxy_rust::json::JsonValue;
use deepseek_cursor_proxy_rust::protocol::model::{Message, ToolCall, ToolFunction};
use deepseek_cursor_proxy_rust::protocol::response_rewrite::{record_response_reasoning, rewrite_response_body};
use deepseek_cursor_proxy_rust::reasoning::keys::{
    conversation_scope, message_signature, portable_reasoning_keys, scoped_reasoning_keys, tool_call_ids,
    tool_call_names, tool_call_signature, turn_context_signature,
};
use deepseek_cursor_proxy_rust::reasoning::store::{MemoryReasoningStore, ReasoningStore};
use serde_json::Value;

fn rdoc_from_value(v: &Value) -> JsonValue {
    match v {
        Value::Null => JsonValue::Null,
        Value::Bool(b) => JsonValue::Bool(*b),
        Value::Number(n) => JsonValue::Number(n.to_string()),
        Value::String(s) => JsonValue::Str(s.clone()),
        Value::Array(a) => JsonValue::Array(a.iter().map(rdoc_from_value).collect()),
        Value::Object(m) => {
            JsonValue::Object(m.iter().map(|(k, v)| (k.clone(), rdoc_from_value(v))).collect())
        }
    }
}

fn rdoc(text: &str) -> JsonValue {
    rdoc_from_value(&serde_json::from_str(text).unwrap())
}

fn text_message(role: &str, text: &str) -> Message {
    Message {
        role: role.to_string(),
        content: Some(JsonValue::Str(text.to_string())),
        ..Message::default()
    }
}

fn scope_prefix(scope: &str) -> String {
    format!("scope:{scope}")
}

fn sample_tool_call() -> ToolCall {
    ToolCall {
        id: Some("call_1".to_string()),
        tool_type: "function".to_string(),
        function: ToolFunction {
            name: "lookup".to_string(),
            arguments: "{}".to_string(),
        },
    }
}

fn sample_message() -> Message {
    Message {
        role: "assistant".to_string(),
        content: Some(JsonValue::Str("answer".to_string())),
        tool_calls: Some(vec![sample_tool_call()]),
        ..Message::default()
    }
}

fn empty_tool_call() -> ToolCall {
    ToolCall {
        id: Some("call_empty".to_string()),
        tool_type: "function".to_string(),
        function: ToolFunction {
            name: "lookup".to_string(),
            arguments: "{}".to_string(),
        },
    }
}

#[test]
fn builds_scope_prefix() {
    assert_eq!(scope_prefix("abc"), "scope:abc");
}

#[test]
fn produces_signatures_and_keys() {
    let message = sample_message();
    assert_eq!(tool_call_ids(&message), vec!["call_1".to_string()]);
    assert_eq!(tool_call_names(&message), vec!["lookup".to_string()]);
    assert_eq!(message_signature(&message).len(), 64);
    assert_eq!(tool_call_signature(&sample_tool_call()).len(), 64);
}

#[test]
fn tool_call_signature_ignores_the_id() {
    let mut other = sample_tool_call();
    other.id = Some("call_2".to_string());
    assert_eq!(tool_call_signature(&other), tool_call_signature(&sample_tool_call()));
    other.function.arguments = "{\"q\":1}".to_string();
    assert_ne!(tool_call_signature(&other), tool_call_signature(&sample_tool_call()));
}

#[test]
fn scope_changes_with_namespace() {
    let message = sample_message();
    let default_scope = conversation_scope(std::slice::from_ref(&message), "");
    let namespaced_scope = conversation_scope(std::slice::from_ref(&message), "ns");
    assert_ne!(default_scope, namespaced_scope);
}

#[test]
fn turn_context_uses_last_user_cluster() {
    let messages = vec![
        text_message("system", "system"),
        text_message("user", "a"),
        text_message("assistant", "b"),
        text_message("user", "c"),
    ];
    assert_eq!(turn_context_signature(&messages).len(), 64);
    let portable = portable_reasoning_keys(&sample_message(), "ns", &messages);
    assert!(!portable.is_empty());
}

#[test]
fn scoped_keys_cover_signature_ids_signatures_and_names() {
    let keys = scoped_reasoning_keys(&sample_message(), "s");
    assert_eq!(keys.len(), 4);
    assert_eq!(keys[0], format!("scope:s:signature:{}", message_signature(&sample_message())));
    assert_eq!(keys[1], "scope:s:tool_call:call_1");
    assert_eq!(
        keys[2],
        format!("scope:s:tool_call_signature:{}", tool_call_signature(&sample_tool_call()))
    );
    assert_eq!(keys[3], "scope:s:tool_name:lookup");
}

#[test]
fn portable_keys_are_scoped_keys_under_the_turn_prefix() {
    let messages = vec![text_message("user", "a")];
    let scoped = scoped_reasoning_keys(&sample_message(), "s");
    let portable = portable_reasoning_keys(&sample_message(), "ns", &messages);
    let prefix = format!("namespace:ns:turn:{}", turn_context_signature(&messages));
    assert_eq!(portable.len(), scoped.len());
    for (p, k) in portable.iter().zip(scoped.iter()) {
        assert_eq!(p.strip_prefix(prefix.as_str()), k.strip_prefix("scope:s"));
    }
}

#[test]
fn portable_keys_need_a_namespace() {
    let messages = vec![text_message("user", "a")];
    assert!(portable_reasoning_keys(&sample_message(), "", &messages).is_empty());
}

#[test]
fn stores_empty_reasoning_as_present_value() {
    let mut store = MemoryReasoningStore::new(None, None);
    let scope = conversation_scope(&[text_message("user", "lookup")], "");
    let message = Message {
        role: "assistant".to_string(),
        content: Some(JsonValue::Str(String::new())),
        reasoning_content: Some(String::new()),
        tool_calls: Some(vec![empty_tool_call()]),
        ..Message::default()
    };
    assert!(store.store_assistant_message(&message, &scope, "", None).unwrap() > 0);
    assert_eq!(
        store.get(&format!("scope:{scope}:tool_call:call_empty")).unwrap(),
        Some(String::new())
    );
    let lookup = Message {
        role: "assistant".to_string(),
        content: Some(JsonValue::Str(String::new())),
        tool_calls: Some(vec![empty_tool_call()]),
        ..Message::default()
    };
    assert_eq!(store.lookup_for_message(&lookup, &scope, "", None).unwrap(), Some(String::new()));
}

#[test]
fn store_prunes_to_max_rows_and_can_clear() {
    let mut store = MemoryReasoningStore::new(None, Some(2));
    let message = Message {
        role: "assistant".to_string(),
        ..Message::default()
    };
    store.put("a", "reasoning a", &message).unwrap();
    store.put("b", "reasoning b", &message).unwrap();
    store.put("c", "reasoning c", &message).unwrap();
    assert_eq!(store.get("a").unwrap(), None);
    assert_eq!(store.get("b").unwrap(), Some("reasoning b".to_string()));
    assert_eq!(store.get("c").unwrap(), Some("reasoning c".to_string()));
    assert_eq!(store.clear().unwrap(), 2);
    assert_eq!(store.get("b").unwrap(), None);
}

#[test]
fn user_messages_keep_no_reasoning() {
    let mut store = MemoryReasoningStore::new(None, None);
    let mut message = text_message("user", "hi");
    message.reasoning_content = Some("plan".to_string());
    assert_eq!(store.store_assistant_message(&message, "s", "", None).unwrap(), 0);
    assert_eq!(store.clear().unwrap(), 0);
}

#[test]
fn lookup_after_store_finds_reasoning_for_same_signature() {
    let mut store = MemoryReasoningStore::new(None, None);
    let mut kept = sample_message();
    kept.reasoning_content = Some("plan".to_string());
    store.store_assistant_message(&kept, "s", "", None).unwrap();
    let asked = sample_message();
    assert_eq!(store.lookup_for_message(&asked, "s", "", None).unwrap(), Some("plan".to_string()));
    assert_eq!(store.lookup_for_message(&text_message("assistant", "other"), "s", "", None).unwrap(), None);
}

#[test]
fn reasoning_carries_over_to_another_scope_through_the_namespace() {
    let mut store = MemoryReasoningStore::new(None, None);
    let prior = vec![text_message("user", "question")];
    let mut kept = text_message("assistant", "answer");
    kept.reasoning_content = Some("plan".to_string());
    store.store_assistant_message(&kept, "first", "ns", Some(&prior)).unwrap();
    let asked = text_message("assistant", "answer");
    assert_eq!(
        store.lookup_for_message(&asked, "second", "ns", Some(&prior)).unwrap(),
        Some("plan".to_string())
    );
    assert_eq!(store.lookup_for_message(&asked, "second", "ns", None).unwrap(), None);
}

#[test]
fn backfill_writes_only_portable_aliases() {
    let mut store = MemoryReasoningStore::new(None, None);
    let prior = vec![text_message("user", "question")];
    let message = text_message("assistant", "answer");
    let n = store.backfill_portable_aliases(&message, "plan", "ns", &prior).unwrap();
    assert_eq!(n, 1);
    assert_eq!(
        store.lookup_for_message(&message, "any", "ns", Some(&prior)).unwrap(),
        Some("plan".to_string())
    );
    assert_eq!(store.backfill_portable_aliases(&message, "plan", "", &prior).unwrap(), 0);
}

#[test]
fn records_reasoning_and_restores_original_model_name() {
    let mut store = MemoryReasoningStore::new(None, None);
    let body = br#"{
        "id": "chatcmpl",
        "object": "chat.completion",
        "model": "deepseek-v4-pro",
        "choices": [{
            "index": 0,
            "finish_reason": "stop",
            "message": {
                "role": "assistant",
                "content": "Final.",
                "reasoning_content": "Done thinking."
            }
        }]
    }"#;
    let request_messages = vec![text_message("user", "hi")];
    let rewritten = rewrite_response_body(
        body,
        "deepseek-v4-pro",
        Some(&mut store),
        &request_messages,
        "",
        None,
        false,
        true,
    )
    .unwrap();
    let payload: Value = serde_json::from_slice(&rewritten).unwrap();
    assert_eq!(payload["model"], "deepseek-v4-pro");
    let message = deepseek_cursor_proxy_rust::protocol::normalize::normalize_message(
        &rdoc_from_value(&payload["choices"][0]["message"]),
        true,
    );
    let stored = store
        .get(&format!(
            "scope:{}:signature:{}",
            conversation_scope(&request_messages, ""),
            message_signature(&message)
        ))
        .unwrap();
    assert_eq!(stored, Some("Done thinking.".to_string()));
}

#[test]
fn recovery_notice_is_prefixed_into_response_content() {
    let mut store = MemoryReasoningStore::new(None, None);
    let body = br#"{
        "id": "chatcmpl",
        "object": "chat.completion",
        "model": "deepseek-v4-pro",
        "choices": [{
            "index": 0,
            "finish_reason": "stop",
            "message": {"role": "assistant", "content": "Final."}
        }]
    }"#;
    let rewritten = rewrite_response_body(
        body,
        "deepseek-v4-pro",
        Some(&mut store),
        &[text_message("user", "hi")],
        "",
        Some("[deepseek-cursor-proxy] Refreshed reasoning_content history.\n\n"),
        false,
        true,
    )
    .unwrap();
    let payload: Value = serde_json::from_slice(&rewritten).unwrap();
    assert!(payload["choices"][0]["message"]["content"]
        .as_str()
        .unwrap()
        .starts_with("[deepseek-cursor-proxy] Refreshed reasoning_content history."));
}

#[test]
fn preserves_usage_fields_and_can_display_reasoning() {
    let mut store = MemoryReasoningStore::new(None, None);
    let body = br#"{
        "id": "chatcmpl",
        "object": "chat.completion",
        "model": "deepseek-v4-pro",
        "choices": [{
            "index": 0,
            "finish_reason": "stop",
            "message": {
                "role": "assistant",
                "content": "ok",
                "reasoning_content": "plan"
            }
        }],
        "usage": {
            "prompt_tokens": 10,
            "prompt_cache_hit_tokens": 6,
            "prompt_cache_miss_tokens": 4,
            "completion_tokens": 1,
            "total_tokens": 11
        }
    }"#;
    let rewritten = rewrite_response_body(
        body,
        "deepseek-v4-flash",
        Some(&mut store),
        &[],
        "",
        None,
        true,
        true,
    )
    .unwrap();
    let payload: Value = serde_json::from_slice(&rewritten).unwrap();
    assert_eq!(payload["usage"]["prompt_cache_hit_tokens"], 6);
    assert_eq!(payload["usage"]["prompt_cache_miss_tokens"], 4);
    assert!(payload["choices"][0]["message"]["content"].as_str().unwrap().contains("Thinking"));
    assert_eq!(payload["model"], "deepseek-v4-flash");
}

#[test]
fn response_that_is_not_json_is_an_upstream_error() {
    let mut store = MemoryReasoningStore::new(None, None);
    let error = rewrite_response_body(b"{", "m", Some(&mut store), &[], "", None, false, true).unwrap_err();
    match error {
        deepseek_cursor_proxy_rust::error::AppError::Upstream(message) => assert!(!message.is_empty()),
        other => panic!("unexpected error {other:?}"),
    }
}

#[test]
fn recording_without_store_or_choices_keeps_nothing() {
    let payload = rdoc(r#"{"choices": [{"message": {"role": "assistant", "content": "a", "reasoning_content": "r"}}]}"#);
    assert_eq!(
        record_response_reasoning::<MemoryReasoningStore>(&payload, None, &[], "", None, None).unwrap(),
        0
    );
    let mut store = MemoryReasoningStore::new(None, None);
    assert_eq!(
        record_response_reasoning(&rdoc(r#"{"id": "x"}"#), Some(&mut store), &[], "", None, None).unwrap(),
        0
    );
    assert_eq!(
        record_response_reasoning(&payload, Some(&mut store), &[], "", Some("s"), None).unwrap(),
        1
    );
}
