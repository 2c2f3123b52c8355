use deepseek_cursor_proxy_rust::config::AppConfig;
use deepseek_cursor_proxy_rust::http::handlers::{
    ChatReply, bearer_authorized, closing_line, finish_chat_response, healthz, json_error_body,
    models, plan_chat_request, take_line, upstream_read_failed, upstream_request_failed,
};
use deepseek_cursor_proxy_rust::http::routes::{registered_route_count, route_paths};
use deepseek_cursor_proxy_rust::http::sse::{
    CursorReasoningDisplayAdapter, StreamAccumulator, StreamingChoice, rewrite_sse_line, sse_data,
};
use deepseek_cursor_proxy_rust::http::upstream::chat_completions_url;
use deepseek_cursor_proxy_rust::json::JsonValue;
use deepseek_cursor_proxy_rust::protocol::model::Message;
use deepseek_cursor_proxy_rust::reasoning::keys::{conversation_scope, message_signature};
use deepseek_cursor_proxy_rust::reasoning::store::{MemoryReasoningStore, ReasoningStore};
use serde_json::Value;

fn hdoc_from_value(v: &Value) -> JsonValue {
    match v {
        Value::Null => JsonValue::Null,
        Value::Bool(b) => JsonValue::Bool(*b),
        Value::Number(n) => JsonValue::Number(n.to_string()),
        Value::String(s) => JsonValue::Str(s.clone()),
        Value::Array(a) => JsonValue::Array(a.iter().map(hdoc_from_value).collect()),
        Value::Object(m) => {
            JsonValue::Object(m.iter().map(|(k, v)| (k.clone(), hdoc_from_value(v))).collect())
        }
    }
}

fn hvalue_from_doc(v: &JsonValue) -> Value {
    match v {
        JsonValue::Null => Value::Null,
        JsonValue::Bool(b) => Value::Bool(*b),
        JsonValue::Number(n) => serde_json::from_str(n).unwrap(),
        JsonValue::Str(s) => Value::String(s.clone()),
        JsonValue::Array(a) => Value::Array(a.iter().map(hvalue_from_doc).collect()),
        JsonValue::Object(m) => {
            Value::Object(m.iter().map(|(k, v)| (k.clone(), hvalue_from_doc(v))).collect())
        }
    }
}

fn hdoc(text: &str) -> JsonValue {
    hdoc_from_value(&serde_json::from_str(text).unwrap())
}

fn user_hi() -> Vec<Message> {
    vec![Message {
        role: "user".to_string(),
        content: Some(JsonValue::Str("hi".to_string())),
        ..Message::default()
    }]
}

#[test]
fn joins_base_url_and_path() {
    assert_eq!(
        chat_completions_url("https://api.deepseek.com"),
        "https://api.deepseek.com/chat/completions"
    );
    assert_eq!(
        chat_completions_url("https://api.deepseek.com/"),
        "https://api.deepseek.com/chat/completions"
    );
}

#[test]
fn joins_base_url_with_several_trailing_slashes() {
    assert_eq!(chat_completions_url("http://h///"), "http://h/chat/completions");
}

#[test]
fn exposes_expected_placeholder_handler_name() {
    let _ = healthz;
}

#[test]
fn registers_the_six_routes() {
    assert_eq!(registered_route_count(), 6);
    let paths = route_paths();
    assert!(paths.contains(&"/v1/chat/completions"));
    assert!(paths.contains(&"/healthz"));
}

#[test]
fn health_and_models_routes_work() {
    assert_eq!(hvalue_from_doc(&healthz())["ok"], true);
    let list = hvalue_from_doc(&models("deepseek-v4-pro", 7));
    assert_eq!(list["object"], "list");
    assert_eq!(list["data"][0]["id"], "deepseek-v4-pro");
    assert_eq!(list["data"][2]["id"], "deepseek-v4-flash");
    assert_eq!(list["data"][1]["created"], 7);
    assert_eq!(list["data"][1]["owned_by"], "deepseek");
}

#[test]
fn error_bodies_carry_the_message() {
    assert_eq!(hvalue_from_doc(&json_error_body("boom"))["error"]["message"], "boom");
    let failed = upstream_request_failed("refused");
    assert_eq!(failed.status, 502);
    assert_eq!(failed.message, "Upstream request failed: refused");
    assert_eq!(upstream_read_failed("eof").message, "Failed reading upstream response: eof");
}

#[test]
fn chat_completion_requires_bearer_token() {
    let body = br#"{"model":"deepseek-v4-pro","messages":[]}"#;
    let reply = plan_chat_request(None, body, &AppConfig::default()).err().unwrap();
    assert_eq!(reply.status, 401);
    assert_eq!(reply.message, "Missing Authorization bearer token");
    let reply = plan_chat_request(Some(b"Basic abc"), body, &AppConfig::default()).err().unwrap();
    assert_eq!(reply.status, 401);
}

#[test]
fn chat_completion_rejects_invalid_json() {
    let reply = plan_chat_request(Some(b"Bearer test-key"), b"{", &AppConfig::default()).err().unwrap();
    assert_eq!(reply.status, 400);
    assert!(reply.message.starts_with("Invalid JSON: "));
    let reply = plan_chat_request(Some(b"Bearer test-key"), b"[1]", &AppConfig::default()).err().unwrap();
    assert_eq!(reply.status, 400);
    assert_eq!(reply.message, "Request body must be a JSON object");
}

#[test]
fn bearer_check_ignores_case_and_needs_header_text() {
    assert!(bearer_authorized(Some(b"bearer x")));
    assert!(bearer_authorized(Some(b"BEARER x")));
    assert!(!bearer_authorized(Some(b"Bearer")));
    assert!(!bearer_authorized(Some(b"Bearer \x01")));
    assert!(!bearer_authorized(None));
}

#[test]
fn accepted_request_is_planned_for_upstream() {
    let config = AppConfig::default();
    let plan = plan_chat_request(
        Some(b"Bearer k"),
        br#"{"model":"gpt-4","stream":true,"messages":[{"role":"user","content":"hi"}]}"#,
        &config,
    )
    .ok()
    .unwrap();
    assert!(plan.stream);
    assert_eq!(plan.upstream_url, "https://api.deepseek.com/chat/completions");
    assert_eq!(plan.prepared.original_model, "gpt-4");
    assert_eq!(plan.request_messages.len(), 1);
    let sent: Value = serde_json::from_slice(&plan.upstream_body).unwrap();
    assert_eq!(sent["model"], "deepseek-v4-pro");
    assert_eq!(sent["stream_options"]["include_usage"], true);
}

#[test]
fn completed_response_is_rewritten_or_passed() {
    let config = AppConfig::default();
    let plan = plan_chat_request(
        Some(b"Bearer k"),
        br#"{"model":"my-model","messages":[{"role":"user","content":"hi"}]}"#,
        &config,
    )
    .ok()
    .unwrap();
    let mut store = MemoryReasoningStore::new(None, None);
    match finish_chat_response(&plan, 500, b"{\"error\":1}", &mut store, &config) {
        ChatReply::Passed(status) => assert_eq!(status, 500),
        _ => panic!("expected the failure to pass through"),
    }
    let body = br#"{"model":"deepseek-v4-pro","choices":[{"message":{"role":"assistant","content":"ok","reasoning_content":"r"}}]}"#;
    match finish_chat_response(&plan, 200, body, &mut store, &config) {
        ChatReply::Rewritten(bytes) => {
            let v: Value = serde_json::from_slice(&bytes).unwrap();
            assert_eq!(v["model"], "my-model");
            assert!(v["choices"][0]["message"]["content"].as_str().unwrap().ends_with("ok"));
        }
        _ => panic!("expected a rewritten response"),
    }
    match finish_chat_response(&plan, 200, b"not json", &mut store, &config) {
        ChatReply::Failed(reply) => {
            assert_eq!(reply.status, 502);
            assert!(reply.message.starts_with("Failed rewriting upstream response: upstream error: "));
        }
        _ => panic!("expected a failure"),
    }
}

#[test]
fn stream_buffer_yields_whole_lines() {
    let mut buffer = b"data: a\ndata: b\npartial".to_vec();
    assert_eq!(take_line(&mut buffer), Some(b"data: a\n".to_vec()));
    assert_eq!(take_line(&mut buffer), Some(b"data: b\n".to_vec()));
    assert_eq!(take_line(&mut buffer), None);
    assert_eq!(buffer, b"partial".to_vec());
    assert_eq!(closing_line(&buffer), b"partial".to_vec());
    assert_eq!(closing_line(&Vec::new()), b"data: [DONE]\n\n".to_vec());
}

#[test]
fn accumulator_collects_reasoning_and_tool_calls() {
    let mut accumulator = StreamAccumulator::default();
    accumulator.ingest_chunk(&hdoc(
        r#"{
            "choices": [{
                "index": 0,
                "delta": {
                    "role": "assistant",
                    "reasoning_content": "plan",
                    "tool_calls": [{
                        "index": 0,
                        "id": "call_1",
                        "type": "function",
                        "function": {"name": "lookup", "arguments": "{}"}
                    }]
                }
            }]
        }"#,
    ));
    let message = accumulator.choices.get(&0).unwrap().to_message();
    assert_eq!(message.reasoning_content.as_deref(), Some("plan"));
    assert_eq!(message.tool_calls.unwrap()[0].id.as_deref(), Some("call_1"));
}

#[test]
fn accumulator_appends_deltas_across_chunks() {
    let mut accumulator = StreamAccumulator::default();
    accumulator.ingest_chunk(&hdoc(
        r#"{"choices": [{"index": 1, "delta": {"content": "Hel", "reasoning_content": "a", "tool_calls": [{"index": 0, "function": {"name": "look", "arguments": "{\"q\""}}]}}]}"#,
    ));
    accumulator.ingest_chunk(&hdoc(
        r#"{"choices": [{"index": 1, "delta": {"content": "lo", "reasoning_content": "b", "tool_calls": [{"index": 0, "function": {"name": "up", "arguments": ":1}"}}]}, "finish_reason": "stop"}]}"#,
    ));
    let choice: &StreamingChoice = accumulator.choices.get(&1).unwrap();
    assert_eq!(choice.content, "Hello");
    assert_eq!(choice.reasoning_content, "ab");
    assert_eq!(choice.tool_calls[0].function.name, "lookup");
    assert_eq!(choice.tool_calls[0].function.arguments, "{\"q\":1}");
    assert_eq!(choice.finish_reason.as_deref(), Some("stop"));
    let message = choice.to_message();
    assert_eq!(message.role, "assistant");
    assert!(accumulator.choices.get(&0).is_none());
}

#[test]
fn display_adapter_mirrors_reasoning_into_content() {
    let mut chunk = hdoc(
        r#"{
            "id": "x",
            "object": "chat.completion.chunk",
            "created": 1,
            "model": "deepseek-v4-pro",
            "choices": [{
                "index": 0,
                "delta": { "reasoning_content": "plan" },
                "finish_reason": null
            }]
        }"#,
    );
    let mut adapter = CursorReasoningDisplayAdapter::new(true);
    adapter.rewrite_chunk(&mut chunk);
    assert!(hvalue_from_doc(&chunk)["choices"][0]["delta"]["content"]
        .as_str()
        .unwrap()
        .contains("Thinking"));
}

#[test]
fn display_adapter_closes_block_when_content_arrives_and_flushes_open_ones() {
    let mut adapter = CursorReasoningDisplayAdapter::new(false);
    let mut first = hdoc(r#"{"id": "c1", "choices": [{"index": 0, "delta": {"reasoning_content": "plan"}}, {"index": 1, "delta": {"reasoning_content": "other"}}]}"#);
    adapter.rewrite_chunk(&mut first);
    let first = hvalue_from_doc(&first);
    assert_eq!(first["choices"][0]["delta"]["content"], "<think>\nplan");
    let mut second = hdoc(r#"{"choices": [{"index": 0, "delta": {"content": "answer"}}]}"#);
    adapter.rewrite_chunk(&mut second);
    assert_eq!(hvalue_from_doc(&second)["choices"][0]["delta"]["content"], "\n</think>\n\nanswer");
    let mut bare = hdoc(r#"{"choices": [{"index": 0}]}"#);
    adapter.rewrite_chunk(&mut bare);
    assert_eq!(hvalue_from_doc(&bare)["choices"][0]["delta"], Value::Object(serde_json::Map::new()));
    let closing = hvalue_from_doc(&adapter.flush_chunk("m").unwrap());
    assert_eq!(closing["id"], "c1");
    assert_eq!(closing["object"], "chat.completion.chunk");
    assert_eq!(closing["created"], 0);
    assert_eq!(closing["model"], "m");
    assert_eq!(closing["choices"].as_array().unwrap().len(), 1);
    assert_eq!(closing["choices"][0]["index"], 1);
    assert_eq!(closing["choices"][0]["delta"]["content"], "\n</think>\n\n");
    assert!(adapter.flush_chunk("m").is_none());
}

#[test]
fn sse_data_frames_a_chunk() {
    assert_eq!(sse_data(&hdoc(r#"{"a":1}"#)), b"data: {\"a\":1}\n\n".to_vec());
}

#[test]
fn rewrite_sse_done_flushes_and_stores() {
    let mut store = MemoryReasoningStore::new(None, None);
    let mut accumulator = StreamAccumulator::default();
    let request_messages = user_hi();
    let mut adapter = CursorReasoningDisplayAdapter::new(true);
    let _ = rewrite_sse_line(
        br#"data: {"id":"x","object":"chat.completion.chunk","created":1,"model":"deepseek-v4-pro","choices":[{"index":0,"delta":{"role":"assistant","reasoning_content":"plan"},"finish_reason":null}]}
"#,
        "deepseek-v4-pro",
        &mut accumulator,
        "",
        &request_messages,
        &mut store,
        Some(&mut adapter),
    )
    .unwrap();
    let (done, finalized) = rewrite_sse_line(
        b"data: [DONE]\n\n",
        "deepseek-v4-pro",
        &mut accumulator,
        "",
        &request_messages,
        &mut store,
        Some(&mut adapter),
    )
    .unwrap();
    assert!(finalized);
    assert!(String::from_utf8(done).unwrap().contains("[DONE]"));
}

#[test]
fn streamed_reasoning_is_kept_and_model_name_restored() {
    let mut store = MemoryReasoningStore::new(None, None);
    let mut accumulator = StreamAccumulator::default();
    let request_messages = user_hi();
    let (line, finalized) = rewrite_sse_line(
        b"data: {\"model\":\"deepseek-v4-pro\",\"choices\":[{\"index\":0,\"delta\":{\"role\":\"assistant\",\"content\":\"Hi\",\"reasoning_content\":\"plan\"},\"finish_reason\":\"stop\"}]}\r\n",
        "client-model",
        &mut accumulator,
        "",
        &request_messages,
        &mut store,
        None,
    )
    .unwrap();
    assert!(!finalized);
    let text = String::from_utf8(line).unwrap();
    assert!(text.starts_with("data: "));
    assert!(text.ends_with("\n\n"));
    let chunk: Value = serde_json::from_str(text.trim_start_matches("data: ").trim_end()).unwrap();
    assert_eq!(chunk["model"], "client-model");
    let message = accumulator.choices.get(&0).unwrap().to_message();
    let key = format!(
        "scope:{}:signature:{}",
        conversation_scope(&request_messages, ""),
        message_signature(&message)
    );
    assert_eq!(store.get(&key).unwrap(), Some("plan".to_string()));
    let (done, finalized) = rewrite_sse_line(
        b"data: [DONE]",
        "client-model",
        &mut accumulator,
        "",
        &request_messages,
        &mut store,
        None,
    )
    .unwrap();
    assert!(finalized);
    assert_eq!(done, b"data: [DONE]\n\n".to_vec());
}

#[test]
fn non_data_and_unparsable_lines_pass_through() {
    let mut store = MemoryReasoningStore::new(None, None);
    let mut accumulator = StreamAccumulator::default();
    for line in [&b": keep-alive\n"[..], &b"event: ping\n"[..], &b"data: {broken\n"[..]] {
        let (out, finalized) =
            rewrite_sse_line(line, "m", &mut accumulator, "", &[], &mut store, None).unwrap();
        assert_eq!(out, line.to_vec());
        assert!(!finalized);
    }
    assert!(accumulator.choices.is_empty());
}

#[test]
fn stream_end_again_keeps_nothing_in_a_pruning_store() {
    let mut store = MemoryReasoningStore::new(None, Some(1));
    let mut accumulator = StreamAccumulator::default();
    let request_messages = user_hi();
    rewrite_sse_line(
        b"data: {\"choices\":[{\"index\":0,\"delta\":{\"role\":\"assistant\",\"content\":\"Hi\",\"reasoning_content\":\"plan\"}}]}\n",
        "m",
        &mut accumulator,
        "",
        &request_messages,
        &mut store,
        None,
    )
    .unwrap();
    let scope = conversation_scope(&request_messages, "");
    assert!(accumulator.store_reasoning(&mut store, &scope, "", &request_messages).unwrap() > 0);
    assert_eq!(accumulator.store_reasoning(&mut store, &scope, "", &request_messages).unwrap(), 0);
    assert_eq!(accumulator.store_ready_reasoning(&mut store, &scope, "", &request_messages).unwrap(), 0);
}

#[test]
fn stream_end_keeps_reasoning_once_for_lookup() {
    let mut store = MemoryReasoningStore::new(None, None);
    let mut accumulator = StreamAccumulator::default();
    let request_messages = user_hi();
    rewrite_sse_line(
        b"data: {\"choices\":[{\"index\":0,\"delta\":{\"role\":\"assistant\",\"content\":\"Hi\",\"reasoning_content\":\"pl\"}}]}\n",
        "m",
        &mut accumulator,
        "",
        &request_messages,
        &mut store,
        None,
    )
    .unwrap();
    rewrite_sse_line(
        b"data: {\"choices\":[{\"index\":0,\"delta\":{\"reasoning_content\":\"an\"}}]}\n",
        "m",
        &mut accumulator,
        "",
        &request_messages,
        &mut store,
        None,
    )
    .unwrap();
    let scope = conversation_scope(&request_messages, "");
    let kept = accumulator.store_reasoning(&mut store, &scope, "", &request_messages).unwrap();
    assert!(kept > 0);
    assert_eq!(accumulator.store_reasoning(&mut store, &scope, "", &request_messages).unwrap(), 0);
    let asked = Message {
        role: "assistant".to_string(),
        content: Some(JsonValue::Str("Hi".to_string())),
        ..Message::default()
    };
    assert_eq!(
        store.lookup_for_message(&asked, &scope, "", None).unwrap(),
        Some("plan".to_string())
    );
    store.clear().unwrap();
    assert_eq!(store.lookup_for_message(&asked, &scope, "", None).unwrap(), None);
}

#[test]
fn identified_tool_calls_are_kept_before_the_stream_ends() {
    let mut store = MemoryReasoningStore::new(None, None);
    let mut accumulator = StreamAccumulator::default();
    accumulator.ingest_chunk(&hdoc(
        r#"{"choices": [{"index": 0, "delta": {"role": "assistant", "reasoning_content": "r", "tool_calls": [{"index": 0, "id": "call_9", "function": {"name": "f", "arguments": "{}"}}]}}]}"#,
    ));
    let kept = accumulator.store_ready_reasoning(&mut store, "s", "", &[]).unwrap();
    assert!(kept > 0);
    assert_eq!(store.get("scope:s:tool_call:call_9").unwrap(), Some("r".to_string()));
    assert_eq!(accumulator.store_ready_reasoning(&mut store, "s", "", &[]).unwrap(), 0);
    assert!(accumulator.store_reasoning(&mut store, "s", "", &[]).unwrap() > 0);
}
