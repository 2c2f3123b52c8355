//! What the proxy answers: health and model listings, and the decisions of a
//! chat completion request, from its headers and body to the reply.
use vstd::prelude::*;
use crate::config::AppConfig;
use crate::error::{AppError, error_message};
use crate::http::upstream::{chat_completions_endpoint, chat_completions_url};
use crate::json::{
    Json, JsonMap, JsonValue, encode_bytes, json_bytes, json_parse, map_get, members_view, obj_get,
    parse_json,
};
use crate::protocol::model::{Message, MessageView};
use crate::protocol::normalize::{messages_from_json, normalize_messages};
use crate::protocol::response_rewrite::{recorded_cache, response_choices, rewrite_response_body, rewritten_payload};
use crate::reasoning::keys::scope_of;
use crate::protocol::transform::{PreparedRequest, prepare_upstream_request, prepared_payload};
use crate::reasoning::store::ReasoningStore;
use crate::text::{concat, decimal, owned, u64_decimal};

verus! {

/// An error answer: its status and message.
#[derive(Debug, PartialEq)]
pub struct ErrorReply {
    pub status: u16,
    pub message: String,
}

/// The body of an error answer: `{"error": {"message": ...}}`.
pub open spec fn error_body(message: Seq<char>) -> Json {
    Json::Object(seq![("error"@, Json::Object(seq![("message"@, Json::Str(message))]))])
}

/// The body of an error answer.
pub fn json_error_body(message: &str) -> (r: JsonValue)
    ensures
        r@ == error_body(message@),
{
    let mut inner: JsonMap = Vec::new();
    inner.push((owned("message"), JsonValue::string(message)));
    let mut outer: JsonMap = Vec::new();
    assert(members_view(inner@) =~= seq![("message"@, Json::Str(message@))]);
    outer.push((owned("error"), JsonValue::Object(inner)));
    assert(members_view(outer@) =~= seq![("error"@, Json::Object(seq![("message"@, Json::Str(message@))]))]);
    JsonValue::Object(outer)
}

/// The health answer: `{"ok": true}`.
pub fn healthz() -> (r: JsonValue)
    ensures
        r@ == Json::Object(seq![("ok"@, Json::Bool(true))]),
{
    let mut m: JsonMap = Vec::new();
    m.push((owned("ok"), JsonValue::Bool(true)));
    assert(members_view(m@) =~= seq![("ok"@, Json::Bool(true))]);
    JsonValue::Object(m)
}

/// One entry of the model list.
pub open spec fn model_entry(id: Seq<char>, created: u64) -> Json {
    Json::Object(
        seq![
            ("id"@, Json::Str(id)),
            ("object"@, Json::Str("model"@)),
            ("created"@, Json::Number(decimal(created as nat))),
            ("owned_by"@, Json::Str("deepseek"@)),
        ],
    )
}

/// The model list: the configured model, then the two DeepSeek models.
pub open spec fn model_list(upstream_model: Seq<char>, created: u64) -> Json {
    Json::Object(
        seq![
            ("object"@, Json::Str("list"@)),
            ("data"@, Json::Array(seq![
                model_entry(upstream_model, created),
                model_entry("deepseek-v4-pro"@, created),
                model_entry("deepseek-v4-flash"@, created),
            ])),
        ],
    )
}

fn model_entry_json(id: &str, created: u64) -> (r: JsonValue)
    ensures
        r@ == model_entry(id@, created),
{
    let mut m: JsonMap = Vec::new();
    m.push((owned("id"), JsonValue::string(id)));
    m.push((owned("object"), JsonValue::string("model")));
    m.push((owned("created"), JsonValue::Number(u64_decimal(created))));
    m.push((owned("owned_by"), JsonValue::string("deepseek")));
    assert(members_view(m@) =~= model_entry(id@, created)->Object_0);
    JsonValue::Object(m)
}

/// The model list answer, with the time it was made (seconds since the epoch).
pub fn models(upstream_model: &str, created: u64) -> (r: JsonValue)
    ensures
        r@ == model_list(upstream_model@, created),
{
    let data = vec![
        model_entry_json(upstream_model, created),
        model_entry_json("deepseek-v4-pro", created),
        model_entry_json("deepseek-v4-flash", created),
    ];
    assert(crate::json::items_view(data@) =~= seq![
        model_entry(upstream_model@, created),
        model_entry("deepseek-v4-pro"@, created),
        model_entry("deepseek-v4-flash"@, created),
    ]);
    let mut m: JsonMap = Vec::new();
    m.push((owned("object"), JsonValue::string("list")));
    m.push((owned("data"), JsonValue::Array(data)));
    assert(members_view(m@) =~= model_list(upstream_model@, created)->Object_0);
    JsonValue::Object(m)
}

/// Whether a header byte is allowed in header text: visible ASCII or a tab.
pub open spec fn is_header_text_byte(b: u8) -> bool {
    (32 <= b && b < 127) || b == 9
}

/// A byte with ASCII capitals made lower case.
pub open spec fn lower_byte(b: u8) -> u8 {
    if 65 <= b && b <= 90 {
        (b + 32) as u8
    } else {
        b
    }
}

/// Whether an `Authorization` header carries a bearer token: it is header
/// text whose first seven bytes read `bearer ` in any case.
pub open spec fn is_bearer(header: Seq<u8>) -> bool {
    &&& forall|i: int| 0 <= i < header.len() ==> is_header_text_byte(#[trigger] header[i])
    &&& header.len() >= 7
    &&& header.take(7).map_values(|b: u8| lower_byte(b)) == seq![98u8, 101u8, 97u8, 114u8, 101u8, 114u8, 32u8]
}

/// Whether a request's `Authorization` header, if any, carries a bearer token.
pub open spec fn bearer_header(header: Option<&[u8]>) -> bool {
    match header {
        Some(h) => is_bearer(h@),
        None => false,
    }
}

/// Whether an `Authorization` header's bytes carry a bearer token.
fn is_bearer_bytes(h: &[u8]) -> (r: bool)
    ensures
        r == is_bearer(h@),
{
    let mut i: usize = 0;
    while i < h.len()
        invariant
            i <= h.len(),
            forall|j: int| 0 <= j < i ==> is_header_text_byte(#[trigger] h@[j]),
        decreases h.len() - i,
    {
        let b = h[i];
        if !((32u8 <= b && b < 127u8) || b == 9u8) {
            assert(!is_header_text_byte(h@[i as int]));
            return false;
        }
        i = i + 1;
    }
    if h.len() < 7 {
        return false;
    }
    let expected: Vec<u8> = vec![98u8, 101u8, 97u8, 114u8, 101u8, 114u8, 32u8];
    let mut k: usize = 0;
    while k < 7
        invariant
            k <= 7,
            h.len() >= 7,
            expected@ == seq![98u8, 101u8, 97u8, 114u8, 101u8, 114u8, 32u8],
            forall|j: int| 0 <= j < k ==> lower_byte(#[trigger] h@[j]) == expected@[j],
        decreases 7 - k,
    {
        let b = h[k];
        let lower: u8 = if 65u8 <= b && b <= 90u8 {
            b + 32
        } else {
            b
        };
        assert(lower == lower_byte(h@[k as int]));
        if lower != expected[k] {
            assert(h@.take(7).map_values(|b: u8| lower_byte(b))[k as int] == lower_byte(h@[k as int]));
            assert(h@.take(7).map_values(|b: u8| lower_byte(b)) != expected@);
            return false;
        }
        k = k + 1;
    }
    assert(h@.take(7).map_values(|b: u8| lower_byte(b)) =~= expected@);
    true
}

/// Whether the request carries a bearer token.
pub fn bearer_authorized(header: Option<&[u8]>) -> (r: bool)
    ensures
        r == bearer_header(header),
{
    match header {
        Some(h) => is_bearer_bytes(h),
        None => false,
    }
}

/// The error answer for a request without a bearer token.
pub open spec fn unauthorized_reply(r: ErrorReply) -> bool {
    r.status == 401 && r.message@ == "Missing Authorization bearer token"@
}

/// What the proxy sends upstream for an accepted request.
pub struct ChatPlan {
    pub prepared: PreparedRequest,
    pub request_messages: Vec<Message>,
    pub upstream_url: String,
    pub upstream_body: Vec<u8>,
    pub stream: bool,
    pub trace_body: JsonValue,
}

/// Whether the messages of an upstream request keep their reasoning.
pub open spec fn keeps_reasoning(config: AppConfig) -> bool {
    config.thinking@ != "disabled"@
}

/// Decides what to do with a chat completion request: a request without a
/// bearer token is unauthorized; a body that is not JSON, or not a JSON
/// object, is a bad request; otherwise the request is prepared for upstream.
pub fn plan_chat_request(authorization: Option<&[u8]>, body: &[u8], config: &AppConfig) -> (r: Result<ChatPlan, ErrorReply>)
    ensures
        !bearer_header(authorization) ==> (r matches Err(e) && unauthorized_reply(e)),
        bearer_header(authorization) ==> match json_parse(body@) {
            Err(e) => r matches Err(reply) && reply.status == 400 && reply.message@ == "Invalid JSON: "@ + e,
            Ok(Json::Object(pm)) => r matches Ok(plan) && {
                &&& members_view(plan.prepared.payload@) == prepared_payload(pm, *config)
                &&& plan.prepared.original_model@ == crate::protocol::transform::original_model(pm, config.upstream_model@)
                &&& plan.request_messages@.map_values(|m: Message| m@) == messages_from_json(
                    match obj_get(prepared_payload(pm, *config), "messages"@) {
                        Some(v) => v,
                        None => Json::Array(Seq::empty()),
                    },
                    keeps_reasoning(*config),
                )
                &&& plan.upstream_url@ == chat_completions_endpoint(config.upstream_base_url@)
                &&& plan.upstream_body@ == json_bytes(Json::Object(prepared_payload(pm, *config)))
                &&& plan.stream == (obj_get(prepared_payload(pm, *config), "stream"@) == Some(Json::Bool(true)))
                &&& plan.trace_body@ == Json::Object(pm)
            },
            Ok(_) => r matches Err(reply) && reply.status == 400 && reply.message@
                == "Request body must be a JSON object"@,
        },
{
    if !bearer_authorized(authorization) {
        return Err(ErrorReply { status: 401, message: owned("Missing Authorization bearer token") });
    }
    let payload = match parse_json(body) {
        Ok(v) => v,
        Err(e) => {
            return Err(ErrorReply { status: 400, message: concat("Invalid JSON: ", e.as_str()) });
        },
    };
    let pm = match &payload {
        JsonValue::Object(pm) => pm,
        _ => {
            return Err(ErrorReply { status: 400, message: owned("Request body must be a JSON object") });
        },
    };
    let prepared = prepare_upstream_request(pm, config);
    let keep = !crate::text::str_eq(config.thinking.as_str(), "disabled");
    let request_messages = match map_get(&prepared.payload, "messages") {
        Some(m) => normalize_messages(m, keep),
        None => normalize_messages(&JsonValue::Array(Vec::new()), keep),
    };
    let stream = match map_get(&prepared.payload, "stream") {
        Some(JsonValue::Bool(b)) => *b,
        _ => false,
    };
    let upstream_url = chat_completions_url(config.upstream_base_url.as_str());
    let upstream_body = encode_bytes(&JsonValue::Object(crate::json::clone_map(&prepared.payload)));
    let trace_body = payload.deep_clone();
    Ok(ChatPlan { prepared, request_messages, upstream_url, upstream_body, stream, trace_body })
}

/// The answer to send for a request that failed on its way upstream.
pub fn upstream_request_failed(detail: &str) -> (r: ErrorReply)
    ensures
        r.status == 502 && r.message@ == "Upstream request failed: "@ + detail@,
{
    ErrorReply { status: 502, message: concat("Upstream request failed: ", detail) }
}

/// The answer to send when the upstream response could not be read.
pub fn upstream_read_failed(detail: &str) -> (r: ErrorReply)
    ensures
        r.status == 502 && r.message@ == "Failed reading upstream response: "@ + detail@,
{
    ErrorReply { status: 502, message: concat("Failed reading upstream response: ", detail) }
}

/// What the client gets for a complete upstream response.
pub enum ChatReply {
    /// An upstream failure passed on as it came, with upstream's status.
    Passed(u16),
    /// The rewritten response.
    Rewritten(Vec<u8>),
    /// The response could not be rewritten.
    Failed(ErrorReply),
}

/// Whether a status is a success (2xx).
pub open spec fn is_success(status: u16) -> bool {
    200 <= status && status < 300
}

/// Decides the answer to a complete upstream response: a failure status
/// passes the body on as it came; a success is rewritten for the client, its
/// reasoning kept, and a rewrite that fails is a bad gateway.
pub fn finish_chat_response<S: ReasoningStore>(
    plan: &ChatPlan,
    upstream_status: u16,
    body: &[u8],
    store: &mut S,
    config: &AppConfig,
) -> (r: ChatReply)
    ensures
        !is_success(upstream_status) ==> r == ChatReply::Passed(upstream_status) && final(store).cached()
            == old(store).cached(),
        final(store).keeps_all() == old(store).keeps_all(),
        final(store).infallible() == old(store).infallible(),
        is_success(upstream_status) ==> match json_parse(body@) {
            Err(e) => r matches ChatReply::Failed(reply) && reply.status == 502 && reply.message@
                == "Failed rewriting upstream response: "@ + ("upstream error: "@ + e),
            Ok(p) => old(store).infallible() ==> (r matches ChatReply::Rewritten(b) && b@ == json_bytes(
                rewritten_payload(
                    p,
                    plan.prepared.original_model@,
                    None,
                    config.display_reasoning,
                    config.collapsible_reasoning,
                ),
            )),
        },
        is_success(upstream_status) ==> r is Rewritten || r is Failed,
        r matches ChatReply::Rewritten(b) ==> json_parse(body@) matches Ok(p) && b@ == json_bytes(
            rewritten_payload(
                p,
                plan.prepared.original_model@,
                None,
                config.display_reasoning,
                config.collapsible_reasoning,
            ),
        ),
        r matches ChatReply::Failed(reply) ==> reply.status == 502 && exists|e: AppError|
            reply.message@ == "Failed rewriting upstream response: "@ + error_message(e),
        is_success(upstream_status) && r is Rewritten && old(store).keeps_all() ==> (json_parse(body@) matches Ok(p)
            && final(store).cached() == match response_choices(p) {
            Some(cs) => recorded_cache(
                old(store).cached(),
                cs,
                scope_of(plan.request_messages@.map_values(|m: Message| m@), ""@),
                ""@,
                plan.request_messages@.map_values(|m: Message| m@),
            ),
            None => old(store).cached(),
        }),
{
    if !(200 <= upstream_status && upstream_status < 300) {
        return ChatReply::Passed(upstream_status);
    }
    match rewrite_response_body(
        body,
        plan.prepared.original_model.as_str(),
        Some(store),
        plan.request_messages.as_slice(),
        "",
        None,
        config.display_reasoning,
        config.collapsible_reasoning,
    ) {
        Ok(b) => ChatReply::Rewritten(b),
        Err(e) => {
            let text = e.message();
            assert(text@ == error_message(e));
            ChatReply::Failed(ErrorReply { status: 502, message: concat("Failed rewriting upstream response: ", text.as_str()) })
        },
    }
}

/// The next complete line of a stream, taken off the front of the buffer
/// with its line break; none while the buffer holds no line break.
pub fn take_line(buffer: &mut Vec<u8>) -> (r: Option<Vec<u8>>)
    ensures
        match r {
            Some(line) => {
                &&& line@.len() > 0
                &&& line@.last() == 10u8
                &&& forall|i: int| 0 <= i < line@.len() - 1 ==> line@[i] != 10u8
                &&& old(buffer)@ == line@ + final(buffer)@
            },
            None => final(buffer)@ == old(buffer)@ && forall|i: int| 0 <= i < old(buffer)@.len() ==> old(buffer)@[i] != 10u8,
        },
{
    let mut i: usize = 0;
    while i < buffer.len()
        invariant
            i <= buffer.len(),
            buffer@ == old(buffer)@,
            forall|j: int| 0 <= j < i ==> buffer@[j] != 10u8,
        decreases buffer.len() - i,
    {
        if buffer[i] == 10u8 {
            let mut line = buffer.split_off(i + 1);
            std::mem::swap(&mut line, buffer);
            assert(old(buffer)@ =~= line@ + buffer@);
            return Some(line);
        }
        i = i + 1;
    }
    None
}

/// What is left to rewrite when the upstream stream ends: the unfinished
/// line, or the end of the stream when nothing is left.
pub fn closing_line(buffer: &Vec<u8>) -> (r: Vec<u8>)
    ensures
        buffer@.len() > 0 ==> r@ == buffer@,
        buffer@.len() == 0 ==> r@ == crate::http::sse::sse_event(crate::http::sse::done_data()),
{
    if buffer.len() > 0 {
        let mut out: Vec<u8> = Vec::new();
        let mut i: usize = 0;
        while i < buffer.len()
            invariant
                i <= buffer.len(),
                out@ == buffer@.take(i as int),
            decreases buffer.len() - i,
        {
            out.push(buffer[i]);
            i = i + 1;
            assert(out@ =~= buffer@.take(i as int));
        }
        assert(buffer@.take(buffer.len() as int) =~= buffer@);
        out
    } else {
        let r: Vec<u8> = vec![100u8, 97u8, 116u8, 97u8, 58u8, 32u8, 91u8, 68u8, 79u8, 78u8, 69u8, 93u8, 10u8, 10u8];
        assert(r@ =~= crate::http::sse::sse_event(crate::http::sse::done_data()));
        r
    }
}

} // verus!
