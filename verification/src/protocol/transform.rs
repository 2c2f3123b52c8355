//! The upstream request that the proxy makes of a client's request.
use vstd::prelude::*;
use crate::config::AppConfig;
use crate::json::{
    Json, JsonMap, JsonValue, clone_map, items_view, map_get, map_insert, map_remove,
    members_view, obj_get, obj_remove, obj_set, opt_array, opt_bool, opt_object, opt_str,
};
use crate::protocol::model::{
    Message, ThinkingConfig, messages_json, messages_to_json, thinking_json, tool_json,
};
use crate::protocol::normalize::{
    convert_function_call, effort_level, filter_supported_fields, function_call_choice,
    legacy_function_to_tool, messages_from_json, normalize_messages, normalize_reasoning_effort,
    normalize_tool, normalize_tool_choice, supported_members, tool_choice_normalized,
    tool_from_json,
};
use crate::text::{
    chars_from, chars_have_prefix, chars_of, has_prefix, owned, starts_with, str_eq,
    string_from_chars, trim_leading_line_breaks, trim_line_breaks_start,
};

verus! {

/// An upstream request, with the model names it was made with.
pub struct PreparedRequest {
    pub payload: JsonMap,
    pub original_model: String,
    pub upstream_model: String,
    pub patched_reasoning_messages: usize,
    pub missing_reasoning_messages: usize,
}

/// The model the client asked for, or the configured one when it named none.
pub open spec fn original_model(payload: Seq<(Seq<char>, Json)>, configured: Seq<char>) -> Seq<char> {
    match opt_str(obj_get(payload, "model"@)) {
        Some(m) => m,
        None => configured,
    }
}

/// The model sent upstream: the client's when it is a `deepseek-` model, the
/// configured one otherwise.
pub open spec fn upstream_model(payload: Seq<(Seq<char>, Json)>, configured: Seq<char>) -> Seq<char> {
    let original = original_model(payload, configured);
    if starts_with(original, "deepseek-"@) {
        original
    } else {
        configured
    }
}

/// `max_completion_tokens` passed on as `max_tokens` when the request gives
/// no `max_tokens`.
pub open spec fn with_max_tokens(p: Seq<(Seq<char>, Json)>, payload: Seq<(Seq<char>, Json)>) -> Seq<(Seq<char>, Json)> {
    if obj_get(p, "max_tokens"@) is Some {
        p
    } else {
        match obj_get(payload, "max_completion_tokens"@) {
            Some(v) => obj_set(p, "max_tokens"@, v),
            None => p,
        }
    }
}

/// A streaming request asks for usage in its stream options.
pub open spec fn with_stream_usage(p: Seq<(Seq<char>, Json)>) -> Seq<(Seq<char>, Json)> {
    if opt_bool(obj_get(p, "stream"@)) == Some(true) {
        let options = match opt_object(obj_get(p, "stream_options"@)) {
            Some(o) => o,
            None => Seq::empty(),
        };
        obj_set(p, "stream_options"@, Json::Object(obj_set(options, "include_usage"@, Json::Bool(true))))
    } else {
        p
    }
}

/// A tool of a request in the form it is sent upstream.
pub open spec fn normalized_tool_json(t: Json) -> Json {
    tool_json(tool_from_json(t).0, tool_from_json(t).1)
}

/// A legacy function in the form of a tool sent upstream.
pub open spec fn legacy_tool_json(f: Json) -> Json {
    tool_json("function"@, f)
}

/// The request's tools normalized, or its legacy functions as tools when it has
/// no tools array.
pub open spec fn with_tools(p: Seq<(Seq<char>, Json)>, payload: Seq<(Seq<char>, Json)>) -> Seq<(Seq<char>, Json)> {
    match opt_array(obj_get(p, "tools"@)) {
        Some(tools) => obj_set(
            p,
            "tools"@,
            Json::Array(tools.map_values(|t: Json| normalized_tool_json(t))),
        ),
        None => match opt_array(obj_get(payload, "functions"@)) {
            Some(functions) => obj_set(
                p,
                "tools"@,
                Json::Array(functions.map_values(|f: Json| legacy_tool_json(f))),
            ),
            None => p,
        },
    }
}

/// The request's tool choice normalized (dropped when it is an unknown mode),
/// or its legacy `function_call` as a tool choice when it has none.
pub open spec fn with_tool_choice(p: Seq<(Seq<char>, Json)>, payload: Seq<(Seq<char>, Json)>) -> Seq<(Seq<char>, Json)> {
    match obj_get(p, "tool_choice"@) {
        Some(tc) => match tool_choice_normalized(tc) {
            Some(v) => obj_set(p, "tool_choice"@, v),
            None => obj_remove(p, "tool_choice"@),
        },
        None => match obj_get(payload, "function_call"@) {
            Some(fc) => match function_call_choice(fc) {
                Some(c) => obj_set(p, "tool_choice"@, c),
                None => p,
            },
            None => p,
        },
    }
}

/// The configured thinking switch, and the configured reasoning effort when
/// thinking is enabled.
pub open spec fn with_thinking(p: Seq<(Seq<char>, Json)>, thinking: Seq<char>, effort: Seq<char>) -> Seq<(Seq<char>, Json)> {
    let p1 = obj_set(p, "thinking"@, thinking_json(thinking));
    if thinking == "enabled"@ {
        obj_set(p1, "reasoning_effort"@, Json::Str(effort_level(effort)))
    } else {
        p1
    }
}

/// The request's messages, normalized; reasoning is kept unless thinking is disabled.
pub open spec fn upstream_messages(payload: Seq<(Seq<char>, Json)>, thinking: Seq<char>) -> Seq<Json> {
    messages_json(
        messages_from_json(
            match obj_get(payload, "messages"@) {
                Some(m) => m,
                None => Json::Array(Seq::empty()),
            },
            thinking != "disabled"@,
        ),
    )
}

/// The upstream request body for a client's request: the supported fields, with
/// `max_tokens`, the upstream model, stream usage, tools, tool choice, the
/// thinking settings and the normalized messages put in, step by step.
pub open spec fn prepared_payload(payload: Seq<(Seq<char>, Json)>, config: AppConfig) -> Seq<(Seq<char>, Json)> {
    let p0 = supported_members(payload);
    let p1 = with_max_tokens(p0, payload);
    let p2 = obj_set(p1, "model"@, Json::Str(upstream_model(payload, config.upstream_model@)));
    let p3 = with_stream_usage(p2);
    let p4 = with_tools(p3, payload);
    let p5 = with_tool_choice(p4, payload);
    let p6 = with_thinking(p5, config.thinking@, config.reasoning_effort@);
    obj_set(p6, "messages"@, Json::Array(upstream_messages(payload, config.thinking@)))
}

fn put_max_tokens(p: &mut JsonMap, payload: &JsonMap)
    ensures
        members_view(final(p)@) == with_max_tokens(members_view(old(p)@), members_view(payload@)),
{
    if map_get(p, "max_tokens").is_none() {
        if let Some(v) = map_get(payload, "max_completion_tokens") {
            let copy = v.deep_clone();
            map_insert(p, owned("max_tokens"), copy);
        }
    }
}

fn put_stream_usage(p: &mut JsonMap)
    ensures
        members_view(final(p)@) == with_stream_usage(members_view(old(p)@)),
{
    let streaming = match map_get(p, "stream") {
        Some(v) => v.as_bool() == Some(true),
        None => false,
    };
    if streaming {
        let mut options: JsonMap = match map_get(p, "stream_options") {
            Some(v) => match v.as_object() {
                Some(o) => clone_map(o),
                None => Vec::new(),
            },
            None => Vec::new(),
        };
        assert(members_view(options@) == match opt_object(obj_get(members_view(p@), "stream_options"@)) {
            Some(o) => o,
            None => Seq::<(Seq<char>, Json)>::empty(),
        }) by {
            if !(opt_object(obj_get(members_view(p@), "stream_options"@)) is Some) {
                assert(members_view(options@) =~= Seq::<(Seq<char>, Json)>::empty());
            }
        }
        map_insert(&mut options, owned("include_usage"), JsonValue::Bool(true));
        map_insert(p, owned("stream_options"), JsonValue::Object(options));
    }
}

fn put_tools(p: &mut JsonMap, payload: &JsonMap)
    ensures
        members_view(final(p)@) == with_tools(members_view(old(p)@), members_view(payload@)),
{
    let tools = match map_get(p, "tools") {
        Some(v) => match v.as_array() {
            Some(a) => {
                let mut out: Vec<JsonValue> = Vec::new();
                let mut i: usize = 0;
                while i < a.len()
                    invariant
                        i <= a.len(),
                        out@.len() == i,
                        forall|j: int| 0 <= j < i ==> out@[j]@ == normalized_tool_json(a@[j]@),
                    decreases a.len() - i,
                {
                    let tool = normalize_tool(&a[i]);
                    out.push(tool.to_json());
                    i = i + 1;
                }
                assert(items_view(out@) =~= items_view(a@).map_values(
                    |t: Json| normalized_tool_json(t),
                ));
                Some(out)
            },
            None => None,
        },
        None => None,
    };
    match tools {
        Some(t) => {
            map_insert(p, owned("tools"), JsonValue::Array(t));
        },
        None => {
            let functions = match map_get(payload, "functions") {
                Some(v) => match v.as_array() {
                    Some(a) => {
                        let mut out: Vec<JsonValue> = Vec::new();
                        let mut i: usize = 0;
                        while i < a.len()
                            invariant
                                i <= a.len(),
                                out@.len() == i,
                                forall|j: int| 0 <= j < i ==> out@[j]@ == legacy_tool_json(a@[j]@),
                            decreases a.len() - i,
                        {
                            let tool = legacy_function_to_tool(&a[i]);
                            out.push(tool.to_json());
                            i = i + 1;
                        }
                        assert(items_view(out@) =~= items_view(a@).map_values(
                            |f: Json| legacy_tool_json(f),
                        ));
                        Some(out)
                    },
                    None => None,
                },
                None => None,
            };
            if let Some(f) = functions {
                map_insert(p, owned("tools"), JsonValue::Array(f));
            }
        },
    }
}

fn put_tool_choice(p: &mut JsonMap, payload: &JsonMap)
    ensures
        members_view(final(p)@) == with_tool_choice(members_view(old(p)@), members_view(payload@)),
{
    let current = match map_get(p, "tool_choice") {
        Some(tc) => Some(normalize_tool_choice(tc)),
        None => None,
    };
    match current {
        Some(Some(v)) => {
            map_insert(p, owned("tool_choice"), v);
        },
        Some(None) => {
            let _ = map_remove(p, "tool_choice");
        },
        None => {
            if let Some(fc) = map_get(payload, "function_call") {
                if let Some(c) = convert_function_call(fc) {
                    map_insert(p, owned("tool_choice"), c);
                }
            }
        },
    }
}

fn put_thinking(p: &mut JsonMap, config: &AppConfig)
    ensures
        members_view(final(p)@) == with_thinking(
            members_view(old(p)@),
            config.thinking@,
            config.reasoning_effort@,
        ),
{
    let thinking = ThinkingConfig { kind: config.thinking.clone() };
    map_insert(p, owned("thinking"), thinking.to_json());
    if str_eq(config.thinking.as_str(), "enabled") {
        let effort = normalize_reasoning_effort(config.reasoning_effort.as_str());
        map_insert(p, owned("reasoning_effort"), JsonValue::string(effort));
    }
}

/// The messages of a request, normalized as they are sent upstream.
pub fn request_messages(payload: &JsonMap, config: &AppConfig) -> (r: Vec<Message>)
    ensures
        r@.map_values(|m: Message| m@) == messages_from_json(
            match obj_get(members_view(payload@), "messages"@) {
                Some(m) => m,
                None => Json::Array(Seq::empty()),
            },
            config.thinking@ != "disabled"@,
        ),
{
    let keep = !str_eq(config.thinking.as_str(), "disabled");
    match map_get(payload, "messages") {
        Some(m) => normalize_messages(m, keep),
        None => {
            let items: Vec<JsonValue> = Vec::new();
            assert(items_view(items@) =~= Seq::empty());
            let empty = JsonValue::Array(items);
            normalize_messages(&empty, keep)
        },
    }
}

/// The upstream request for a client's request.
pub fn prepare_upstream_request(payload: &JsonMap, config: &AppConfig) -> (r: PreparedRequest)
    ensures
        r.original_model@ == original_model(members_view(payload@), config.upstream_model@),
        r.upstream_model@ == upstream_model(members_view(payload@), config.upstream_model@),
        members_view(r.payload@) == prepared_payload(members_view(payload@), *config),
        r.patched_reasoning_messages == 0,
        r.missing_reasoning_messages == 0,
{
    let original = match map_get(payload, "model") {
        Some(v) => match v.as_str() {
            Some(s) => owned(s),
            None => config.upstream_model.clone(),
        },
        None => config.upstream_model.clone(),
    };
    let upstream = if has_prefix(original.as_str(), "deepseek-") {
        original.clone()
    } else {
        config.upstream_model.clone()
    };
    let mut prepared = filter_supported_fields(payload);
    put_max_tokens(&mut prepared, payload);
    map_insert(&mut prepared, owned("model"), JsonValue::Str(upstream.clone()));
    put_stream_usage(&mut prepared);
    put_tools(&mut prepared, payload);
    put_tool_choice(&mut prepared, payload);
    put_thinking(&mut prepared, config);
    let messages = request_messages(payload, config);
    let encoded = messages_to_json(messages.as_slice());
    proof {
        assert(messages@.map_values(|m: Message| m@) =~= crate::protocol::model::messages_view(
            messages@,
        ));
    }
    map_insert(&mut prepared, owned("messages"), JsonValue::Array(encoded));
    PreparedRequest {
        payload: prepared,
        original_model: original,
        upstream_model: upstream,
        patched_reasoning_messages: 0,
        missing_reasoning_messages: 0,
    }
}

/// The notice that marks assistant content whose reasoning history was refreshed.
pub const RECOVERY_NOTICE_TEXT: &'static str = "[deepseek-cursor-proxy] Refreshed reasoning_content history.";
/// The notice as it is put before content.
pub const RECOVERY_NOTICE_CONTENT: &'static str = "[deepseek-cursor-proxy] Refreshed reasoning_content history.\n\n";

/// A message with a leading recovery notice taken out of assistant content,
/// with the line breaks after it.
pub open spec fn recovery_stripped(m: Json) -> Json {
    match m {
        Json::Object(o) => if opt_str(obj_get(o, "role"@)) == Some("assistant"@) {
            match opt_str(obj_get(o, "content"@)) {
                Some(c) => if starts_with(c, RECOVERY_NOTICE_TEXT@) {
                    Json::Object(
                        obj_set(
                            o,
                            "content"@,
                            Json::Str(
                                trim_leading_line_breaks(c.skip(RECOVERY_NOTICE_TEXT@.len() as int)),
                            ),
                        ),
                    )
                } else {
                    m
                },
                None => m,
            }
        } else {
            m
        },
        _ => m,
    }
}

fn strip_one_notice(message: &JsonValue) -> (r: JsonValue)
    ensures
        r@ == recovery_stripped(message@),
{
    if let JsonValue::Object(o) = message {
        let is_assistant = match map_get(o, "role") {
            Some(v) => match v.as_str() {
                Some(s) => str_eq(s, "assistant"),
                None => false,
            },
            None => false,
        };
        if is_assistant {
            if let Some(JsonValue::Str(content)) = map_get(o, "content") {
                let c = chars_of(content.as_str());
                let notice = chars_of(RECOVERY_NOTICE_TEXT);
                if chars_have_prefix(&c, &notice) {
                    let rest = chars_from(&c, notice.len());
                    let rest_text = string_from_chars(rest.as_slice());
                    let cleaned_text = trim_line_breaks_start(rest_text.as_str());
                    let mut cleaned = clone_map(o);
                    map_insert(&mut cleaned, owned("content"), JsonValue::Str(cleaned_text));
                    return JsonValue::Object(cleaned);
                }
            }
        }
    }
    message.deep_clone()
}

/// Copies of messages with leading recovery notices taken out of assistant content.
pub fn strip_recovery_notice_for_upstream(messages: &[JsonValue]) -> (r: Vec<JsonValue>)
    ensures
        items_view(r@) == items_view(messages@).map_values(|m: Json| recovery_stripped(m)),
{
    let mut out: Vec<JsonValue> = Vec::new();
    let mut i: usize = 0;
    while i < messages.len()
        invariant
            i <= messages.len(),
            out@.len() == i,
            forall|j: int| 0 <= j < i ==> out@[j]@ == recovery_stripped(messages@[j]@),
        decreases messages.len() - i,
    {
        out.push(strip_one_notice(&messages[i]));
        i = i + 1;
    }
    assert(items_view(out@) =~= items_view(messages@).map_values(|m: Json| recovery_stripped(m)));
    out
}

} // verus!
