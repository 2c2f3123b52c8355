//! Normalization of OpenAI-style request parts into the forms DeepSeek accepts.
use vstd::prelude::*;
use crate::json::{
    Json, JsonMap, JsonValue, clone_map, encode_text, items_view, json_text, map_get,
    members_view, obj_get, opt_array, opt_bool, opt_object, opt_str,
};
use crate::pattern::{compile_pattern, regex_compiles, regex_replace_all, replace_all};
use crate::protocol::model::{Message, MessageView, Tool, ToolCall, ToolCallView, ToolFunction};
use crate::text::{
    ascii_lower, chars_of, concat, join, join_with, lower_chars, owned, str_eq,
    string_from_chars, texts_view, trim_chars, trim_leading_line_breaks, trim_line_breaks_start,
    trim_whitespace,
};

verus! {

/// Blocks of visible reasoning that clients echo back in assistant history:
/// `<think>`/`<thinking>` blocks and `<details>` blocks summarised "Thinking",
/// each with the whitespace after it, up to the end of the text when unclosed.
pub const THINKING_BLOCK_PATTERN: &'static str = r"(?is)(?:<(?:think|thinking)\b[^>]*>[\s\S]*?(?:</(?:think|thinking)>|\z)|<details\b[^>]*>\s*<summary\b[^>]*>\s*Thinking\s*</summary>[\s\S]*?(?:</details>|\z))\s*";

/// DeepSeek's reasoning effort for a requested one: `max` for `max` and
/// `xhigh` (in any ASCII case, around whitespace), `high` for anything else.
pub open spec fn effort_level(value: Seq<char>) -> Seq<char> {
    let t = ascii_lower(trim_whitespace(value));
    if t == "max"@ || t == "xhigh"@ {
        "max"@
    } else {
        "high"@
    }
}

/// DeepSeek's reasoning effort for a requested one.
pub fn normalize_reasoning_effort(value: &str) -> (r: &str)
    ensures
        r@ == effort_level(value@),
{
    let c = chars_of(value);
    let t = lower_chars(&trim_chars(&c));
    let ts = string_from_chars(t.as_slice());
    if str_eq(ts.as_str(), "max") || str_eq(ts.as_str(), "xhigh") {
        "max"
    } else {
        "high"
    }
}

/// The text that one element of a multi-part content array contributes, if any.
pub open spec fn content_part(item: Json) -> Option<Seq<char>> {
    match item {
        Json::Str(t) => Some(t),
        Json::Object(m) => {
            let item_type = opt_str(obj_get(m, "type"@));
            let text = match obj_get(m, "text"@) {
                Some(v) => v.as_str(),
                None => opt_str(obj_get(m, "content"@)),
            };
            if item_type == Some("text"@) || item_type == Some("input_text"@) {
                text
            } else if text is Some {
                text
            } else if item_type is Some {
                Some("["@ + item_type.unwrap() + " omitted by DeepSeek text proxy]"@)
            } else {
                None
            }
        },
        _ => Some(json_text(item)),
    }
}

/// The texts that the elements of a content array contribute, in order.
pub open spec fn content_parts(items: Seq<Json>) -> Seq<Seq<char>>
    decreases items.len(),
{
    if items.len() == 0 {
        Seq::empty()
    } else {
        let rest = content_parts(items.drop_last());
        match content_part(items.last()) {
            Some(p) => rest.push(p),
            None => rest,
        }
    }
}

/// The text of message content: none for `null`, a string as it is, the parts
/// of an array on lines of their own, and any other document as JSON text.
pub open spec fn text_content(content: Json) -> Option<Seq<char>> {
    match content {
        Json::Null => None,
        Json::Str(t) => Some(t),
        Json::Array(items) => Some(join(content_parts(items), "\n"@)),
        _ => Some(json_text(content)),
    }
}

fn member_str<'a>(m: &'a JsonMap, key: &str) -> (r: Option<&'a str>)
    ensures
        match r {
            Some(s) => opt_str(obj_get(members_view(m@), key@)) == Some(s@),
            None => opt_str(obj_get(members_view(m@), key@)) is None,
        },
{
    match map_get(m, key) {
        Some(v) => v.as_str(),
        None => None,
    }
}

fn extract_part(item: &JsonValue) -> (r: Option<String>)
    ensures
        match r {
            Some(s) => content_part(item@) == Some(s@),
            None => content_part(item@) is None,
        },
{
    match item {
        JsonValue::Str(t) => Some(t.clone()),
        JsonValue::Object(m) => {
            let item_type = member_str(m, "type");
            let text = match map_get(m, "text") {
                Some(v) => v.as_str(),
                None => member_str(m, "content"),
            };
            let typed_text = match item_type {
                Some(t) => str_eq(t, "text") || str_eq(t, "input_text"),
                None => false,
            };
            if typed_text {
                match text {
                    Some(t) => Some(owned(t)),
                    None => None,
                }
            } else if let Some(t) = text {
                Some(owned(t))
            } else if let Some(t) = item_type {
                let head = concat("[", t);
                Some(concat(head.as_str(), " omitted by DeepSeek text proxy]"))
            } else {
                None
            }
        },
        _ => Some(encode_text(item)),
    }
}

/// The text of message content.
pub fn extract_text_content(content: &JsonValue) -> (r: Option<String>)
    ensures
        match r {
            Some(s) => text_content(content@) == Some(s@),
            None => text_content(content@) is None,
        },
{
    match content {
        JsonValue::Null => None,
        JsonValue::Str(t) => Some(t.clone()),
        JsonValue::Array(items) => {
            let mut parts: Vec<String> = Vec::new();
            let mut i: usize = 0;
            while i < items.len()
                invariant
                    i <= items.len(),
                    texts_view(parts@) == content_parts(items_view(items@).take(i as int)),
                decreases items.len() - i,
            {
                let ghost before = items_view(items@).take(i as int);
                let part = extract_part(&items[i]);
                proof {
                    assert(items_view(items@).take(i + 1).drop_last() =~= before);
                }
                if let Some(p) = part {
                    parts.push(p);
                    assert(texts_view(parts@) =~= content_parts(items_view(items@).take(i + 1)));
                }
                i = i + 1;
            }
            assert(items_view(items@).take(items.len() as int) =~= items_view(items@));
            Some(join_with(&parts, "\n"))
        },
        _ => Some(encode_text(content)),
    }
}

/// The content with thinking blocks removed and the line breaks that then lead
/// it trimmed; the content as it is when the block pattern does not compile.
pub open spec fn thinking_stripped(content: Seq<char>) -> Seq<char> {
    if regex_compiles(THINKING_BLOCK_PATTERN@) {
        trim_leading_line_breaks(regex_replace_all(THINKING_BLOCK_PATTERN@, content, ""@))
    } else {
        content
    }
}

/// Removes the visible reasoning blocks that a client echoed into assistant content.
pub fn strip_cursor_thinking_blocks(content: &str) -> (r: String)
    ensures
        r@ == thinking_stripped(content@),
{
    match compile_pattern(THINKING_BLOCK_PATTERN) {
        Some(p) => {
            let replaced = replace_all(&p, content, "");
            trim_line_breaks_start(replaced.as_str())
        },
        None => owned(content),
    }
}

/// A tool call read from a client's message: its id, its type (`function`
/// when absent), and its function's name and arguments (arguments that are not
/// a string are kept as JSON text).
pub open spec fn tool_call_from_json(v: Json) -> ToolCallView {
    let function = opt_object(v.get("function"@));
    ToolCallView {
        id: opt_str(v.get("id"@)),
        tool_type: match opt_str(v.get("type"@)) {
            Some(t) => t,
            None => "function"@,
        },
        name: match function {
            Some(f) => match opt_str(obj_get(f, "name"@)) {
                Some(n) => n,
                None => Seq::empty(),
            },
            None => Seq::empty(),
        },
        arguments: match function {
            Some(f) => match obj_get(f, "arguments"@) {
                Some(Json::Str(t)) => t,
                Some(other) => json_text(other),
                None => Seq::empty(),
            },
            None => Seq::empty(),
        },
    }
}

/// Reads a tool call from a client's message.
pub fn normalize_tool_call(value: &JsonValue) -> (r: ToolCall)
    ensures
        r@ == tool_call_from_json(value@),
{
    let function = match value.get("function") {
        Some(f) => f.as_object(),
        None => None,
    };
    let arguments = match function {
        Some(f) => match map_get(f, "arguments") {
            Some(JsonValue::Str(t)) => t.clone(),
            Some(other) => encode_text(other),
            None => String::new(),
        },
        None => String::new(),
    };
    let name = match function {
        Some(f) => match member_str(f, "name") {
            Some(n) => owned(n),
            None => String::new(),
        },
        None => String::new(),
    };
    let id = match value.get("id") {
        Some(v) => match v.as_str() {
            Some(s) => Some(owned(s)),
            None => None,
        },
        None => None,
    };
    let tool_type = match value.get("type") {
        Some(v) => match v.as_str() {
            Some(s) => owned(s),
            None => owned("function"),
        },
        None => owned("function"),
    };
    ToolCall { id, tool_type, function: ToolFunction { name, arguments } }
}

/// The function that a tool gets when a request gives it none.
pub open spec fn default_tool_function() -> Json {
    Json::Object(
        seq![
            ("name"@, Json::Str(Seq::empty())),
            ("description"@, Json::Str(Seq::empty())),
            ("parameters"@, Json::Object(Seq::empty())),
        ],
    )
}

fn default_tool_function_value() -> (r: JsonValue)
    ensures
        r@ == default_tool_function(),
{
    let mut m: JsonMap = Vec::new();
    m.push((owned("name"), JsonValue::Str(String::new())));
    m.push((owned("description"), JsonValue::Str(String::new())));
    let params: JsonMap = Vec::new();
    assert(members_view(params@) =~= Seq::empty());
    m.push((owned("parameters"), JsonValue::Object(params)));
    assert(members_view(m@) =~= seq![
        ("name"@, Json::Str(Seq::empty())),
        ("description"@, Json::Str(Seq::empty())),
        ("parameters"@, Json::Object(Seq::empty())),
    ]);
    JsonValue::Object(m)
}

/// A tool read from a request: the type (`function` when absent) and function
/// of an object; an empty function tool for anything else.
pub open spec fn tool_from_json(v: Json) -> (Seq<char>, Json) {
    match v {
        Json::Object(m) => (
            match opt_str(obj_get(m, "type"@)) {
                Some(t) => t,
                None => "function"@,
            },
            match obj_get(m, "function"@) {
                Some(f) => f,
                None => default_tool_function(),
            },
        ),
        _ => ("function"@, default_tool_function()),
    }
}

/// Reads a tool from a request.
pub fn normalize_tool(value: &JsonValue) -> (r: Tool)
    ensures
        (r.tool_type@, r.function@) == tool_from_json(value@),
{
    match value {
        JsonValue::Object(m) => {
            let tool_type = match member_str(m, "type") {
                Some(t) => owned(t),
                None => owned("function"),
            };
            let function = match map_get(m, "function") {
                Some(f) => f.deep_clone(),
                None => default_tool_function_value(),
            };
            Tool { tool_type, function }
        },
        _ => Tool { tool_type: owned("function"), function: default_tool_function_value() },
    }
}

/// Turns a legacy `functions` entry into a function tool.
pub fn legacy_function_to_tool(value: &JsonValue) -> (r: Tool)
    ensures
        r.tool_type@ == "function"@,
        r.function@ == value@,
{
    Tool { tool_type: owned("function"), function: value.deep_clone() }
}

/// The tool-choice modes that are passed on by name.
pub open spec fn is_choice_mode(t: Seq<char>) -> bool {
    t == "auto"@ || t == "none"@ || t == "required"@
}

/// A tool choice that names one function.
pub open spec fn named_tool_choice(name: Seq<char>) -> Json {
    Json::Object(
        seq![
            ("type"@, Json::Str("function"@)),
            ("function"@, Json::Object(seq![("name"@, Json::Str(name))])),
        ],
    )
}

fn named_tool_choice_value(name: &str) -> (r: JsonValue)
    ensures
        r@ == named_tool_choice(name@),
{
    let mut f: JsonMap = Vec::new();
    f.push((owned("name"), JsonValue::string(name)));
    let mut m: JsonMap = Vec::new();
    m.push((owned("type"), JsonValue::string("function")));
    m.push((owned("function"), JsonValue::Object(f)));
    assert(members_view(f@) =~= seq![("name"@, Json::Str(name@))]);
    assert(members_view(m@) =~= seq![
        ("type"@, Json::Str("function"@)),
        ("function"@, Json::Object(seq![("name"@, Json::Str(name@))])),
    ]);
    JsonValue::Object(m)
}

fn is_choice_mode_text(t: &str) -> (r: bool)
    ensures
        r == is_choice_mode(t@),
{
    str_eq(t, "auto") || str_eq(t, "none") || str_eq(t, "required")
}

/// The tool choice for a legacy `function_call`: a mode by name, or the named
/// function of an object; nothing for anything else.
pub open spec fn function_call_choice(v: Json) -> Option<Json> {
    match v {
        Json::Str(t) => if is_choice_mode(t) {
            Some(Json::Str(t))
        } else {
            None
        },
        Json::Object(m) => match opt_str(obj_get(m, "name"@)) {
            Some(name) => Some(named_tool_choice(name)),
            None => None,
        },
        _ => None,
    }
}

/// The tool choice for a legacy `function_call`.
pub fn convert_function_call(value: &JsonValue) -> (r: Option<JsonValue>)
    ensures
        match r {
            Some(c) => function_call_choice(value@) == Some(c@),
            None => function_call_choice(value@) is None,
        },
{
    match value {
        JsonValue::Str(t) => if is_choice_mode_text(t.as_str()) {
            Some(JsonValue::Str(t.clone()))
        } else {
            None
        },
        JsonValue::Object(m) => match member_str(m, "name") {
            Some(name) => Some(named_tool_choice_value(name)),
            None => None,
        },
        _ => None,
    }
}

/// A tool choice as it is sent upstream: a known mode as it is, an unknown mode
/// dropped, a function choice reduced to the function's name, and anything
/// else as it is.
pub open spec fn tool_choice_normalized(v: Json) -> Option<Json> {
    match v {
        Json::Str(t) => if is_choice_mode(t) {
            Some(Json::Str(t))
        } else {
            None
        },
        Json::Object(m) => {
            let name = match opt_object(obj_get(m, "function"@)) {
                Some(f) => opt_str(obj_get(f, "name"@)),
                None => None,
            };
            if opt_str(obj_get(m, "type"@)) == Some("function"@) && name is Some {
                Some(named_tool_choice(name.unwrap()))
            } else {
                Some(Json::Object(m))
            }
        },
        _ => Some(v),
    }
}

/// A tool choice as it is sent upstream.
pub fn normalize_tool_choice(value: &JsonValue) -> (r: Option<JsonValue>)
    ensures
        match r {
            Some(c) => tool_choice_normalized(value@) == Some(c@),
            None => tool_choice_normalized(value@) is None,
        },
{
    match value {
        JsonValue::Str(t) => if is_choice_mode_text(t.as_str()) {
            Some(JsonValue::Str(t.clone()))
        } else {
            None
        },
        JsonValue::Object(m) => {
            let is_function = match member_str(m, "type") {
                Some(t) => str_eq(t, "function"),
                None => false,
            };
            let name = match map_get(m, "function") {
                Some(f) => match f.as_object() {
                    Some(fm) => member_str(fm, "name"),
                    None => None,
                },
                None => None,
            };
            if is_function {
                if let Some(n) = name {
                    return Some(named_tool_choice_value(n));
                }
            }
            let copy = clone_map(m);
            Some(JsonValue::Object(copy))
        },
        _ => Some(value.deep_clone()),
    }
}

/// The tool calls read from an array of them.
pub open spec fn tool_calls_from_json(items: Seq<Json>) -> Seq<ToolCallView> {
    items.map_values(|v: Json| tool_call_from_json(v))
}

/// A message read from a client: the role (`user` when absent, `function`
/// renamed `tool`), the content as text (thinking blocks removed from
/// assistant content), the tool calls, the reasoning when it is kept, and the
/// name, tool call id and prefix flag; anything that is not an object becomes
/// a user message holding its JSON text.
pub open spec fn message_from_json(v: Json, keep_reasoning: bool) -> MessageView {
    match v {
        Json::Object(m) => {
            let role = match opt_str(obj_get(m, "role"@)) {
                Some(r) => r,
                None => "user"@,
            };
            let normalized_role = if role == "function"@ {
                "tool"@
            } else {
                role
            };
            let text = match obj_get(m, "content"@) {
                Some(c) => match text_content(c) {
                    Some(t) => t,
                    None => Seq::empty(),
                },
                None => Seq::empty(),
            };
            let content = if normalized_role == "assistant"@ {
                thinking_stripped(text)
            } else {
                text
            };
            MessageView {
                role: normalized_role,
                content: Some(Json::Str(content)),
                name: opt_str(obj_get(m, "name"@)),
                tool_call_id: opt_str(obj_get(m, "tool_call_id"@)),
                tool_calls: match opt_array(obj_get(m, "tool_calls"@)) {
                    Some(a) => Some(tool_calls_from_json(a)),
                    None => None,
                },
                reasoning_content: if keep_reasoning {
                    opt_str(obj_get(m, "reasoning_content"@))
                } else {
                    None
                },
                prefix: opt_bool(obj_get(m, "prefix"@)),
            }
        },
        _ => MessageView {
            role: "user"@,
            content: Some(Json::Str(json_text(v))),
            name: None,
            tool_call_id: None,
            tool_calls: None,
            reasoning_content: None,
            prefix: None,
        },
    }
}

fn opt_owned(s: Option<&str>) -> (r: Option<String>)
    ensures
        match s {
            Some(t) => r matches Some(u) && u@ == t@,
            None => r is None,
        },
{
    match s {
        Some(t) => Some(owned(t)),
        None => None,
    }
}

/// Reads a message from a client.
pub fn normalize_message(message: &JsonValue, keep_reasoning: bool) -> (r: Message)
    ensures
        r@ == message_from_json(message@, keep_reasoning),
{
    let m = match message {
        JsonValue::Object(m) => m,
        _ => {
            return Message {
                role: owned("user"),
                content: Some(JsonValue::Str(encode_text(message))),
                name: None,
                tool_call_id: None,
                tool_calls: None,
                reasoning_content: None,
                prefix: None,
            };
        },
    };
    let role = match member_str(m, "role") {
        Some(r) => owned(r),
        None => owned("user"),
    };
    let normalized_role = if str_eq(role.as_str(), "function") {
        owned("tool")
    } else {
        role
    };
    let text = match map_get(m, "content") {
        Some(c) => match extract_text_content(c) {
            Some(t) => t,
            None => String::new(),
        },
        None => String::new(),
    };
    let content = if str_eq(normalized_role.as_str(), "assistant") {
        strip_cursor_thinking_blocks(text.as_str())
    } else {
        text
    };
    let tool_calls = match map_get(m, "tool_calls") {
        Some(v) => match v.as_array() {
            Some(a) => {
                let mut calls: Vec<ToolCall> = Vec::new();
                let mut i: usize = 0;
                while i < a.len()
                    invariant
                        i <= a.len(),
                        calls@.len() == i,
                        forall|j: int|
                            0 <= j < i ==> calls@[j]@ == tool_call_from_json(a@[j]@),
                    decreases a.len() - i,
                {
                    calls.push(normalize_tool_call(&a[i]));
                    i = i + 1;
                }
                assert(calls@.map_values(|c: ToolCall| c@) =~= tool_calls_from_json(
                    items_view(a@),
                ));
                Some(calls)
            },
            None => None,
        },
        None => None,
    };
    let reasoning_content = if keep_reasoning {
        opt_owned(member_str(m, "reasoning_content"))
    } else {
        None
    };
    let prefix = match map_get(m, "prefix") {
        Some(v) => v.as_bool(),
        None => None,
    };
    Message {
        role: normalized_role,
        content: Some(JsonValue::Str(content)),
        name: opt_owned(member_str(m, "name")),
        tool_call_id: opt_owned(member_str(m, "tool_call_id")),
        tool_calls,
        reasoning_content,
        prefix,
    }
}

/// The messages read from a client's `messages` array; none when it is not an array.
pub open spec fn messages_from_json(v: Json, keep_reasoning: bool) -> Seq<MessageView> {
    match v {
        Json::Array(items) => items.map_values(|m: Json| message_from_json(m, keep_reasoning)),
        _ => Seq::empty(),
    }
}

/// Reads the messages of a client's `messages` array.
pub fn normalize_messages(messages: &JsonValue, keep_reasoning: bool) -> (r: Vec<Message>)
    ensures
        r@.map_values(|m: Message| m@) == messages_from_json(messages@, keep_reasoning),
{
    let mut out: Vec<Message> = Vec::new();
    if let JsonValue::Array(items) = messages {
        let mut i: usize = 0;
        while i < items.len()
            invariant
                i <= items.len(),
                out@.len() == i,
                forall|j: int|
                    0 <= j < i ==> out@[j]@ == message_from_json(items@[j]@, keep_reasoning),
            decreases items.len() - i,
        {
            out.push(normalize_message(&items[i], keep_reasoning));
            i = i + 1;
        }
        assert(out@.map_values(|m: Message| m@) =~= messages_from_json(
            messages@,
            keep_reasoning,
        ));
    } else {
        assert(out@.map_values(|m: Message| m@) =~= messages_from_json(
            messages@,
            keep_reasoning,
        ));
    }
    out
}

/// The request fields that DeepSeek's chat completion endpoint accepts.
pub open spec fn supported_field_names() -> Seq<Seq<char>> {
    seq![
        "model"@,
        "messages"@,
        "stream"@,
        "stream_options"@,
        "max_tokens"@,
        "response_format"@,
        "stop"@,
        "tools"@,
        "tool_choice"@,
        "thinking"@,
        "reasoning_effort"@,
        "temperature"@,
        "top_p"@,
        "presence_penalty"@,
        "frequency_penalty"@,
        "logprobs"@,
        "top_logprobs"@,
        "user"@,
        "seed"@,
        "n"@,
        "logit_bias"@,
    ]
}

/// The request fields that DeepSeek's chat completion endpoint accepts.
pub fn supported_request_fields() -> (r: Vec<&'static str>)
    ensures
        r@.map_values(|s: &str| s@) == supported_field_names(),
{
    let v: Vec<&'static str> = vec![
        "model",
        "messages",
        "stream",
        "stream_options",
        "max_tokens",
        "response_format",
        "stop",
        "tools",
        "tool_choice",
        "thinking",
        "reasoning_effort",
        "temperature",
        "top_p",
        "presence_penalty",
        "frequency_penalty",
        "logprobs",
        "top_logprobs",
        "user",
        "seed",
        "n",
        "logit_bias",
    ];
    assert(v@.map_values(|s: &str| s@) =~= supported_field_names());
    v
}

/// Whether the endpoint accepts a request field of this name.
pub fn is_supported_request_field(key: &str) -> (r: bool)
    ensures
        r == supported_field_names().contains(key@),
{
    let fields = supported_request_fields();
    let ghost names = fields@.map_values(|s: &str| s@);
    let mut i: usize = 0;
    while i < fields.len()
        invariant
            i <= fields.len(),
            names == supported_field_names(),
            names == fields@.map_values(|s: &str| s@),
            names.len() == fields.len(),
            forall|j: int| 0 <= j < i ==> names[j] != key@,
        decreases fields.len() - i,
    {
        assert(names[i as int] == fields@[i as int]@);
        if str_eq(fields[i], key) {
            assert(names[i as int] == key@);
            return true;
        }
        i = i + 1;
    }
    false
}

/// The members of a request whose names the endpoint accepts, in order.
pub open spec fn supported_members(m: Seq<(Seq<char>, Json)>) -> Seq<(Seq<char>, Json)>
    decreases m.len(),
{
    if m.len() == 0 {
        m
    } else {
        let rest = supported_members(m.drop_last());
        if supported_field_names().contains(m.last().0) {
            rest.push(m.last())
        } else {
            rest
        }
    }
}

/// The members of a request whose names the endpoint accepts.
pub fn filter_supported_fields(payload: &JsonMap) -> (r: JsonMap)
    ensures
        members_view(r@) == supported_members(members_view(payload@)),
{
    let mut out: JsonMap = Vec::new();
    let mut i: usize = 0;
    while i < payload.len()
        invariant
            i <= payload.len(),
            members_view(out@) == supported_members(members_view(payload@).take(i as int)),
        decreases payload.len() - i,
    {
        let ghost before = members_view(payload@).take(i as int);
        assert(members_view(payload@).take(i + 1).drop_last() =~= before);
        if is_supported_request_field(payload[i].0.as_str()) {
            let v = payload[i].1.deep_clone();
            out.push((payload[i].0.clone(), v));
            assert(members_view(out@) =~= supported_members(
                members_view(payload@).take(i + 1),
            ));
        }
        i = i + 1;
    }
    assert(members_view(payload@).take(payload.len() as int) =~= members_view(payload@));
    out
}

} // verus!
