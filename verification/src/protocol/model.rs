//! The chat messages, tool calls and tools that the proxy reads from clients
//! and sends upstream, with the JSON form each takes on the wire.
use vstd::prelude::*;
use crate::json::{Json, JsonMap, JsonValue, items_view, members_view, opt_json, opt_text};
use crate::text::owned;

verus! {

/// The function half of a tool call.
#[derive(Debug, PartialEq)]
pub struct ToolFunction {
    pub name: String,
    pub arguments: String,
}

/// One tool call of an assistant message.
#[derive(Debug, PartialEq)]
pub struct ToolCall {
    pub id: Option<String>,
    pub tool_type: String,
    pub function: ToolFunction,
}

/// A tool that a request offers the model.
#[derive(Debug, PartialEq)]
pub struct Tool {
    pub tool_type: String,
    pub function: JsonValue,
}

/// The thinking switch of an upstream request.
#[derive(Debug, PartialEq)]
pub struct ThinkingConfig {
    pub kind: String,
}

/// One chat message.
#[derive(Debug, PartialEq)]
pub struct Message {
    pub role: String,
    pub content: Option<JsonValue>,
    pub name: Option<String>,
    pub tool_call_id: Option<String>,
    pub tool_calls: Option<Vec<ToolCall>>,
    pub reasoning_content: Option<String>,
    pub prefix: Option<bool>,
}

/// A tool call as a mathematical value.
pub struct ToolCallView {
    pub id: Option<Seq<char>>,
    pub tool_type: Seq<char>,
    pub name: Seq<char>,
    pub arguments: Seq<char>,
}

/// A message as a mathematical value.
pub struct MessageView {
    pub role: Seq<char>,
    pub content: Option<Json>,
    pub name: Option<Seq<char>>,
    pub tool_call_id: Option<Seq<char>>,
    pub tool_calls: Option<Seq<ToolCallView>>,
    pub reasoning_content: Option<Seq<char>>,
    pub prefix: Option<bool>,
}

impl View for ToolCall {
    type V = ToolCallView;

    open spec fn view(&self) -> ToolCallView {
        ToolCallView {
            id: opt_text(self.id),
            tool_type: self.tool_type@,
            name: self.function.name@,
            arguments: self.function.arguments@,
        }
    }
}

/// The views of tool calls.
pub open spec fn tool_calls_view(calls: Seq<ToolCall>) -> Seq<ToolCallView> {
    calls.map_values(|c: ToolCall| c@)
}

/// The view of optional tool calls.
pub open spec fn opt_tool_calls_view(calls: Option<Vec<ToolCall>>) -> Option<Seq<ToolCallView>> {
    match calls {
        Some(c) => Some(tool_calls_view(c@)),
        None => None,
    }
}

impl View for Message {
    type V = MessageView;

    open spec fn view(&self) -> MessageView {
        MessageView {
            role: self.role@,
            content: opt_json(self.content),
            name: opt_text(self.name),
            tool_call_id: opt_text(self.tool_call_id),
            tool_calls: opt_tool_calls_view(self.tool_calls),
            reasoning_content: opt_text(self.reasoning_content),
            prefix: self.prefix,
        }
    }
}

/// The views of messages.
pub open spec fn messages_view(messages: Seq<Message>) -> Seq<MessageView> {
    messages.map_values(|m: Message| m@)
}

/// A one-member list when the value is there, an empty list otherwise.
pub open spec fn opt_member(key: Seq<char>, value: Option<Json>) -> Seq<(Seq<char>, Json)> {
    match value {
        Some(v) => seq![(key, v)],
        None => Seq::empty(),
    }
}

/// A string document for optional text.
pub open spec fn opt_str_json(value: Option<Seq<char>>) -> Option<Json> {
    match value {
        Some(s) => Some(Json::Str(s)),
        None => None,
    }
}

/// A boolean document for an optional flag.
pub open spec fn opt_bool_json(value: Option<bool>) -> Option<Json> {
    match value {
        Some(b) => Some(Json::Bool(b)),
        None => None,
    }
}

/// The `function` object of a tool call.
pub open spec fn tool_function_json(c: ToolCallView) -> Json {
    Json::Object(seq![("name"@, Json::Str(c.name)), ("arguments"@, Json::Str(c.arguments))])
}

/// A tool call in the form it is sent upstream: its id when it has one, its
/// type, and its function's name and arguments.
pub open spec fn tool_call_json(c: ToolCallView) -> Json {
    Json::Object(
        opt_member("id"@, opt_str_json(c.id)) + seq![
            ("type"@, Json::Str(c.tool_type)),
            ("function"@, tool_function_json(c)),
        ],
    )
}

/// Tool calls in the form they are sent upstream.
pub open spec fn tool_calls_json(calls: Seq<ToolCallView>) -> Seq<Json> {
    calls.map_values(|c: ToolCallView| tool_call_json(c))
}

/// A message in the form it is sent upstream: its role, and each other field
/// that it has.
pub open spec fn message_json(m: MessageView) -> Json {
    Json::Object(
        seq![("role"@, Json::Str(m.role))] + opt_member("content"@, m.content) + opt_member(
            "name"@,
            opt_str_json(m.name),
        ) + opt_member("tool_call_id"@, opt_str_json(m.tool_call_id)) + opt_member(
            "tool_calls"@,
            match m.tool_calls {
                Some(c) => Some(Json::Array(tool_calls_json(c))),
                None => None,
            },
        ) + opt_member("reasoning_content"@, opt_str_json(m.reasoning_content)) + opt_member(
            "prefix"@,
            opt_bool_json(m.prefix),
        ),
    )
}

/// Messages in the form they are sent upstream.
pub open spec fn messages_json(messages: Seq<MessageView>) -> Seq<Json> {
    messages.map_values(|m: MessageView| message_json(m))
}

/// A tool in the form it is sent upstream.
pub open spec fn tool_json(tool_type: Seq<char>, function: Json) -> Json {
    Json::Object(seq![("type"@, Json::Str(tool_type)), ("function"@, function)])
}

/// The thinking switch in the form it is sent upstream.
pub open spec fn thinking_json(kind: Seq<char>) -> Json {
    Json::Object(seq![("type"@, Json::Str(kind))])
}

/// A copy of optional text.
pub fn copy_opt_string(s: &Option<String>) -> (r: Option<String>)
    ensures
        opt_text(r) == opt_text(*s),
{
    match s {
        Some(t) => Some(t.clone()),
        None => None,
    }
}

impl ToolCall {
    /// A copy of the tool call.
    pub fn duplicate(&self) -> (r: ToolCall)
        ensures
            r@ == self@,
    {
        ToolCall {
            id: copy_opt_string(&self.id),
            tool_type: self.tool_type.clone(),
            function: ToolFunction {
                name: self.function.name.clone(),
                arguments: self.function.arguments.clone(),
            },
        }
    }

    /// The tool call as it is sent upstream.
    pub fn to_json(&self) -> (r: JsonValue)
        ensures
            r@ == tool_call_json(self@),
    {
        let mut m: JsonMap = Vec::new();
        if let Some(id) = &self.id {
            m.push((owned("id"), JsonValue::Str(id.clone())));
        }
        m.push((owned("type"), JsonValue::Str(self.tool_type.clone())));
        let mut f: JsonMap = Vec::new();
        f.push((owned("name"), JsonValue::Str(self.function.name.clone())));
        f.push((owned("arguments"), JsonValue::Str(self.function.arguments.clone())));
        m.push((owned("function"), JsonValue::Object(f)));
        assert(members_view(f@) =~= seq![
            ("name"@, Json::Str(self@.name)),
            ("arguments"@, Json::Str(self@.arguments)),
        ]);
        assert(members_view(m@) =~= opt_member("id"@, opt_str_json(self@.id)) + seq![
            ("type"@, Json::Str(self@.tool_type)),
            ("function"@, tool_function_json(self@)),
        ]);
        JsonValue::Object(m)
    }
}

/// Copies of tool calls.
pub fn copy_tool_calls(calls: &Vec<ToolCall>) -> (r: Vec<ToolCall>)
    ensures
        tool_calls_view(r@) == tool_calls_view(calls@),
{
    let mut out: Vec<ToolCall> = Vec::new();
    let mut i: usize = 0;
    while i < calls.len()
        invariant
            i <= calls.len(),
            out@.len() == i,
            forall|j: int| 0 <= j < i ==> out@[j]@ == calls@[j]@,
        decreases calls.len() - i,
    {
        out.push(calls[i].duplicate());
        i = i + 1;
    }
    assert(tool_calls_view(out@) =~= tool_calls_view(calls@));
    out
}

/// Tool calls as they are sent upstream.
pub fn tool_calls_to_json(calls: &Vec<ToolCall>) -> (r: Vec<JsonValue>)
    ensures
        items_view(r@) == tool_calls_json(tool_calls_view(calls@)),
{
    let mut out: Vec<JsonValue> = Vec::new();
    let mut i: usize = 0;
    while i < calls.len()
        invariant
            i <= calls.len(),
            out@.len() == i,
            forall|j: int| 0 <= j < i ==> out@[j]@ == tool_call_json(calls@[j]@),
        decreases calls.len() - i,
    {
        out.push(calls[i].to_json());
        i = i + 1;
    }
    assert(items_view(out@) =~= tool_calls_json(tool_calls_view(calls@)));
    out
}

impl Tool {
    /// The tool as it is sent upstream.
    pub fn to_json(&self) -> (r: JsonValue)
        ensures
            r@ == tool_json(self.tool_type@, self.function@),
    {
        let mut m: JsonMap = Vec::new();
        m.push((owned("type"), JsonValue::Str(self.tool_type.clone())));
        m.push((owned("function"), self.function.deep_clone()));
        assert(members_view(m@) =~= seq![
            ("type"@, Json::Str(self.tool_type@)),
            ("function"@, self.function@),
        ]);
        JsonValue::Object(m)
    }
}

impl ThinkingConfig {
    /// The switch as it is sent upstream.
    pub fn to_json(&self) -> (r: JsonValue)
        ensures
            r@ == thinking_json(self.kind@),
    {
        let mut m: JsonMap = Vec::new();
        m.push((owned("type"), JsonValue::Str(self.kind.clone())));
        assert(members_view(m@) =~= seq![("type"@, Json::Str(self.kind@))]);
        JsonValue::Object(m)
    }
}

impl Message {
    /// A copy of the message.
    pub fn duplicate(&self) -> (r: Message)
        ensures
            r@ == self@,
    {
        let content = match &self.content {
            Some(c) => Some(c.deep_clone()),
            None => None,
        };
        let tool_calls = match &self.tool_calls {
            Some(c) => Some(copy_tool_calls(c)),
            None => None,
        };
        Message {
            role: self.role.clone(),
            content,
            name: copy_opt_string(&self.name),
            tool_call_id: copy_opt_string(&self.tool_call_id),
            tool_calls,
            reasoning_content: copy_opt_string(&self.reasoning_content),
            prefix: self.prefix,
        }
    }

    /// The message as it is sent upstream.
    #[verifier::rlimit(50)]
    pub fn to_json(&self) -> (r: JsonValue)
        ensures
            r@ == message_json(self@),
    {
        let mut m: JsonMap = Vec::new();
        m.push((owned("role"), JsonValue::Str(self.role.clone())));
        let ghost s1 = members_view(m@);
        assert(s1 =~= seq![("role"@, Json::Str(self@.role))]);
        if let Some(c) = &self.content {
            m.push((owned("content"), c.deep_clone()));
        }
        let ghost s2 = members_view(m@);
        assert(s2 =~= s1 + opt_member("content"@, self@.content));
        if let Some(n) = &self.name {
            m.push((owned("name"), JsonValue::Str(n.clone())));
        }
        let ghost s3 = members_view(m@);
        assert(s3 =~= s2 + opt_member("name"@, opt_str_json(self@.name)));
        if let Some(t) = &self.tool_call_id {
            m.push((owned("tool_call_id"), JsonValue::Str(t.clone())));
        }
        let ghost s4 = members_view(m@);
        assert(s4 =~= s3 + opt_member("tool_call_id"@, opt_str_json(self@.tool_call_id)));
        if let Some(calls) = &self.tool_calls {
            m.push((owned("tool_calls"), JsonValue::Array(tool_calls_to_json(calls))));
        }
        let ghost s5 = members_view(m@);
        assert(s5 =~= s4 + opt_member(
            "tool_calls"@,
            match self@.tool_calls {
                Some(c) => Some(Json::Array(tool_calls_json(c))),
                None => None,
            },
        ));
        if let Some(rc) = &self.reasoning_content {
            m.push((owned("reasoning_content"), JsonValue::Str(rc.clone())));
        }
        let ghost s6 = members_view(m@);
        assert(s6 =~= s5 + opt_member("reasoning_content"@, opt_str_json(self@.reasoning_content)));
        if let Some(p) = self.prefix {
            m.push((owned("prefix"), JsonValue::Bool(p)));
        }
        assert(members_view(m@) =~= s6 + opt_member("prefix"@, opt_bool_json(self@.prefix)));
        assert(JsonValue::Object(m)@ == message_json(self@));
        JsonValue::Object(m)
    }
}

impl Default for Message {
    fn default() -> (r: Message)
        ensures
            r@ == (MessageView {
                role: Seq::empty(),
                content: None,
                name: None,
                tool_call_id: None,
                tool_calls: None,
                reasoning_content: None,
                prefix: None,
            }),
    {
        Message {
            role: String::new(),
            content: None,
            name: None,
            tool_call_id: None,
            tool_calls: None,
            reasoning_content: None,
            prefix: None,
        }
    }
}

/// Messages as they are sent upstream.
pub fn messages_to_json(messages: &[Message]) -> (r: Vec<JsonValue>)
    ensures
        items_view(r@) == messages_json(messages_view(messages@)),
{
    let mut out: Vec<JsonValue> = Vec::new();
    let mut i: usize = 0;
    while i < messages.len()
        invariant
            i <= messages.len(),
            out@.len() == i,
            forall|j: int| 0 <= j < i ==> out@[j]@ == message_json(messages@[j]@),
        decreases messages.len() - i,
    {
        out.push(messages[i].to_json());
        i = i + 1;
    }
    assert(items_view(out@) =~= messages_json(messages_view(messages@)));
    out
}

} // verus!
