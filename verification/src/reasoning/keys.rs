//! The keys under which reasoning is cached, derived from SHA-256 digests of
//! canonical JSON.
use vstd::prelude::*;
use sha2::Digest;
use crate::json::{Json, JsonMap, JsonValue, encode_bytes, items_view, json_bytes, members_view};
use crate::protocol::model::{
    Message, MessageView, ToolCall, ToolCallView, opt_bool_json, opt_member, opt_str_json,
    tool_call_json, tool_calls_json, tool_calls_view, tool_function_json,
};
use crate::text::{concat, hex_encode, hex_lower, is_lower_hex, lemma_hex_lower, owned, str_eq};

verus! {

/// The SHA-256 digest that `sha2::Sha256` computes for the bytes.
pub uninterp spec fn sha256_digest(data: Seq<u8>) -> Seq<u8>;

/// `sha2::Sha256::digest`: the 32-byte digest of the bytes.
#[verifier::external_body]
pub(crate) fn sha256(data: &[u8]) -> (r: Vec<u8>)
    ensures
        r@ == sha256_digest(data@),
        r@.len() == 32,
{
    sha2::Sha256::digest(data).to_vec()
}

/// The lower-case hex SHA-256 digest of a document's compact JSON encoding,
/// whose object members `serde_json` writes ordered by name.
pub open spec fn json_digest(v: Json) -> Seq<char> {
    hex_lower(sha256_digest(json_bytes(v)))
}

/// The hex digest of a document's canonical JSON.
pub fn digest_json(v: &JsonValue) -> (r: String)
    ensures
        r@ == json_digest(v@),
        r@.len() == 64,
        is_lower_hex(r@),
{
    let bytes = encode_bytes(v);
    let digest = sha256(bytes.as_slice());
    proof {
        lemma_hex_lower(digest@);
    }
    hex_encode(&digest)
}

/// A tool call in canonical form: its id when it has one, its type and function.
pub fn normalize_tool_call(tool_call: &ToolCall) -> (r: JsonValue)
    ensures
        r@ == tool_call_json(tool_call@),
{
    tool_call.to_json()
}

/// The signature of a tool call: the digest of its type and function, without its id.
pub open spec fn tool_call_sig(c: ToolCallView) -> Seq<char> {
    json_digest(Json::Object(seq![("type"@, Json::Str(c.tool_type)), ("function"@, tool_function_json(c))]))
}

/// The signature of a tool call.
pub fn tool_call_signature(tool_call: &ToolCall) -> (r: String)
    ensures
        r@ == tool_call_sig(tool_call@),
        r@.len() == 64,
        is_lower_hex(r@),
{
    let mut normalized = normalize_tool_call(tool_call);
    if let JsonValue::Object(m) = &mut normalized {
        let _ = crate::json::map_remove(m, "id");
    }
    proof {
        let c = tool_call@;
        let full = opt_member("id"@, opt_str_json(c.id)) + seq![
            ("type"@, Json::Str(c.tool_type)),
            ("function"@, tool_function_json(c)),
        ];
        let without = seq![("type"@, Json::Str(c.tool_type)), ("function"@, tool_function_json(c))];
        match c.id {
            Some(i) => {
                assert(full[0].0 == "id"@);
                crate::json::lemma_obj_first(full, "id"@, 0, Json::Null);
                assert(full.remove(0) =~= without);
            },
            None => {
                assert(full =~= without);
                assert forall|j: int| 0 <= j < full.len() implies full[j].0 != "id"@ by {
                    assert(full[j].0 == "type"@ || full[j].0 == "function"@);
                    if full[j].0 == "id"@ {
                        // the member names are distinct literals
                        reveal_strlit("id");
                        reveal_strlit("type");
                        reveal_strlit("function");
                    }
                }
                crate::json::lemma_obj_absent(full, "id"@, Json::Null);
            },
        }
    }
    digest_json(&normalized)
}

/// The tool call calls of a message, none when it has none.
pub open spec fn calls_of(m: MessageView) -> Seq<ToolCallView> {
    match m.tool_calls {
        Some(c) => c,
        None => Seq::empty(),
    }
}

/// The ids of the tool calls that have one, in order.
pub open spec fn ids_of(calls: Seq<ToolCallView>) -> Seq<Seq<char>>
    decreases calls.len(),
{
    if calls.len() == 0 {
        Seq::empty()
    } else {
        let rest = ids_of(calls.drop_last());
        match calls.last().id {
            Some(i) => rest.push(i),
            None => rest,
        }
    }
}

/// The non-empty function names of the tool calls, in order.
pub open spec fn names_of(calls: Seq<ToolCallView>) -> Seq<Seq<char>>
    decreases calls.len(),
{
    if calls.len() == 0 {
        Seq::empty()
    } else {
        let rest = names_of(calls.drop_last());
        if calls.last().name.len() > 0 {
            rest.push(calls.last().name)
        } else {
            rest
        }
    }
}

fn message_calls(message: &Message) -> (r: &[ToolCall])
    ensures
        tool_calls_view(r@) == calls_of(message@),
{
    match &message.tool_calls {
        Some(c) => c.as_slice(),
        None => {
            let empty: &[ToolCall] = &[];
            assert(tool_calls_view(empty@) =~= Seq::<ToolCallView>::empty());
            empty
        },
    }
}

/// The ids of a message's tool calls.
pub fn tool_call_ids(message: &Message) -> (r: Vec<String>)
    ensures
        r@.map_values(|s: String| s@) == ids_of(calls_of(message@)),
{
    let calls = message_calls(message);
    let ghost cv = tool_calls_view(calls@);
    let mut out: Vec<String> = Vec::new();
    let mut i: usize = 0;
    while i < calls.len()
        invariant
            i <= calls.len(),
            cv == tool_calls_view(calls@),
            out@.map_values(|s: String| s@) == ids_of(cv.take(i as int)),
        decreases calls.len() - i,
    {
        assert(cv.take(i + 1).drop_last() =~= cv.take(i as int));
        assert(cv.take(i + 1).last() == calls@[i as int]@);
        if let Some(id) = &calls[i].id {
            out.push(id.clone());
        }
        i = i + 1;
        assert(out@.map_values(|s: String| s@) =~= ids_of(cv.take(i as int)));
    }
    assert(cv.take(calls.len() as int) =~= cv);
    out
}

/// The non-empty function names of a message's tool calls.
pub fn tool_call_names(message: &Message) -> (r: Vec<String>)
    ensures
        r@.map_values(|s: String| s@) == names_of(calls_of(message@)),
{
    let calls = message_calls(message);
    let ghost cv = tool_calls_view(calls@);
    let mut out: Vec<String> = Vec::new();
    let mut i: usize = 0;
    while i < calls.len()
        invariant
            i <= calls.len(),
            cv == tool_calls_view(calls@),
            out@.map_values(|s: String| s@) == names_of(cv.take(i as int)),
        decreases calls.len() - i,
    {
        assert(cv.take(i + 1).drop_last() =~= cv.take(i as int));
        assert(cv.take(i + 1).last() == calls@[i as int]@);
        if !calls[i].function.name.as_str().is_empty() {
            out.push(calls[i].function.name.clone());
        }
        i = i + 1;
        assert(out@.map_values(|s: String| s@) =~= names_of(cv.take(i as int)));
    }
    assert(cv.take(calls.len() as int) =~= cv);
    out
}

/// What a message's signature is computed over: its content (an empty string
/// when it has none) and its tool calls.
pub open spec fn signature_payload(m: MessageView) -> Json {
    Json::Object(
        seq![
            ("content"@, match m.content {
                Some(c) => c,
                None => Json::Str(Seq::empty()),
            }),
            ("tool_calls"@, Json::Array(tool_calls_json(calls_of(m)))),
        ],
    )
}

/// The signature of a message: the digest of its content and tool calls.
pub open spec fn message_sig(m: MessageView) -> Seq<char> {
    json_digest(signature_payload(m))
}

/// The signature of a message.
pub fn message_signature(message: &Message) -> (r: String)
    ensures
        r@ == message_sig(message@),
        r@.len() == 64,
        is_lower_hex(r@),
{
    let calls = message_calls(message);
    let mut encoded: Vec<JsonValue> = Vec::new();
    let mut i: usize = 0;
    while i < calls.len()
        invariant
            i <= calls.len(),
            encoded@.len() == i,
            forall|j: int| 0 <= j < i ==> encoded@[j]@ == tool_call_json(calls@[j]@),
        decreases calls.len() - i,
    {
        encoded.push(calls[i].to_json());
        i = i + 1;
    }
    assert(items_view(encoded@) =~= tool_calls_json(calls_of(message@)));
    let content = match &message.content {
        Some(c) => c.deep_clone(),
        None => JsonValue::Str(String::new()),
    };
    let mut m: JsonMap = Vec::new();
    m.push((owned("content"), content));
    m.push((owned("tool_calls"), JsonValue::Array(encoded)));
    assert(members_view(m@) =~= seq![
        ("content"@, match message@.content {
            Some(c) => c,
            None => Json::Str(Seq::empty()),
        }),
        ("tool_calls"@, Json::Array(tool_calls_json(calls_of(message@)))),
    ]);
    let ghost mv = members_view(m@);
    let obj = JsonValue::Object(m);
    assert(obj@ == Json::Object(mv));
    assert(mv == signature_payload(message@)->Object_0);
    assert(obj@ == signature_payload(message@));
    digest_json(&obj)
}

/// A message in the form its conversation scope is computed over: its role,
/// then each of content, name, tool call id, prefix flag and tool calls that it has.
pub open spec fn scope_message_json(m: MessageView) -> Json {
    Json::Object(
        seq![("role"@, Json::Str(m.role))] + opt_member("content"@, m.content) + opt_member(
            "name"@,
            opt_str_json(m.name),
        ) + opt_member("tool_call_id"@, opt_str_json(m.tool_call_id)) + opt_member(
            "prefix"@,
            opt_bool_json(m.prefix),
        ) + opt_member(
            "tool_calls"@,
            match m.tool_calls {
                Some(c) => Some(Json::Array(tool_calls_json(c))),
                None => None,
            },
        ),
    )
}

/// A message in the form its conversation scope is computed over.
#[verifier::rlimit(50)]
pub fn canonical_scope_message(message: &Message) -> (r: JsonValue)
    ensures
        r@ == scope_message_json(message@),
{
    let mut m: JsonMap = Vec::new();
    m.push((owned("role"), JsonValue::Str(message.role.clone())));
    let ghost s1 = members_view(m@);
    assert(s1 =~= seq![("role"@, Json::Str(message@.role))]);
    if let Some(c) = &message.content {
        m.push((owned("content"), c.deep_clone()));
    }
    let ghost s2 = members_view(m@);
    assert(s2 =~= s1 + opt_member("content"@, message@.content));
    if let Some(n) = &message.name {
        m.push((owned("name"), JsonValue::Str(n.clone())));
    }
    let ghost s3 = members_view(m@);
    assert(s3 =~= s2 + opt_member("name"@, opt_str_json(message@.name)));
    if let Some(t) = &message.tool_call_id {
        m.push((owned("tool_call_id"), JsonValue::Str(t.clone())));
    }
    let ghost s4 = members_view(m@);
    assert(s4 =~= s3 + opt_member("tool_call_id"@, opt_str_json(message@.tool_call_id)));
    if let Some(p) = message.prefix {
        m.push((owned("prefix"), JsonValue::Bool(p)));
    }
    let ghost s5 = members_view(m@);
    assert(s5 =~= s4 + opt_member("prefix"@, opt_bool_json(message@.prefix)));
    if let Some(calls) = &message.tool_calls {
        m.push(
            (owned("tool_calls"), JsonValue::Array(crate::protocol::model::tool_calls_to_json(calls))),
        );
    }
    assert(members_view(m@) =~= s5 + opt_member(
        "tool_calls"@,
        match message@.tool_calls {
            Some(c) => Some(Json::Array(tool_calls_json(c))),
            None => None,
        },
    ));
    assert(JsonValue::Object(m)@ == scope_message_json(message@));
    JsonValue::Object(m)
}

/// Messages in the form their conversation scope is computed over.
pub open spec fn scope_messages_json(messages: Seq<MessageView>) -> Seq<Json> {
    messages.map_values(|m: MessageView| scope_message_json(m))
}

fn scope_messages(messages: &[Message]) -> (r: Vec<JsonValue>)
    ensures
        items_view(r@) == scope_messages_json(messages@.map_values(|m: Message| m@)),
{
    let mut out: Vec<JsonValue> = Vec::new();
    let mut i: usize = 0;
    while i < messages.len()
        invariant
            i <= messages.len(),
            out@.len() == i,
            forall|j: int| 0 <= j < i ==> out@[j]@ == scope_message_json(messages@[j]@),
        decreases messages.len() - i,
    {
        out.push(canonical_scope_message(&messages[i]));
        i = i + 1;
    }
    assert(items_view(out@) =~= scope_messages_json(messages@.map_values(|m: Message| m@)));
    out
}

/// The scope of a conversation: the digest of its messages, together with the
/// namespace when that is not empty.
pub open spec fn scope_of(messages: Seq<MessageView>, namespace: Seq<char>) -> Seq<char> {
    let scope_messages = Json::Array(scope_messages_json(messages));
    if namespace.len() == 0 {
        json_digest(scope_messages)
    } else {
        json_digest(
            Json::Object(seq![("namespace"@, Json::Str(namespace)), ("messages"@, scope_messages)]),
        )
    }
}

/// The scope of a conversation.
pub fn conversation_scope(messages: &[Message], namespace: &str) -> (r: String)
    ensures
        r@ == scope_of(messages@.map_values(|m: Message| m@), namespace@),
        r@.len() == 64,
        is_lower_hex(r@),
{
    let encoded = JsonValue::Array(scope_messages(messages));
    if namespace.is_empty() {
        digest_json(&encoded)
    } else {
        let mut m: JsonMap = Vec::new();
        m.push((owned("namespace"), JsonValue::string(namespace)));
        m.push((owned("messages"), encoded));
        assert(members_view(m@) =~= seq![
            ("namespace"@, Json::Str(namespace@)),
            ("messages"@, Json::Array(scope_messages_json(messages@.map_values(|m: Message| m@)))),
        ]);
        digest_json(&JsonValue::Object(m))
    }
}

/// The index of the last user message, if any.
pub open spec fn last_user(ms: Seq<MessageView>) -> Option<int>
    decreases ms.len(),
{
    if ms.len() == 0 {
        None
    } else if ms.last().role == "user"@ {
        Some(ms.len() - 1)
    } else {
        last_user(ms.drop_last())
    }
}

/// The start of the run of user messages that ends at index `i`.
pub open spec fn cluster_start(ms: Seq<MessageView>, i: int) -> int
    decreases i,
{
    if i > 0 && i <= ms.len() && ms[i - 1].role == "user"@ {
        cluster_start(ms, i - 1)
    } else {
        i
    }
}

/// Where the current turn starts: at the run of user messages that holds the
/// last user message, or at the start when there is none.
pub open spec fn turn_start(ms: Seq<MessageView>) -> int {
    match last_user(ms) {
        Some(i) => cluster_start(ms, i),
        None => 0,
    }
}

/// The messages that are not system messages, in order.
pub open spec fn non_system(ms: Seq<MessageView>) -> Seq<MessageView>
    decreases ms.len(),
{
    if ms.len() == 0 {
        ms
    } else {
        let rest = non_system(ms.drop_last());
        if ms.last().role == "system"@ {
            rest
        } else {
            rest.push(ms.last())
        }
    }
}

/// The signature of a turn: the digest of its messages other than system ones.
pub open spec fn turn_sig(ms: Seq<MessageView>) -> Seq<char> {
    json_digest(Json::Array(scope_messages_json(non_system(ms.skip(turn_start(ms))))))
}

proof fn lemma_last_user_bound(ms: Seq<MessageView>)
    ensures
        match last_user(ms) {
            Some(i) => 0 <= i < ms.len() && ms[i].role == "user"@,
            None => true,
        },
    decreases ms.len(),
{
    if ms.len() > 0 && ms.last().role != "user"@ {
        lemma_last_user_bound(ms.drop_last());
    }
}

proof fn lemma_cluster_start_bound(ms: Seq<MessageView>, i: int)
    requires
        0 <= i <= ms.len(),
    ensures
        0 <= cluster_start(ms, i) <= i,
    decreases i,
{
    if i > 0 && ms[i - 1].role == "user"@ {
        lemma_cluster_start_bound(ms, i - 1);
    }
}

/// The signature of the current turn of a conversation.
pub fn turn_context_signature(prior_messages: &[Message]) -> (r: String)
    ensures
        r@ == turn_sig(prior_messages@.map_values(|m: Message| m@)),
        r@.len() == 64,
        is_lower_hex(r@),
{
    let ghost ms = prior_messages@.map_values(|m: Message| m@);
    let mut n = prior_messages.len();
    assert(ms.take(n as int) =~= ms);
    while n > 0 && !str_eq(prior_messages[n - 1].role.as_str(), "user")
        invariant
            n <= prior_messages.len(),
            ms == prior_messages@.map_values(|m: Message| m@),
            last_user(ms) == last_user(ms.take(n as int)),
        decreases n,
    {
        assert(ms.take(n as int).drop_last() =~= ms.take(n - 1));
        assert(ms.take(n as int).last() == prior_messages@[n - 1]@);
        n = n - 1;
    }
    let mut start: usize = 0;
    if n > 0 {
        proof {
            assert(ms.take(n as int).last() == prior_messages@[n - 1]@);
            assert(last_user(ms) == Some((n - 1) as int));
        }
        start = n - 1;
        while start > 0 && str_eq(prior_messages[start - 1].role.as_str(), "user")
            invariant
                start < prior_messages.len(),
                ms == prior_messages@.map_values(|m: Message| m@),
                cluster_start(ms, (n - 1) as int) == cluster_start(ms, start as int),
            decreases start,
        {
            start = start - 1;
        }
    } else {
        proof {
            assert(ms.take(0) =~= Seq::<MessageView>::empty());
        }
    }
    assert(start as int == turn_start(ms));
    let mut context: Vec<JsonValue> = Vec::new();
    let mut i = start;
    while i < prior_messages.len()
        invariant
            start <= i <= prior_messages.len(),
            start as int == turn_start(ms),
            ms == prior_messages@.map_values(|m: Message| m@),
            items_view(context@) == scope_messages_json(
                non_system(ms.subrange(start as int, i as int)),
            ),
        decreases prior_messages.len() - i,
    {
        let ghost before = ms.subrange(start as int, i as int);
        assert(ms.subrange(start as int, i + 1).drop_last() =~= before);
        assert(ms.subrange(start as int, i + 1).last() == prior_messages@[i as int]@);
        let ghost now = ms.subrange(start as int, i + 1);
        assert(now.last().role == prior_messages@[i as int].role@);
        if !str_eq(prior_messages[i].role.as_str(), "system") {
            let ghost old_items = items_view(context@);
            context.push(canonical_scope_message(&prior_messages[i]));
            assert(non_system(now) == non_system(before).push(now.last()));
            assert(items_view(context@) =~= old_items.push(scope_message_json(now.last())));
            assert(items_view(context@) =~= scope_messages_json(non_system(now)));
        } else {
            assert(non_system(now) == non_system(before));
        }
        i = i + 1;
    }
    assert(ms.subrange(start as int, prior_messages.len() as int) =~= ms.skip(start as int));
    digest_json(&JsonValue::Array(context))
}

/// A cache key: a prefix, a kind and a value.
pub open spec fn key_of(prefix: Seq<char>, kind: Seq<char>, value: Seq<char>) -> Seq<char> {
    prefix + kind + value
}

/// The keys for a message under a prefix: its signature, then its tool call
/// ids, then its tool call signatures, then its tool names.
pub open spec fn message_keys(m: MessageView, prefix: Seq<char>) -> Seq<Seq<char>> {
    seq![key_of(prefix, ":signature:"@, message_sig(m))] + ids_of(calls_of(m)).map_values(
        |id: Seq<char>| key_of(prefix, ":tool_call:"@, id),
    ) + calls_of(m).map_values(
        |c: ToolCallView| key_of(prefix, ":tool_call_signature:"@, tool_call_sig(c)),
    ) + names_of(calls_of(m)).map_values(|n: Seq<char>| key_of(prefix, ":tool_name:"@, n))
}

/// The prefix of the keys within a conversation scope.
pub open spec fn scope_prefix(scope: Seq<char>) -> Seq<char> {
    "scope:"@ + scope
}

/// The keys for a message within a conversation scope.
pub open spec fn scoped_keys(m: MessageView, scope: Seq<char>) -> Seq<Seq<char>> {
    message_keys(m, scope_prefix(scope))
}

/// The prefix of the keys that carry over between conversations: the
/// namespace and the signature of the turn.
pub open spec fn portable_prefix(namespace: Seq<char>, prior: Seq<MessageView>) -> Seq<char> {
    "namespace:"@ + namespace + ":turn:"@ + turn_sig(prior)
}

/// The keys that carry over between conversations; none without a namespace.
pub open spec fn portable_keys(m: MessageView, namespace: Seq<char>, prior: Seq<MessageView>) -> Seq<Seq<char>> {
    if namespace.len() == 0 {
        Seq::empty()
    } else {
        message_keys(m, portable_prefix(namespace, prior))
    }
}

fn push_keys(prefix: &str, kind: &str, values: &Vec<String>, out: &mut Vec<String>)
    ensures
        final(out)@.map_values(|s: String| s@) == old(out)@.map_values(|s: String| s@)
            + values@.map_values(|s: String| s@).map_values(
            |v: Seq<char>| key_of(prefix@, kind@, v),
        ),
{
    let ghost start = old(out)@.map_values(|s: String| s@);
    let ghost vals = values@.map_values(|s: String| s@).map_values(
        |v: Seq<char>| key_of(prefix@, kind@, v),
    );
    let mut i: usize = 0;
    while i < values.len()
        invariant
            i <= values.len(),
            vals == values@.map_values(|s: String| s@).map_values(
                |v: Seq<char>| key_of(prefix@, kind@, v),
            ),
            out@.map_values(|s: String| s@) == start + vals.take(i as int),
        decreases values.len() - i,
    {
        let head = concat(prefix, kind);
        let key = concat(head.as_str(), values[i].as_str());
        assert(vals[i as int] == key_of(prefix@, kind@, values@[i as int]@));
        let ghost before = out@.map_values(|s: String| s@);
        out.push(key);
        assert(out@.map_values(|s: String| s@) =~= before.push(vals[i as int]));
        assert(vals.take(i + 1) =~= vals.take(i as int).push(vals[i as int]));
        i = i + 1;
        assert(out@.map_values(|s: String| s@) =~= start + vals.take(i as int));
    }
    assert(vals.take(values.len() as int) =~= vals);
}

fn message_keys_under(message: &Message, prefix: &str) -> (r: Vec<String>)
    ensures
        r@.map_values(|s: String| s@) == message_keys(message@, prefix@),
{
    let mut keys: Vec<String> = Vec::new();
    let sig = message_signature(message);
    let head = concat(prefix, ":signature:");
    keys.push(concat(head.as_str(), sig.as_str()));
    assert(keys@.map_values(|s: String| s@) =~= seq![
        key_of(prefix@, ":signature:"@, message_sig(message@)),
    ]);
    let ids = tool_call_ids(message);
    push_keys(prefix, ":tool_call:", &ids, &mut keys);
    let calls = message_calls(message);
    let mut sigs: Vec<String> = Vec::new();
    let mut i: usize = 0;
    while i < calls.len()
        invariant
            i <= calls.len(),
            sigs@.len() == i,
            forall|j: int| 0 <= j < i ==> sigs@[j]@ == tool_call_sig(calls@[j]@),
        decreases calls.len() - i,
    {
        sigs.push(tool_call_signature(&calls[i]));
        i = i + 1;
    }
    assert(sigs@.map_values(|s: String| s@) =~= calls_of(message@).map_values(
        |c: ToolCallView| tool_call_sig(c),
    ));
    push_keys(prefix, ":tool_call_signature:", &sigs, &mut keys);
    let names = tool_call_names(message);
    push_keys(prefix, ":tool_name:", &names, &mut keys);
    assert(calls_of(message@).map_values(|c: ToolCallView| tool_call_sig(c)).map_values(
        |v: Seq<char>| key_of(prefix@, ":tool_call_signature:"@, v),
    ) =~= calls_of(message@).map_values(
        |c: ToolCallView| key_of(prefix@, ":tool_call_signature:"@, tool_call_sig(c)),
    ));
    assert(keys@.map_values(|s: String| s@) =~= message_keys(message@, prefix@));
    keys
}

/// The keys for a message within a conversation scope.
pub fn scoped_reasoning_keys(message: &Message, scope: &str) -> (r: Vec<String>)
    ensures
        r@.map_values(|s: String| s@) == scoped_keys(message@, scope@),
{
    let prefix = concat("scope:", scope);
    message_keys_under(message, prefix.as_str())
}

/// The keys for a message that carry over between conversations.
pub fn portable_reasoning_keys(message: &Message, cache_namespace: &str, prior_messages: &[Message]) -> (r: Vec<String>)
    ensures
        r@.map_values(|s: String| s@) == portable_keys(
            message@,
            cache_namespace@,
            prior_messages@.map_values(|m: Message| m@),
        ),
{
    if cache_namespace.is_empty() {
        let empty: Vec<String> = Vec::new();
        assert(empty@.map_values(|s: String| s@) =~= Seq::<Seq<char>>::empty());
        return empty;
    }
    let turn = turn_context_signature(prior_messages);
    let a = concat("namespace:", cache_namespace);
    let b = concat(a.as_str(), ":turn:");
    let prefix = concat(b.as_str(), turn.as_str());
    message_keys_under(message, prefix.as_str())
}

} // verus!
