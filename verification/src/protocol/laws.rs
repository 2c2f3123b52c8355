//! What the request and response rewriting promise for every request.
use vstd::prelude::*;
use crate::config::AppConfig;
use crate::json::{Json, lemma_obj_set_get, obj_get, obj_remove, obj_set};
use crate::protocol::folding::{folded_choice, folded_payload};
use crate::protocol::model::{MessageView, message_json, opt_member, opt_str_json, tool_function_json};
use crate::protocol::normalize::{message_from_json, tool_call_from_json};
use crate::json::opt_str;
use crate::protocol::normalize::{supported_field_names, supported_members};
use crate::protocol::response_rewrite::{prefixed_payload, rewritten_payload, with_model_name};
use crate::protocol::transform::{
    prepared_payload, with_max_tokens, with_stream_usage, with_thinking, with_tool_choice, with_tools,
};

verus! {

/// Whether every member of an object is named like a field DeepSeek accepts.
pub open spec fn only_supported_fields(m: Seq<(Seq<char>, Json)>) -> bool {
    forall|i: int| 0 <= i < m.len() ==> supported_field_names().contains(#[trigger] m[i].0)
}

proof fn lemma_supported_members(m: Seq<(Seq<char>, Json)>)
    ensures
        only_supported_fields(supported_members(m)),
    decreases m.len(),
{
    if m.len() > 0 {
        lemma_supported_members(m.drop_last());
    }
}

proof fn lemma_set_supported(m: Seq<(Seq<char>, Json)>, k: Seq<char>, v: Json)
    requires
        only_supported_fields(m),
        supported_field_names().contains(k),
    ensures
        only_supported_fields(obj_set(m, k, v)),
    decreases m.len(),
{
    if m.len() > 0 && m[0].0 != k {
        let t = m.drop_first();
        assert(only_supported_fields(t)) by {
            assert forall|i: int| 0 <= i < t.len() implies supported_field_names().contains(#[trigger] t[i].0) by {
                assert(t[i] == m[i + 1]);
            }
        }
        lemma_set_supported(t, k, v);
        let r = obj_set(m, k, v);
        assert forall|i: int| 0 <= i < r.len() implies supported_field_names().contains(#[trigger] r[i].0) by {
            if i > 0 {
                assert(r[i] == obj_set(t, k, v)[i - 1]);
            }
        }
    }
}

proof fn lemma_remove_supported(m: Seq<(Seq<char>, Json)>, k: Seq<char>)
    requires
        only_supported_fields(m),
    ensures
        only_supported_fields(obj_remove(m, k)),
    decreases m.len(),
{
    if m.len() > 0 {
        let t = m.drop_first();
        assert(only_supported_fields(t)) by {
            assert forall|i: int| 0 <= i < t.len() implies supported_field_names().contains(#[trigger] t[i].0) by {
                assert(t[i] == m[i + 1]);
            }
        }
        if m[0].0 != k {
            lemma_remove_supported(t, k);
            let r = obj_remove(m, k);
            assert forall|i: int| 0 <= i < r.len() implies supported_field_names().contains(#[trigger] r[i].0) by {
                if i > 0 {
                    assert(r[i] == obj_remove(t, k)[i - 1]);
                }
            }
        }
    }
}

proof fn lemma_field_supported(k: Seq<char>, i: int)
    requires
        0 <= i < supported_field_names().len(),
        supported_field_names()[i] == k,
    ensures
        supported_field_names().contains(k),
{
}

/// Everything the proxy sends upstream is a field that DeepSeek accepts,
/// whatever fields the client's request held.
pub proof fn law_upstream_fields_supported(payload: Seq<(Seq<char>, Json)>, config: AppConfig)
    ensures
        only_supported_fields(prepared_payload(payload, config)),
{
    let names = supported_field_names();
    lemma_field_supported("model"@, 0);
    lemma_field_supported("messages"@, 1);
    lemma_field_supported("stream_options"@, 3);
    lemma_field_supported("max_tokens"@, 4);
    lemma_field_supported("tools"@, 7);
    lemma_field_supported("tool_choice"@, 8);
    lemma_field_supported("thinking"@, 9);
    lemma_field_supported("reasoning_effort"@, 10);
    let p0 = supported_members(payload);
    lemma_supported_members(payload);
    let p1 = with_max_tokens(p0, payload);
    if obj_get(p0, "max_tokens"@) is None {
        if let Some(v) = obj_get(payload, "max_completion_tokens"@) {
            lemma_set_supported(p0, "max_tokens"@, v);
        }
    }
    let p2 = obj_set(p1, "model"@, Json::Str(crate::protocol::transform::upstream_model(payload, config.upstream_model@)));
    lemma_set_supported(p1, "model"@, Json::Str(crate::protocol::transform::upstream_model(payload, config.upstream_model@)));
    let p3 = with_stream_usage(p2);
    if crate::json::opt_bool(obj_get(p2, "stream"@)) == Some(true) {
        let options = match crate::json::opt_object(obj_get(p2, "stream_options"@)) {
            Some(o) => o,
            None => Seq::empty(),
        };
        lemma_set_supported(p2, "stream_options"@, Json::Object(obj_set(options, "include_usage"@, Json::Bool(true))));
    }
    let p4 = with_tools(p3, payload);
    match crate::json::opt_array(obj_get(p3, "tools"@)) {
        Some(tools) => {
            lemma_set_supported(p3, "tools"@, Json::Array(tools.map_values(|t: Json| crate::protocol::transform::normalized_tool_json(t))));
        },
        None => match crate::json::opt_array(obj_get(payload, "functions"@)) {
            Some(functions) => {
                lemma_set_supported(p3, "tools"@, Json::Array(functions.map_values(|f: Json| crate::protocol::transform::legacy_tool_json(f))));
            },
            None => {},
        },
    }
    let p5 = with_tool_choice(p4, payload);
    match obj_get(p4, "tool_choice"@) {
        Some(tc) => match crate::protocol::normalize::tool_choice_normalized(tc) {
            Some(v) => {
                lemma_set_supported(p4, "tool_choice"@, v);
            },
            None => {
                lemma_remove_supported(p4, "tool_choice"@);
            },
        },
        None => match obj_get(payload, "function_call"@) {
            Some(fc) => match crate::protocol::normalize::function_call_choice(fc) {
                Some(c) => {
                    lemma_set_supported(p4, "tool_choice"@, c);
                },
                None => {},
            },
            None => {},
        },
    }
    let p6 = with_thinking(p5, config.thinking@, config.reasoning_effort@);
    let t = crate::protocol::model::thinking_json(config.thinking@);
    lemma_set_supported(p5, "thinking"@, t);
    if config.thinking@ == "enabled"@ {
        lemma_set_supported(
            obj_set(p5, "thinking"@, t),
            "reasoning_effort"@,
            Json::Str(crate::protocol::normalize::effort_level(config.reasoning_effort@)),
        );
    }
    lemma_set_supported(
        p6,
        "messages"@,
        Json::Array(crate::protocol::transform::upstream_messages(payload, config.thinking@)),
    );
}

/// Removing one member leaves every other member as it was.
pub proof fn lemma_obj_remove_other(m: Seq<(Seq<char>, Json)>, k: Seq<char>, other: Seq<char>)
    requires
        other != k,
    ensures
        obj_get(obj_remove(m, k), other) == obj_get(m, other),
    decreases m.len(),
{
    if m.len() > 0 {
        if m[0].0 == k {
            assert(obj_get(m, other) == obj_get(m.drop_first(), other));
        } else {
            lemma_obj_remove_other(m.drop_first(), k, other);
            let r = obj_remove(m, k);
            assert(r.drop_first() =~= obj_remove(m.drop_first(), k));
            assert(r[0] == m[0]);
        }
    }
}

/// The model sent upstream is a DeepSeek model that the client named, or the
/// configured model: the upstream request names it, whatever else it holds.
pub proof fn law_upstream_model(payload: Seq<(Seq<char>, Json)>, config: AppConfig)
    ensures
        obj_get(prepared_payload(payload, config), "model"@) == Some(
            Json::Str(crate::protocol::transform::upstream_model(payload, config.upstream_model@)),
        ),
        crate::text::starts_with(crate::protocol::transform::upstream_model(payload, config.upstream_model@), "deepseek-"@)
            || crate::protocol::transform::upstream_model(payload, config.upstream_model@) == config.upstream_model@,
{
    reveal_strlit("model");
    reveal_strlit("stream_options");
    reveal_strlit("tools");
    reveal_strlit("tool_choice");
    reveal_strlit("thinking");
    reveal_strlit("reasoning_effort");
    reveal_strlit("messages");
    assert("model"@ != "stream_options"@) by { assert("model"@[0] != "stream_options"@[0]); }
    assert("model"@ != "tools"@) by { assert("model"@[0] != "tools"@[0]); }
    assert("model"@ != "tool_choice"@) by { assert("model"@[0] != "tool_choice"@[0]); }
    assert("model"@ != "thinking"@) by { assert("model"@[0] != "thinking"@[0]); }
    assert("model"@ != "reasoning_effort"@) by { assert("model"@[0] != "reasoning_effort"@[0]); }
    assert("model"@ != "messages"@) by { assert("model"@.len() != "messages"@.len()); }
    let m = Json::Str(crate::protocol::transform::upstream_model(payload, config.upstream_model@));
    let p0 = supported_members(payload);
    let p1 = with_max_tokens(p0, payload);
    let p2 = obj_set(p1, "model"@, m);
    lemma_obj_set_get(p1, "model"@, m);
    let p3 = with_stream_usage(p2);
    if crate::json::opt_bool(obj_get(p2, "stream"@)) == Some(true) {
        let options = match crate::json::opt_object(obj_get(p2, "stream_options"@)) {
            Some(o) => o,
            None => Seq::empty(),
        };
        lemma_obj_set_other(p2, "stream_options"@, "model"@, Json::Object(obj_set(options, "include_usage"@, Json::Bool(true))));
    }
    let p4 = with_tools(p3, payload);
    match crate::json::opt_array(obj_get(p3, "tools"@)) {
        Some(tools) => {
            lemma_obj_set_other(p3, "tools"@, "model"@, Json::Array(tools.map_values(|t: Json| crate::protocol::transform::normalized_tool_json(t))));
        },
        None => match crate::json::opt_array(obj_get(payload, "functions"@)) {
            Some(functions) => {
                lemma_obj_set_other(p3, "tools"@, "model"@, Json::Array(functions.map_values(|f: Json| crate::protocol::transform::legacy_tool_json(f))));
            },
            None => {},
        },
    }
    let p5 = with_tool_choice(p4, payload);
    match obj_get(p4, "tool_choice"@) {
        Some(tc) => match crate::protocol::normalize::tool_choice_normalized(tc) {
            Some(v) => {
                lemma_obj_set_other(p4, "tool_choice"@, "model"@, v);
            },
            None => {
                lemma_obj_remove_other(p4, "tool_choice"@, "model"@);
            },
        },
        None => match obj_get(payload, "function_call"@) {
            Some(fc) => match crate::protocol::normalize::function_call_choice(fc) {
                Some(c) => {
                    lemma_obj_set_other(p4, "tool_choice"@, "model"@, c);
                },
                None => {},
            },
            None => {},
        },
    }
    let t = crate::protocol::model::thinking_json(config.thinking@);
    lemma_obj_set_other(p5, "thinking"@, "model"@, t);
    if config.thinking@ == "enabled"@ {
        lemma_obj_set_other(
            obj_set(p5, "thinking"@, t),
            "reasoning_effort"@,
            "model"@,
            Json::Str(crate::protocol::normalize::effort_level(config.reasoning_effort@)),
        );
    }
    let p6 = with_thinking(p5, config.thinking@, config.reasoning_effort@);
    lemma_obj_set_other(
        p6,
        "messages"@,
        "model"@,
        Json::Array(crate::protocol::transform::upstream_messages(payload, config.thinking@)),
    );
}

/// DeepSeek's reasoning effort is always `max` or `high`, whatever was asked.
pub proof fn law_effort_is_max_or_high(requested: Seq<char>)
    ensures
        crate::protocol::normalize::effort_level(requested) == "max"@ || crate::protocol::normalize::effort_level(requested)
            == "high"@,
{
}

/// Setting one member leaves every other member as it was.
pub proof fn lemma_obj_set_other(m: Seq<(Seq<char>, Json)>, k: Seq<char>, other: Seq<char>, v: Json)
    requires
        other != k,
    ensures
        obj_get(obj_set(m, k, v), other) == obj_get(m, other),
    decreases m.len(),
{
    let r = obj_set(m, k, v);
    if m.len() == 0 {
        assert(r.drop_first() =~= Seq::<(Seq<char>, Json)>::empty());
        assert(obj_get(r.drop_first(), other) is None);
        assert(obj_get(r, other) == obj_get(r.drop_first(), other));
    } else if m[0].0 == k {
        assert(r.drop_first() =~= m.drop_first());
        assert(obj_get(r, other) == obj_get(r.drop_first(), other));
        assert(obj_get(m, other) == obj_get(m.drop_first(), other));
    } else {
        lemma_obj_set_other(m.drop_first(), k, other, v);
        assert(r.drop_first() =~= obj_set(m.drop_first(), k, v));
        assert(r[0] == m[0]);
    }
}

/// The client sees the model name it asked for: a response that names a model
/// comes back naming the client's model, whatever else is rewritten.
pub proof fn law_client_sees_its_model(
    p: Json,
    original_model: Seq<char>,
    content_prefix: Option<Seq<char>>,
    display_reasoning: bool,
    collapsible_reasoning: bool,
)
    requires
        p.get("model"@) is Some,
    ensures
        rewritten_payload(p, original_model, content_prefix, display_reasoning, collapsible_reasoning).get("model"@)
            == Some(Json::Str(original_model)),
{
    reveal_strlit("model");
    reveal_strlit("choices");
    assert("model"@ != "choices"@) by {
        assert("model"@.len() != "choices"@.len());
    }
    let p1 = match content_prefix {
        Some(pre) => prefixed_payload(p, pre).0,
        None => p,
    };
    if let Json::Object(pm) = p {
        if let Some(Json::Array(cs)) = obj_get(pm, "choices"@) {
            if let Some(pre) = content_prefix {
                match crate::protocol::response_rewrite::first_with_message(cs, cs.len() as int) {
                    Some(i) => {
                        lemma_obj_set_other(
                            pm,
                            "choices"@,
                            "model"@,
                            Json::Array(cs.update(i, crate::protocol::response_rewrite::prefixed_choice(cs[i], pre).unwrap())),
                        );
                    },
                    None => {},
                }
            }
        }
    }
    assert(p1.get("model"@) is Some);
    let p2 = if display_reasoning {
        folded_payload(p1, collapsible_reasoning)
    } else {
        p1
    };
    if let Json::Object(pm1) = p1 {
        if let Some(Json::Array(cs1)) = obj_get(pm1, "choices"@) {
            lemma_obj_set_other(
                pm1,
                "choices"@,
                "model"@,
                Json::Array(cs1.map_values(|c: Json| crate::protocol::folding::folded_choice(c, collapsible_reasoning))),
            );
        }
    }
    assert(p2.get("model"@) is Some);
    if let Json::Object(pm2) = p2 {
        lemma_obj_set_get(pm2, "model"@, Json::Str(original_model));
    }
}

/// Looking a key up in two member lists put together finds it in the first
/// when it is there, in the second otherwise.
pub proof fn lemma_obj_get_append(a: Seq<(Seq<char>, Json)>, b: Seq<(Seq<char>, Json)>, k: Seq<char>)
    ensures
        obj_get(a + b, k) == match obj_get(a, k) {
            Some(v) => Some(v),
            None => obj_get(b, k),
        },
    decreases a.len(),
{
    if a.len() == 0 {
        assert(a + b =~= b);
    } else {
        assert((a + b)[0] == a[0]);
        if a[0].0 != k {
            assert((a + b).drop_first() =~= a.drop_first() + b);
            lemma_obj_get_append(a.drop_first(), b, k);
        }
    }
}

proof fn lemma_opt_member_get(key: Seq<char>, v: Option<Json>, k: Seq<char>)
    ensures
        obj_get(opt_member(key, v), k) == if key == k {
            v
        } else {
            None
        },
{
    match v {
        Some(x) => {
            let m = opt_member(key, v);
            assert(m == seq![(key, x)]);
            assert(m.len() == 1 && m[0] == (key, x));
            assert(m.drop_first() =~= Seq::<(Seq<char>, Json)>::empty());
            assert(obj_get(m.drop_first(), k) is None);
        },
        None => {
            assert(opt_member(key, v) =~= Seq::<(Seq<char>, Json)>::empty());
        },
    }
}

proof fn lemma_message_json_reasoning(m: MessageView)
    ensures
        message_json(m).get("reasoning_content"@) == opt_str_json(m.reasoning_content),
{
    reveal_strlit("role");
    reveal_strlit("content");
    reveal_strlit("name");
    reveal_strlit("tool_call_id");
    reveal_strlit("tool_calls");
    reveal_strlit("reasoning_content");
    reveal_strlit("prefix");
    let k = "reasoning_content"@;
    let p1 = seq![("role"@, Json::Str(m.role))];
    let p2 = opt_member("content"@, m.content);
    let p3 = opt_member("name"@, opt_str_json(m.name));
    let p4 = opt_member("tool_call_id"@, opt_str_json(m.tool_call_id));
    let p5 = opt_member(
        "tool_calls"@,
        match m.tool_calls {
            Some(c) => Some(Json::Array(crate::protocol::model::tool_calls_json(c))),
            None => None,
        },
    );
    let p6 = opt_member("reasoning_content"@, opt_str_json(m.reasoning_content));
    let p7 = opt_member("prefix"@, opt_bool_json_of(m));
    assert("role"@ != k) by {
        assert("role"@.len() != k.len());
    }
    assert("content"@ != k) by {
        assert("content"@.len() != k.len());
    }
    assert("name"@ != k) by {
        assert("name"@.len() != k.len());
    }
    assert("tool_call_id"@ != k) by {
        assert("tool_call_id"@.len() != k.len());
    }
    assert("tool_calls"@ != k) by {
        assert("tool_calls"@.len() != k.len());
    }
    assert("prefix"@ != k) by {
        assert("prefix"@.len() != k.len());
    }
    assert(p1.drop_first() =~= Seq::<(Seq<char>, Json)>::empty());
    assert(obj_get(p1.drop_first(), k) is None);
    assert(obj_get(p1, k) is None);
    lemma_opt_member_get("content"@, m.content, k);
    lemma_opt_member_get("name"@, opt_str_json(m.name), k);
    lemma_opt_member_get("tool_call_id"@, opt_str_json(m.tool_call_id), k);
    lemma_opt_member_get("tool_calls"@, match m.tool_calls {
        Some(c) => Some(Json::Array(crate::protocol::model::tool_calls_json(c))),
        None => None,
    }, k);
    lemma_opt_member_get("reasoning_content"@, opt_str_json(m.reasoning_content), k);
    lemma_opt_member_get("prefix"@, opt_bool_json_of(m), k);
    lemma_obj_get_append(p1, p2, k);
    lemma_obj_get_append(p1 + p2, p3, k);
    lemma_obj_get_append(p1 + p2 + p3, p4, k);
    lemma_obj_get_append(p1 + p2 + p3 + p4, p5, k);
    lemma_obj_get_append(p1 + p2 + p3 + p4 + p5, p6, k);
    lemma_obj_get_append(p1 + p2 + p3 + p4 + p5 + p6, p7, k);
    assert(message_json(m) == Json::Object(p1 + p2 + p3 + p4 + p5 + p6 + p7));
}

spec fn opt_bool_json_of(m: MessageView) -> Option<Json> {
    crate::protocol::model::opt_bool_json(m.prefix)
}

/// History reasoning follows the thinking switch: unless thinking is
/// disabled, an upstream message carries the reasoning text that the client's
/// message gave it; with thinking disabled no upstream message carries any.
pub proof fn law_history_reasoning_follows_thinking(
    payload: Seq<(Seq<char>, Json)>,
    config: AppConfig,
    items: Seq<Json>,
    i: int,
)
    requires
        obj_get(payload, "messages"@) == Some(Json::Array(items)),
        0 <= i < items.len(),
    ensures
        obj_get(prepared_payload(payload, config), "messages"@) matches Some(Json::Array(ms)) && ms.len()
            == items.len() && (config.thinking@ != "disabled"@ && items[i].get("reasoning_content"@) is Some
            && items[i].get("reasoning_content"@).unwrap() is Str ==> ms[i].get("reasoning_content"@)
            == items[i].get("reasoning_content"@)) && (config.thinking@ == "disabled"@ ==> ms[i].get(
            "reasoning_content"@,
        ) is None),
{
    let keep = config.thinking@ != "disabled"@;
    let ms = crate::protocol::transform::upstream_messages(payload, config.thinking@);
    let p = prepared_payload(payload, config);
    assert(p == obj_set(
        with_thinking(
            with_tool_choice(
                with_tools(
                    with_stream_usage(
                        obj_set(
                            with_max_tokens(supported_members(payload), payload),
                            "model"@,
                            Json::Str(crate::protocol::transform::upstream_model(payload, config.upstream_model@)),
                        ),
                    ),
                    payload,
                ),
                payload,
            ),
            config.thinking@,
            config.reasoning_effort@,
        ),
        "messages"@,
        Json::Array(ms),
    ));
    lemma_obj_set_get(
        with_thinking(
            with_tool_choice(
                with_tools(
                    with_stream_usage(
                        obj_set(
                            with_max_tokens(supported_members(payload), payload),
                            "model"@,
                            Json::Str(crate::protocol::transform::upstream_model(payload, config.upstream_model@)),
                        ),
                    ),
                    payload,
                ),
                payload,
            ),
            config.thinking@,
            config.reasoning_effort@,
        ),
        "messages"@,
        Json::Array(ms),
    );
    let mv = message_from_json(items[i], keep);
    assert(ms.len() == items.len());
    assert(ms[i] == message_json(mv));
    lemma_message_json_reasoning(mv);
}

/// A folded reasoning block is closed the way it was opened: a choice with
/// reasoning `r` and content `t` gets `r` between a `<details>` opener and its
/// closer when the block is collapsible, between `<think>` and `</think>`
/// otherwise, followed by `t`.
pub proof fn law_folded_block_closes_as_it_opens(
    cm: Seq<(Seq<char>, Json)>,
    mm: Seq<(Seq<char>, Json)>,
    r: Seq<char>,
    collapsible: bool,
)
    requires
        obj_get(cm, "message"@) == Some(Json::Object(mm)),
        obj_get(mm, "reasoning_content"@) == Some(Json::Str(r)),
        r.len() > 0,
    ensures
        folded_choice(Json::Object(cm), collapsible).get("message"@) matches Some(m2) && m2.get("content"@) == Some(
            Json::Str(
                if collapsible {
                    "<details>\n<summary>Thinking</summary>\n\n"@ + r + "\n</details>\n\n"@
                } else {
                    "<think>\n"@ + r + "\n</think>\n\n"@
                } + match opt_str(obj_get(mm, "content"@)) {
                    Some(t) => t,
                    None => Seq::empty(),
                },
            ),
        ),
{
    let existing = match opt_str(obj_get(mm, "content"@)) {
        Some(t) => t,
        None => Seq::<char>::empty(),
    };
    let text = crate::protocol::folding::block_start(collapsible) + r + crate::protocol::folding::block_end(collapsible)
        + existing;
    let mm2 = obj_set(mm, "content"@, Json::Str(text));
    lemma_obj_set_get(mm, "content"@, Json::Str(text));
    lemma_obj_set_get(cm, "message"@, Json::Object(mm2));
    let expected = if collapsible {
        "<details>\n<summary>Thinking</summary>\n\n"@ + r + "\n</details>\n\n"@
    } else {
        "<think>\n"@ + r + "\n</think>\n\n"@
    };
    assert(text =~= expected + existing);
}

/// A tool call's arguments given as a string are kept as that very string,
/// and go upstream as it: they are not encoded again.
pub proof fn law_string_arguments_kept(v: Json, f: Seq<(Seq<char>, Json)>, s: Seq<char>)
    requires
        v.get("function"@) == Some(Json::Object(f)),
        obj_get(f, "arguments"@) == Some(Json::Str(s)),
    ensures
        tool_call_from_json(v).arguments == s,
        tool_function_json(tool_call_from_json(v)).get("arguments"@) == Some(Json::Str(s)),
{
    reveal_strlit("name");
    reveal_strlit("arguments");
    let c = tool_call_from_json(v);
    let fm = seq![("name"@, Json::Str(c.name)), ("arguments"@, Json::Str(c.arguments))];
    assert("name"@ != "arguments"@) by {
        assert("name"@.len() != "arguments"@.len());
    }
    assert(tool_function_json(c) == Json::Object(fm));
    assert(fm[0].0 != "arguments"@);
    assert(fm.drop_first()[0] == ("arguments"@, Json::Str(c.arguments)));
    assert(obj_get(fm.drop_first(), "arguments"@) == Some(Json::Str(c.arguments)));
    assert(obj_get(fm, "arguments"@) == Some(Json::Str(c.arguments)));
}

} // verus!
