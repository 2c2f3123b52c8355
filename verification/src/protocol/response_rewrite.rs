//! What the proxy does to a complete (non-streaming) upstream response.
use vstd::prelude::*;
use crate::error::AppError;
use crate::json::{
    Json, JsonValue, clone_items, clone_map, encode_bytes, items_view, json_bytes, json_parse,
    map_get, map_insert, members_view, obj_get, obj_set, opt_str, parse_json,
};
use crate::protocol::folding::{fold_reasoning_into_content, folded_payload};
use crate::protocol::model::{Message, MessageView};
use crate::protocol::normalize::{message_from_json, normalize_message};
use crate::reasoning::keys::{conversation_scope, scope_of};
use crate::reasoning::store::{
    ReasoningStore, cache_with, candidate_keys, stores_reasoning,
};
use crate::text::{concat, owned};

verus! {

/// A choice with the prefix put before its message's content, when it has a
/// message object.
pub open spec fn prefixed_choice(c: Json, prefix: Seq<char>) -> Option<Json> {
    match c {
        Json::Object(cm) => match obj_get(cm, "message"@) {
            Some(Json::Object(mm)) => {
                let existing = match opt_str(obj_get(mm, "content"@)) {
                    Some(t) => t,
                    None => Seq::empty(),
                };
                Some(
                    Json::Object(
                        obj_set(cm, "message"@, Json::Object(obj_set(mm, "content"@, Json::Str(prefix + existing)))),
                    ),
                )
            },
            _ => None,
        },
        _ => None,
    }
}

/// The first of the first `n` choices that has a message object.
pub open spec fn first_with_message(cs: Seq<Json>, n: int) -> Option<int>
    decreases n,
{
    if n <= 0 {
        None
    } else {
        match first_with_message(cs, n - 1) {
            Some(i) => Some(i),
            None => if prefixed_choice(cs[n - 1], Seq::empty()) is Some {
                Some(n - 1)
            } else {
                None
            },
        }
    }
}

proof fn lemma_first_with_message_stays(cs: Seq<Json>, n: int, m: int)
    requires
        0 <= n <= m,
        first_with_message(cs, n) is Some,
    ensures
        first_with_message(cs, m) == first_with_message(cs, n),
    decreases m - n,
{
    if m > n {
        lemma_first_with_message_stays(cs, n, m - 1);
    }
}

/// A response with the prefix put before the content of the first choice that
/// has a message, and whether there was such a choice.
pub open spec fn prefixed_payload(p: Json, prefix: Seq<char>) -> (Json, bool) {
    match p {
        Json::Object(pm) => match obj_get(pm, "choices"@) {
            Some(Json::Array(cs)) => match first_with_message(cs, cs.len() as int) {
                Some(i) => (
                    Json::Object(
                        obj_set(
                            pm,
                            "choices"@,
                            Json::Array(cs.update(i, prefixed_choice(cs[i], prefix).unwrap())),
                        ),
                    ),
                    true,
                ),
                None => (p, false),
            },
            _ => (p, false),
        },
        _ => (p, false),
    }
}

fn prefix_choice(c: &JsonValue, prefix: &str) -> (r: Option<JsonValue>)
    ensures
        match r {
            Some(v) => prefixed_choice(c@, prefix@) == Some(v@),
            None => prefixed_choice(c@, prefix@) is None,
        },
        (r is Some) == (prefixed_choice(c@, Seq::empty()) is Some),
{
    if let JsonValue::Object(cm) = c {
        if let Some(JsonValue::Object(mm)) = map_get(cm, "message") {
            let existing = match map_get(mm, "content") {
                Some(JsonValue::Str(t)) => t.clone(),
                _ => String::new(),
            };
            let text = concat(prefix, existing.as_str());
            let mut message = clone_map(mm);
            map_insert(&mut message, owned("content"), JsonValue::Str(text));
            let mut choice = clone_map(cm);
            map_insert(&mut choice, owned("message"), JsonValue::Object(message));
            return Some(JsonValue::Object(choice));
        }
    }
    None
}

/// Puts the prefix before the content of the first choice that has a message.
fn prefix_response_content(response_payload: &mut JsonValue, prefix: &str) -> (r: bool)
    ensures
        (final(response_payload)@, r) == prefixed_payload(old(response_payload)@, prefix@),
{
    let replacement = match &*response_payload {
        JsonValue::Object(pm) => match map_get(pm, "choices") {
            Some(JsonValue::Array(cs)) => {
                let ghost cv = items_view(cs@);
                let mut i: usize = 0;
                let mut found: Option<JsonValue> = None;
                while i < cs.len() && found.is_none()
                    invariant
                        i <= cs.len(),
                        cv == items_view(cs@),
                        first_with_message(cv, i as int) is None,
                        found matches Some(v) ==> i < cs.len() && prefixed_choice(cv[i as int], prefix@)
                            == Some(v@) && prefixed_choice(cv[i as int], Seq::empty()) is Some,
                    decreases cs.len() - i + (if found is None { 1int } else { 0int }),
                {
                    match prefix_choice(&cs[i], prefix) {
                        Some(v) => {
                            found = Some(v);
                        },
                        None => {
                            i = i + 1;
                        },
                    }
                }
                match found {
                    Some(v) => {
                        proof {
                            assert(first_with_message(cv, i + 1) == Some(i as int));
                            lemma_first_with_message_stays(cv, i + 1, cv.len() as int);
                        }
                        let mut items = clone_items(cs);
                        items.set(i, v);
                        assert(items_view(items@) =~= cv.update(
                            i as int,
                            prefixed_choice(cv[i as int], prefix@).unwrap(),
                        ));
                        let mut m = clone_map(pm);
                        map_insert(&mut m, owned("choices"), JsonValue::Array(items));
                        Some(JsonValue::Object(m))
                    },
                    None => None,
                }
            },
            _ => None,
        },
        _ => None,
    };
    match replacement {
        Some(v) => {
            *response_payload = v;
            true
        },
        None => false,
    }
}

/// The message of a choice, read as the client would send it back, with its reasoning.
pub open spec fn choice_message(c: Json) -> Option<MessageView> {
    match c.get("message"@) {
        Some(m) => Some(message_from_json(m, true)),
        None => None,
    }
}

/// Addition that stops at the largest `usize`.
pub open spec fn sat_add(a: nat, b: nat) -> nat {
    if a + b > usize::MAX {
        usize::MAX as nat
    } else {
        a + b
    }
}

/// How many keys the messages of the choices are kept under.
pub open spec fn recorded_count(cs: Seq<Json>, scope: Seq<char>, namespace: Seq<char>, prior: Seq<MessageView>) -> nat
    decreases cs.len(),
{
    if cs.len() == 0 {
        0
    } else {
        let before = recorded_count(cs.drop_last(), scope, namespace, prior);
        match choice_message(cs.last()) {
            Some(m) => if stores_reasoning(m) {
                sat_add(before, (candidate_keys(m, scope, namespace, Some(prior)).to_set().len() as usize) as nat)
            } else {
                before
            },
            None => before,
        }
    }
}

/// The cache after the reasoning of each choice's message is kept, in order.
pub open spec fn recorded_cache(
    cache: Map<Seq<char>, Seq<char>>,
    cs: Seq<Json>,
    scope: Seq<char>,
    namespace: Seq<char>,
    prior: Seq<MessageView>,
) -> Map<Seq<char>, Seq<char>>
    decreases cs.len(),
{
    if cs.len() == 0 {
        cache
    } else {
        let before = recorded_cache(cache, cs.drop_last(), scope, namespace, prior);
        match choice_message(cs.last()) {
            Some(m) => if stores_reasoning(m) {
                cache_with(before, candidate_keys(m, scope, namespace, Some(prior)), m.reasoning_content.unwrap())
            } else {
                before
            },
            None => before,
        }
    }
}

/// The choices of a response, none when it has no `choices` array.
pub open spec fn response_choices(p: Json) -> Option<Seq<Json>> {
    match p.get("choices"@) {
        Some(Json::Array(cs)) => Some(cs),
        _ => None,
    }
}

/// The scope reasoning is kept in: the given one, else the scope of the request.
pub open spec fn effective_scope(scope: Option<&str>, request: Seq<MessageView>, namespace: Seq<char>) -> Seq<char> {
    match scope {
        Some(s) => s@,
        None => scope_of(request, namespace),
    }
}

/// The earlier messages reasoning is kept against: the given ones, else the request's.
pub open spec fn effective_prior(prior: Option<&[Message]>, request: Seq<MessageView>) -> Seq<MessageView> {
    match prior {
        Some(p) => p@.map_values(|m: Message| m@),
        None => request,
    }
}

/// Keeps the reasoning of each choice's message in the store, giving how many
/// keys it was kept under.
pub fn record_response_reasoning<S: ReasoningStore>(
    response_payload: &JsonValue,
    store: Option<&mut S>,
    request_messages: &[Message],
    cache_namespace: &str,
    scope: Option<&str>,
    prior_messages: Option<&[Message]>,
) -> (r: Result<usize, AppError>)
    ensures
        store is None ==> r == Ok::<usize, AppError>(0),
        response_choices(response_payload@) is None ==> r == Ok::<usize, AppError>(0),
        store matches Some(s) ==> final(s).keeps_all() == s.keeps_all() && final(s).infallible() == s.infallible(),
        store matches Some(s) ==> (response_choices(response_payload@) is None ==> final(s).cached() == s.cached()),
        store matches Some(s) && s.infallible() ==> r is Ok,
        r matches Ok(n) ==> (store is Some ==> (response_choices(response_payload@) matches Some(cs) ==> n == recorded_count(
            cs,
            effective_scope(scope, request_messages@.map_values(|m: Message| m@), cache_namespace@),
            cache_namespace@,
            effective_prior(prior_messages, request_messages@.map_values(|m: Message| m@)),
        ))),
        store matches Some(s) ==> (r is Ok && s.keeps_all() ==> (response_choices(response_payload@) matches Some(cs) ==> final(s).cached() == recorded_cache(
            s.cached(),
            cs,
            effective_scope(scope, request_messages@.map_values(|m: Message| m@), cache_namespace@),
            cache_namespace@,
            effective_prior(prior_messages, request_messages@.map_values(|m: Message| m@)),
        ))),
{
    let store = match store {
        Some(s) => s,
        None => {
            return Ok(0);
        },
    };
    let choices = match response_payload.get("choices") {
        Some(JsonValue::Array(cs)) => cs,
        _ => {
            return Ok(0);
        },
    };
    let ghost request = request_messages@.map_values(|m: Message| m@);
    let response_scope = match scope {
        Some(s) => owned(s),
        None => conversation_scope(request_messages, cache_namespace),
    };
    let prior: &[Message] = match prior_messages {
        Some(p) => p,
        None => request_messages,
    };
    record_choices(choices, store, response_scope.as_str(), cache_namespace, prior)
}

/// Keeps the reasoning of each choice's message, in order, stopping at the
/// first failure of the store.
fn record_choices<S: ReasoningStore>(
    choices: &Vec<JsonValue>,
    store: &mut S,
    scope: &str,
    cache_namespace: &str,
    prior: &[Message],
) -> (r: Result<usize, AppError>)
    ensures
        final(store).keeps_all() == old(store).keeps_all(),
        final(store).infallible() == old(store).infallible(),
        old(store).infallible() ==> r is Ok,
        r matches Ok(n) ==> n == recorded_count(
            items_view(choices@),
            scope@,
            cache_namespace@,
            prior@.map_values(|m: Message| m@),
        ),
        r is Ok && old(store).keeps_all() ==> final(store).cached() == recorded_cache(
            old(store).cached(),
            items_view(choices@),
            scope@,
            cache_namespace@,
            prior@.map_values(|m: Message| m@),
        ),
{
    let ghost cv = items_view(choices@);
    let ghost pv = prior@.map_values(|m: Message| m@);
    let ghost start = store.cached();
    let ghost keeps = store.keeps_all();
    let ghost never_fails = store.infallible();
    let mut stored: usize = 0;
    let mut i: usize = 0;
    while i < choices.len()
        invariant
            i <= choices.len(),
            cv == items_view(choices@),
            pv == prior@.map_values(|m: Message| m@),
            store.keeps_all() == keeps,
            store.infallible() == never_fails,
            keeps == old(store).keeps_all(),
            never_fails == old(store).infallible(),
            start == old(store).cached(),
            stored == recorded_count(cv.take(i as int), scope@, cache_namespace@, pv),
            keeps ==> store.cached() == recorded_cache(start, cv.take(i as int), scope@, cache_namespace@, pv),
        decreases choices.len() - i,
    {
        proof {
            assert(cv.take(i + 1).drop_last() =~= cv.take(i as int));
            assert(cv.take(i + 1).last() == choices@[i as int]@);
        }
        if let Some(message_value) = choices[i].get("message") {
            let message = normalize_message(message_value, true);
            assert(choice_message(cv[i as int]) == Some(message@));
            let n = store.store_assistant_message(&message, scope, cache_namespace, Some(prior))?;
            stored = if n > usize::MAX - stored {
                usize::MAX
            } else {
                stored + n
            };
        }
        i = i + 1;
    }
    proof {
        assert(cv.take(choices.len() as int) =~= cv);
    }
    Ok(stored)
}

/// A response with its `model` member, when it has one, set to the given name.
pub open spec fn with_model_name(p: Json, model: Seq<char>) -> Json {
    match p {
        Json::Object(pm) => if obj_get(pm, "model"@) is Some {
            Json::Object(obj_set(pm, "model"@, Json::Str(model)))
        } else {
            p
        },
        _ => p,
    }
}

pub(crate) fn set_model_name(p: &mut JsonValue, model: &str)
    ensures
        final(p)@ == with_model_name(old(p)@, model@),
{
    let replacement = match &*p {
        JsonValue::Object(pm) => if map_get(pm, "model").is_some() {
            let mut m = clone_map(pm);
            map_insert(&mut m, owned("model"), JsonValue::string(model));
            Some(JsonValue::Object(m))
        } else {
            None
        },
        _ => None,
    };
    if let Some(v) = replacement {
        *p = v;
    }
}

/// A parsed response as the client gets it: the prefix put in, reasoning
/// folded into content when it is displayed, and the client's model name.
pub open spec fn rewritten_payload(
    p: Json,
    original_model: Seq<char>,
    content_prefix: Option<Seq<char>>,
    display_reasoning: bool,
    collapsible_reasoning: bool,
) -> Json {
    let p1 = match content_prefix {
        Some(pre) => prefixed_payload(p, pre).0,
        None => p,
    };
    let p2 = if display_reasoning {
        folded_payload(p1, collapsible_reasoning)
    } else {
        p1
    };
    with_model_name(p2, original_model)
}

/// The view of an optional text.
pub open spec fn opt_str_seq(s: Option<&str>) -> Option<Seq<char>> {
    match s {
        Some(t) => Some(t@),
        None => None,
    }
}

/// Rewrites a complete upstream response for the client, keeping its reasoning
/// in the store: a body that is not JSON is an upstream error with the parser's
/// message; otherwise the rewritten response, unless the store fails.
pub fn rewrite_response_body<S: ReasoningStore>(
    body: &[u8],
    original_model: &str,
    store: Option<&mut S>,
    request_messages: &[Message],
    cache_namespace: &str,
    content_prefix: Option<&str>,
    display_reasoning: bool,
    collapsible_reasoning: bool,
) -> (r: Result<Vec<u8>, AppError>)
    ensures
        json_parse(body@) matches Err(e) ==> r matches Err(AppError::Upstream(m)) && m@ == e,
        json_parse(body@) is Ok && (store matches Some(s) ==> s.infallible()) ==> r is Ok,
        r matches Ok(b) ==> (json_parse(body@) matches Ok(p) ==> b@ == json_bytes(
            rewritten_payload(p, original_model@, opt_str_seq(content_prefix), display_reasoning, collapsible_reasoning),
        )),
        store matches Some(s) ==> final(s).keeps_all() == s.keeps_all() && final(s).infallible() == s.infallible(),
        store matches Some(s) ==> (r is Ok && s.keeps_all() ==> (json_parse(body@) matches Ok(p) ==> match response_choices(
            match content_prefix {
                Some(pre) => prefixed_payload(p, pre@).0,
                None => p,
            },
        ) {
            Some(cs) => final(s).cached() == recorded_cache(
                s.cached(),
                cs,
                scope_of(request_messages@.map_values(|m: Message| m@), cache_namespace@),
                cache_namespace@,
                request_messages@.map_values(|m: Message| m@),
            ),
            None => final(s).cached() == s.cached(),
        })),
{
    let mut payload = match parse_json(body) {
        Ok(v) => v,
        Err(e) => {
            return Err(AppError::Upstream(e));
        },
    };
    if let Some(prefix) = content_prefix {
        let _ = prefix_response_content(&mut payload, prefix);
    }
    record_response_reasoning(&payload, store, request_messages, cache_namespace, None, None)?;
    if display_reasoning {
        fold_reasoning_into_content(&mut payload, collapsible_reasoning);
    }
    set_model_name(&mut payload, original_model);
    Ok(encode_bytes(&payload))
}

} // verus!
