//! Folding a response's reasoning into its visible content.
use vstd::prelude::*;
use crate::json::{Json, JsonMap, JsonValue, clone_map, items_view, map_get, map_insert, members_view, obj_get, obj_set, opt_str};
use crate::text::{concat, owned};

verus! {

pub const THINKING_SUMMARY: &'static str = "Thinking";
pub const THINKING_BLOCK_START: &'static str = "<think>\n";
pub const THINKING_BLOCK_END: &'static str = "\n</think>\n\n";
pub const COLLAPSIBLE_THINKING_BLOCK_START: &'static str = "<details>\n<summary>Thinking</summary>\n\n";
pub const COLLAPSIBLE_THINKING_BLOCK_END: &'static str = "\n</details>\n\n";

/// What opens a reasoning block: a collapsible `<details>` block or a `<think>` block.
pub open spec fn block_start(collapsible: bool) -> Seq<char> {
    if collapsible {
        COLLAPSIBLE_THINKING_BLOCK_START@
    } else {
        THINKING_BLOCK_START@
    }
}

/// What closes a reasoning block.
pub open spec fn block_end(collapsible: bool) -> Seq<char> {
    if collapsible {
        COLLAPSIBLE_THINKING_BLOCK_END@
    } else {
        THINKING_BLOCK_END@
    }
}

/// What opens a reasoning block.
pub fn block_start_text(collapsible: bool) -> (r: &'static str)
    ensures
        r@ == block_start(collapsible),
{
    if collapsible {
        COLLAPSIBLE_THINKING_BLOCK_START
    } else {
        THINKING_BLOCK_START
    }
}

/// What closes a reasoning block.
pub fn block_end_text(collapsible: bool) -> (r: &'static str)
    ensures
        r@ == block_end(collapsible),
{
    if collapsible {
        COLLAPSIBLE_THINKING_BLOCK_END
    } else {
        THINKING_BLOCK_END
    }
}

/// A choice whose message has non-empty reasoning gets that reasoning, in a
/// block, put before its content; any other choice stays as it is.
pub open spec fn folded_choice(c: Json, collapsible: bool) -> Json {
    match c {
        Json::Object(cm) => match obj_get(cm, "message"@) {
            Some(Json::Object(mm)) => match opt_str(obj_get(mm, "reasoning_content"@)) {
                Some(r) => if r.len() > 0 {
                    let existing = match opt_str(obj_get(mm, "content"@)) {
                        Some(t) => t,
                        None => Seq::empty(),
                    };
                    Json::Object(
                        obj_set(
                            cm,
                            "message"@,
                            Json::Object(
                                obj_set(
                                    mm,
                                    "content"@,
                                    Json::Str(block_start(collapsible) + r + block_end(collapsible) + existing),
                                ),
                            ),
                        ),
                    )
                } else {
                    c
                },
                None => c,
            },
            _ => c,
        },
        _ => c,
    }
}

/// A response with each choice's reasoning folded into its content; a response
/// without a `choices` array stays as it is.
pub open spec fn folded_payload(p: Json, collapsible: bool) -> Json {
    match p {
        Json::Object(pm) => match obj_get(pm, "choices"@) {
            Some(Json::Array(cs)) => Json::Object(
                obj_set(
                    pm,
                    "choices"@,
                    Json::Array(cs.map_values(|c: Json| folded_choice(c, collapsible))),
                ),
            ),
            _ => p,
        },
        _ => p,
    }
}

fn fold_choice(c: &JsonValue, collapsible: bool) -> (r: JsonValue)
    ensures
        r@ == folded_choice(c@, collapsible),
{
    if let JsonValue::Object(cm) = c {
        if let Some(JsonValue::Object(mm)) = map_get(cm, "message") {
            if let Some(JsonValue::Str(reasoning)) = map_get(mm, "reasoning_content") {
                if !reasoning.as_str().is_empty() {
                    let existing = match map_get(mm, "content") {
                        Some(JsonValue::Str(t)) => t.clone(),
                        _ => String::new(),
                    };
                    let a = concat(block_start_text(collapsible), reasoning.as_str());
                    let b = concat(a.as_str(), block_end_text(collapsible));
                    let text = concat(b.as_str(), existing.as_str());
                    let mut message = clone_map(mm);
                    map_insert(&mut message, owned("content"), JsonValue::Str(text));
                    let mut choice = clone_map(cm);
                    map_insert(&mut choice, owned("message"), JsonValue::Object(message));
                    return JsonValue::Object(choice);
                }
            }
        }
    }
    c.deep_clone()
}

/// Puts each choice's reasoning, in a block, before its content.
pub fn fold_reasoning_into_content(response_payload: &mut JsonValue, collapsible: bool)
    ensures
        final(response_payload)@ == folded_payload(old(response_payload)@, collapsible),
{
    let replacement = match &*response_payload {
        JsonValue::Object(pm) => match map_get(pm, "choices") {
            Some(JsonValue::Array(cs)) => {
                let mut out: Vec<JsonValue> = Vec::new();
                let mut i: usize = 0;
                while i < cs.len()
                    invariant
                        i <= cs.len(),
                        out@.len() == i,
                        forall|j: int| 0 <= j < i ==> out@[j]@ == folded_choice(cs@[j]@, collapsible),
                    decreases cs.len() - i,
                {
                    out.push(fold_choice(&cs[i], collapsible));
                    i = i + 1;
                }
                assert(items_view(out@) =~= items_view(cs@).map_values(
                    |c: Json| folded_choice(c, collapsible),
                ));
                let mut m = clone_map(pm);
                map_insert(&mut m, owned("choices"), JsonValue::Array(out));
                Some(JsonValue::Object(m))
            },
            _ => None,
        },
        _ => None,
    };
    if let Some(v) = replacement {
        *response_payload = v;
    }
}

} // verus!
