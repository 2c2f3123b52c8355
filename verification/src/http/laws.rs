//! What streaming promises across chunks and calls.
use vstd::prelude::*;
use crate::json::{Json, lemma_obj_set_get, obj_get, opt_str};
use crate::http::sse::{
    StreamingChoiceView, adapted_delta, all_kept_final, blank_choice, gathered_order, ingested, kept_choice, kept_choices,
    lemma_sorted_unique, sorted_indexes, stage_of, streamed_message, with_stage, writes_stage,
};
use crate::number::{all_digits, integer_text_value, is_digit, lemma_decimal_value};
use crate::protocol::model::MessageView;
use crate::reasoning::keys::message_sig;
use crate::reasoning::laws::law_lookup_finds_kept_reasoning;
use crate::reasoning::store::{candidate_keys, first_cached, stores_reasoning};
use crate::text::{decimal, signed_decimal};

verus! {

proof fn lemma_index_text(n: i64)
    ensures
        Json::Number(signed_decimal(n as int)).as_i64() == Some(n),
{
    if n < 0 {
        let m = (-(n as int)) as nat;
        lemma_decimal_value(m);
        let t = seq!['-'] + decimal(m);
        assert(t.drop_first() =~= decimal(m));
        assert(!is_digit(t[0]));
        assert(!all_digits(t));
        assert(integer_text_value(t) == Some(n as int));
    } else {
        lemma_decimal_value(n as nat);
    }
}

/// A chunk with a reasoning delta for one choice.
pub open spec fn reasoning_delta_chunk(index: i64, text: Seq<char>) -> Json {
    Json::Object(
        seq![
            ("choices"@, Json::Array(seq![
                Json::Object(seq![
                    ("index"@, Json::Number(signed_decimal(index as int))),
                    ("delta"@, Json::Object(seq![("reasoning_content"@, Json::Str(text))])),
                ]),
            ])),
        ],
    )
}

/// Streamed reasoning accumulates: a reasoning delta for a choice adds its
/// text to what the choice gathered so far, and the other choices stay as
/// they were.
pub proof fn law_stream_appends_reasoning(m: Map<i64, StreamingChoiceView>, index: i64, text: Seq<char>)
    ensures
        ingested(m, reasoning_delta_chunk(index, text)).contains_key(index),
        ingested(m, reasoning_delta_chunk(index, text))[index].reasoning_content == (if m.contains_key(index) {
            m[index].reasoning_content
        } else {
            blank_choice().reasoning_content
        }) + text,
        ingested(m, reasoning_delta_chunk(index, text))[index].has_reasoning_content,
        forall|j: i64| j != index ==> #[trigger] ingested(m, reasoning_delta_chunk(index, text)).contains_key(j)
            == m.contains_key(j) && (m.contains_key(j) ==> ingested(m, reasoning_delta_chunk(index, text))[j] == m[j]),
{
    reveal_strlit("index");
    reveal_strlit("delta");
    reveal_strlit("choices");
    reveal_strlit("reasoning_content");
    reveal_strlit("finish_reason");
    reveal_strlit("role");
    reveal_strlit("content");
    reveal_strlit("tool_calls");
    lemma_index_text(index);
    assert("index"@ != "delta"@) by {
        assert("index"@[0] != "delta"@[0]);
    }
    assert("finish_reason"@ != "delta"@) by {
        assert("finish_reason"@[0] != "delta"@[0]);
    }
    assert("finish_reason"@ != "index"@) by {
        assert("finish_reason"@[0] != "index"@[0]);
    }
    assert("role"@ != "reasoning_content"@) by {
        assert("role"@.len() != "reasoning_content"@.len());
    }
    assert("content"@ != "reasoning_content"@) by {
        assert("content"@.len() != "reasoning_content"@.len());
    }
    assert("tool_calls"@ != "reasoning_content"@) by {
        assert("tool_calls"@.len() != "reasoning_content"@.len());
    }
    let co = seq![
        ("index"@, Json::Number(signed_decimal(index as int))),
        ("delta"@, Json::Object(seq![("reasoning_content"@, Json::Str(text))])),
    ];
    let dm = seq![("reasoning_content"@, Json::Str(text))];
    let cs = seq![Json::Object(co)];
    assert(cs.drop_last() =~= Seq::<Json>::empty());
    assert(obj_get(co, "index"@) == Some(Json::Number(signed_decimal(index as int))));
    assert(obj_get(co.drop_first(), "delta"@) == Some(Json::Object(dm)));
    assert(obj_get(co, "delta"@) == Some(Json::Object(dm)));
    assert(obj_get(co.drop_first().drop_first(), "finish_reason"@) is None);
    assert(obj_get(co.drop_first(), "finish_reason"@) is None);
    assert(obj_get(co, "finish_reason"@) is None);
    assert(obj_get(dm, "reasoning_content"@) == Some(Json::Str(text)));
    assert(obj_get(dm.drop_first(), "role"@) is None);
    assert(obj_get(dm, "role"@) is None);
    assert(obj_get(dm.drop_first(), "content"@) is None);
    assert(obj_get(dm, "content"@) is None);
    assert(obj_get(dm.drop_first(), "tool_calls"@) is None);
    assert(obj_get(dm, "tool_calls"@) is None);
    let chunk = reasoning_delta_chunk(index, text);
    assert(chunk.get("choices"@) == Some(Json::Array(cs)));
    assert(crate::http::sse::ingested_choices(m, cs.drop_last()) == m);
    let cur = if m.contains_key(index) {
        m[index]
    } else {
        blank_choice()
    };
    assert(crate::http::sse::chunk_choice_index(co) == index);
    let next = crate::http::sse::applied_choice_delta(cur, co);
    assert(next.reasoning_content == cur.reasoning_content + text);
    assert(ingested(m, chunk) == m.insert(index, next));
}

/// The mirrored text holds a reasoning delta's text: whatever blocks are open,
/// a delta with reasoning comes out with content in which the reasoning
/// stands whole.
pub proof fn law_mirrored_content_holds_reasoning(
    open: Set<i64>,
    index: i64,
    finish: Option<Json>,
    dm: Seq<(Seq<char>, Json)>,
    start: Seq<char>,
    end: Seq<char>,
    reasoning: Seq<char>,
)
    requires
        opt_str(obj_get(dm, "reasoning_content"@)) == Some(reasoning),
        reasoning.len() > 0,
    ensures
        adapted_delta(open, index, finish, dm, start, end).0 matches Some(dm2) && exists|before: Seq<char>, after: Seq<char>|
            opt_str(obj_get(dm2, "content"@)) == Some(before + reasoning + after),
{
    let existing = opt_str(obj_get(dm, "content"@));
    let rest = match existing {
        Some(t) => t,
        None => Seq::<char>::empty(),
    };
    let before = if open.contains(index) {
        Seq::<char>::empty()
    } else {
        start
    };
    let open1 = open.insert(index);
    let closes = open1.contains(index) && (existing is Some || obj_get(dm, "tool_calls"@) is Some || opt_str(finish) is Some);
    let after = if closes {
        end + rest
    } else {
        rest
    };
    let text2 = if closes {
        before + reasoning + end
    } else {
        before + reasoning
    };
    assert(text2 + rest =~= before + reasoning + after);
    lemma_obj_set_get(dm, "content"@, Json::Str(text2 + rest));
}

/// Once a choice's reasoning was kept at the end of the choice, keeping it
/// again changes nothing: reasoning is kept once per stage, never after the
/// final one.
pub proof fn law_final_stage_is_kept_once(
    st: (Seq<(i64, Seq<char>, bool)>, Map<Seq<char>, Seq<char>>, nat),
    index: i64,
    c: StreamingChoiceView,
    is_final: bool,
    scope: Seq<char>,
    namespace: Seq<char>,
    prior: Seq<MessageView>,
)
    requires
        stage_of(st.0, index, scope) == Some(true),
    ensures
        kept_choice(st, index, c, is_final, scope, namespace, prior) == st,
{
}

/// The reasoning of a streamed answer is found again: when a stream of one
/// choice ends, the reasoning it gathered is what a lookup gives for any
/// message with the same signature in the same scope (unless it was already
/// kept at the end before).
pub proof fn law_stream_end_keeps_reasoning(
    stages: Seq<(i64, Seq<char>, bool)>,
    cache: Map<Seq<char>, Seq<char>>,
    g: Map<i64, StreamingChoiceView>,
    index: i64,
    scope: Seq<char>,
    namespace: Seq<char>,
    prior: Seq<MessageView>,
    asked: MessageView,
    asked_namespace: Seq<char>,
    asked_prior: Option<Seq<MessageView>>,
)
    requires
        g.dom() == set![index],
        stage_of(stages, index, scope) != Some(true),
        stores_reasoning(streamed_message(g[index])),
        message_sig(asked) == message_sig(streamed_message(g[index])),
    ensures
        first_cached(
            kept_choices((stages, cache, 0), gathered_order(g), scope, namespace, prior, false).1,
            candidate_keys(asked, scope, asked_namespace, asked_prior),
        ) == Some(g[index].reasoning_content),
{
    let ks = seq![index];
    assert(ks.to_set() =~= g.dom()) by {
        assert(ks.contains(index) || !ks.contains(index));
        assert(ks[0] == index);
    }
    lemma_sorted_unique(ks, sorted_indexes(g.dom()));
    let order = gathered_order(g);
    assert(order =~= seq![(index, g[index])]);
    assert(order.drop_last() =~= Seq::<(i64, StreamingChoiceView)>::empty());
    let m = streamed_message(g[index]);
    assert(kept_choices((stages, cache, 0), order.drop_last(), scope, namespace, prior, false) == (stages, cache, 0nat));
    assert(kept_choices((stages, cache, 0), order, scope, namespace, prior, false) == kept_choice(
        (stages, cache, 0nat),
        index,
        g[index],
        true,
        scope,
        namespace,
        prior,
    ));
    assert(m.reasoning_content.unwrap() == g[index].reasoning_content);
    law_lookup_finds_kept_reasoning(
        cache,
        m,
        asked,
        scope,
        namespace,
        asked_namespace,
        Some(prior),
        asked_prior,
        m.reasoning_content.unwrap(),
    );
}

/// Setting one choice's stage in a scope leaves every other choice's stage as it was.
proof fn lemma_with_stage_get(
    stages: Seq<(i64, Seq<char>, bool)>,
    index: i64,
    scope: Seq<char>,
    is_final: bool,
    other: i64,
    other_scope: Seq<char>,
)
    ensures
        stage_of(with_stage(stages, index, scope, is_final), other, other_scope) == if other == index
            && other_scope == scope {
            Some(is_final)
        } else {
            stage_of(stages, other, other_scope)
        },
    decreases stages.len(),
{
    let w = with_stage(stages, index, scope, is_final);
    if stages.len() == 0 {
        assert(w == seq![(index, scope, is_final)]);
        assert(w.drop_first() =~= Seq::<(i64, Seq<char>, bool)>::empty());
        assert(stage_of(w.drop_first(), other, other_scope) is None);
    } else if stages[0].0 == index && stages[0].1 == scope {
        assert(w == stages.update(0, (index, scope, is_final)));
        assert(w[0] == (index, scope, is_final));
        assert(w.drop_first() =~= stages.drop_first());
    } else {
        lemma_with_stage_get(stages.drop_first(), index, scope, is_final, other, other_scope);
        assert(w.drop_first() =~= with_stage(stages.drop_first(), index, scope, is_final));
    }
}

/// Whether each choice of the order that keeps reasoning goes under at least
/// one key, as counted.
pub open spec fn keys_counted(
    order: Seq<(i64, StreamingChoiceView)>,
    scope: Seq<char>,
    namespace: Seq<char>,
    prior: Seq<MessageView>,
) -> bool {
    forall|j: int|
        0 <= j < order.len() && stores_reasoning(streamed_message(#[trigger] order[j].1)) ==> (candidate_keys(
            streamed_message(order[j].1),
            scope,
            namespace,
            Some(prior),
        ).to_set().len() as usize) > 0
}

/// Whether each choice of the order that keeps reasoning is kept at the final stage.
pub open spec fn all_final(
    stages: Seq<(i64, Seq<char>, bool)>,
    order: Seq<(i64, StreamingChoiceView)>,
    scope: Seq<char>,
) -> bool {
    forall|j: int|
        0 <= j < order.len() && stores_reasoning(streamed_message(#[trigger] order[j].1)) ==> stage_of(
            stages,
            order[j].0,
            scope,
        ) == Some(true)
}

proof fn lemma_final_pass_marks_all(
    st: (Seq<(i64, Seq<char>, bool)>, Map<Seq<char>, Seq<char>>, nat),
    order: Seq<(i64, StreamingChoiceView)>,
    scope: Seq<char>,
    namespace: Seq<char>,
    prior: Seq<MessageView>,
)
    requires
        keys_counted(order, scope, namespace, prior),
    ensures
        all_final(kept_choices(st, order, scope, namespace, prior, false).0, order, scope),
    decreases order.len(),
{
    if order.len() > 0 {
        let front = order.drop_last();
        assert forall|j: int|
            0 <= j < front.len() && stores_reasoning(streamed_message(#[trigger] front[j].1)) implies (candidate_keys(
            streamed_message(front[j].1),
            scope,
            namespace,
            Some(prior),
        ).to_set().len() as usize) > 0 by {
            assert(front[j] == order[j]);
        }
        lemma_final_pass_marks_all(st, front, scope, namespace, prior);
        let before = kept_choices(st, front, scope, namespace, prior, false);
        let (index, c) = order.last();
        let after = kept_choices(st, order, scope, namespace, prior, false);
        assert(after == kept_choice(before, index, c, true, scope, namespace, prior));
        let m = streamed_message(c);
        let last = order.len() - 1;
        assert(order[last] == (index, c));
        if writes_stage(stage_of(before.0, index, scope), true) && stores_reasoning(m) {
            assert(stores_reasoning(streamed_message(order[last].1)));
            assert(after.0 == with_stage(before.0, index, scope, true));
        } else {
            assert(after.0 == before.0);
        }
        assert forall|j: int|
            0 <= j < order.len() && stores_reasoning(streamed_message(#[trigger] order[j].1)) implies stage_of(
            after.0,
            order[j].0,
            scope,
        ) == Some(true) by {
            lemma_with_stage_get(before.0, index, scope, true, order[j].0, scope);
            if j < front.len() {
                assert(front[j] == order[j]);
                assert(stores_reasoning(streamed_message(front[j].1)));
                assert(stage_of(before.0, front[j].0, scope) == Some(true));
            }
        }
    }
}

proof fn lemma_final_pass_again_is_idle(
    st: (Seq<(i64, Seq<char>, bool)>, Map<Seq<char>, Seq<char>>, nat),
    order: Seq<(i64, StreamingChoiceView)>,
    scope: Seq<char>,
    namespace: Seq<char>,
    prior: Seq<MessageView>,
)
    requires
        all_final(st.0, order, scope),
    ensures
        kept_choices(st, order, scope, namespace, prior, false) == st,
    decreases order.len(),
{
    if order.len() > 0 {
        let front = order.drop_last();
        assert forall|j: int|
            0 <= j < front.len() && stores_reasoning(streamed_message(#[trigger] front[j].1)) implies stage_of(
            st.0,
            front[j].0,
            scope,
        ) == Some(true) by {
            assert(front[j] == order[j]);
        }
        lemma_final_pass_again_is_idle(st, front, scope, namespace, prior);
        let last = order.last();
        assert(last == order[order.len() - 1]);
    }
}

/// Keeping a stream's reasoning at its end a second time keeps nothing and
/// counts nothing: the first time keeps every choice with reasoning at the
/// final stage (each going under at least one key, as counted), and a choice
/// is never kept again after that stage.
pub proof fn law_stream_end_keeps_once(
    stages: Seq<(i64, Seq<char>, bool)>,
    cache: Map<Seq<char>, Seq<char>>,
    g: Map<i64, StreamingChoiceView>,
    scope: Seq<char>,
    namespace: Seq<char>,
    prior: Seq<MessageView>,
)
    requires
        keys_counted(gathered_order(g), scope, namespace, prior),
    ensures
        ({
            let k = kept_choices((stages, cache, 0), gathered_order(g), scope, namespace, prior, false);
            kept_choices((k.0, k.1, 0), gathered_order(g), scope, namespace, prior, false) == (k.0, k.1, 0nat)
        }),
{
    let order = gathered_order(g);
    let k = kept_choices((stages, cache, 0), order, scope, namespace, prior, false);
    lemma_final_pass_marks_all((stages, cache, 0), order, scope, namespace, prior);
    lemma_final_pass_again_is_idle((k.0, k.1, 0), order, scope, namespace, prior);
}

/// When every choice of a stream has reasoning to keep, each going under at
/// least one key as counted, the end of the stream keeps every choice at the
/// final stage; keeping the stream's reasoning again then calls no store and
/// counts nothing.
pub proof fn law_stream_end_marks_every_choice_final(
    stages: Seq<(i64, Seq<char>, bool)>,
    cache: Map<Seq<char>, Seq<char>>,
    g: Map<i64, StreamingChoiceView>,
    scope: Seq<char>,
    namespace: Seq<char>,
    prior: Seq<MessageView>,
)
    requires
        keys_counted(gathered_order(g), scope, namespace, prior),
        forall|j: int|
            0 <= j < gathered_order(g).len() ==> stores_reasoning(
                streamed_message(#[trigger] gathered_order(g)[j].1),
            ),
    ensures
        all_kept_final(
            kept_choices((stages, cache, 0), gathered_order(g), scope, namespace, prior, false).0,
            gathered_order(g),
            scope,
        ),
{
    let order = gathered_order(g);
    lemma_final_pass_marks_all((stages, cache, 0), order, scope, namespace, prior);
    let k = kept_choices((stages, cache, 0), order, scope, namespace, prior, false);
    assert forall|j: int| 0 <= j < order.len() implies stage_of(k.0, #[trigger] order[j].0, scope) == Some(true) by {
        assert(stores_reasoning(streamed_message(order[j].1)));
    }
}

/// A reasoning block is opened once per choice: a reasoning delta for a
/// choice whose block is closed comes out as the opener followed by the
/// reasoning and leaves the block open; a reasoning delta (with no content,
/// tool calls or finish) for a choice whose block is open comes out as the
/// reasoning alone and leaves the block open.
pub proof fn law_block_opened_once(
    open: Set<i64>,
    index: i64,
    dm: Seq<(Seq<char>, Json)>,
    start: Seq<char>,
    end: Seq<char>,
    reasoning: Seq<char>,
)
    requires
        obj_get(dm, "reasoning_content"@) == Some(Json::Str(reasoning)),
        reasoning.len() > 0,
        obj_get(dm, "content"@) is None,
        obj_get(dm, "tool_calls"@) is None,
    ensures
        adapted_delta(open, index, None, dm, start, end).0 matches Some(dm2) && obj_get(dm2, "content"@) == Some(
            Json::Str(
                if open.contains(index) {
                    reasoning
                } else {
                    start + reasoning
                },
            ),
        ),
        adapted_delta(open, index, None, dm, start, end).1 == open.insert(index),
{
    let text = if open.contains(index) {
        reasoning
    } else {
        start + reasoning
    };
    assert(text + Seq::<char>::empty() =~= text);
    lemma_obj_set_get(dm, "content"@, Json::Str(text));
}

/// Two reasoning deltas in a row for one choice open its block once: the
/// first comes out as the opener and its reasoning, the second as its
/// reasoning alone.
pub proof fn law_consecutive_reasoning_opens_once(
    open: Set<i64>,
    index: i64,
    first: Seq<(Seq<char>, Json)>,
    second: Seq<(Seq<char>, Json)>,
    start: Seq<char>,
    end: Seq<char>,
    r1: Seq<char>,
    r2: Seq<char>,
)
    requires
        !open.contains(index),
        obj_get(first, "reasoning_content"@) == Some(Json::Str(r1)),
        obj_get(second, "reasoning_content"@) == Some(Json::Str(r2)),
        r1.len() > 0,
        r2.len() > 0,
        obj_get(first, "content"@) is None && obj_get(first, "tool_calls"@) is None,
        obj_get(second, "content"@) is None && obj_get(second, "tool_calls"@) is None,
    ensures
        adapted_delta(open, index, None, first, start, end).0 matches Some(d1) && obj_get(d1, "content"@) == Some(
            Json::Str(start + r1),
        ),
        adapted_delta(adapted_delta(open, index, None, first, start, end).1, index, None, second, start, end).0 matches Some(
            d2,
        ) && obj_get(d2, "content"@) == Some(Json::Str(r2)),
{
    law_block_opened_once(open, index, first, start, end, r1);
    law_block_opened_once(open.insert(index), index, second, start, end, r2);
}

} // verus!
