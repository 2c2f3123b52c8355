//! Streaming responses: what the proxy gathers from server-sent chunks, what it
//! keeps of their reasoning, and how it rewrites each chunk for the client.
use vstd::prelude::*;
use std::collections::{BTreeMap, BTreeSet};
use crate::json::{
    Json, JsonMap, JsonValue, map_get, members_view, obj_get, obj_set, opt_array, opt_object, opt_str,
};
use crate::error::AppError;
use crate::json::{encode_bytes, json_bytes, json_parse, parse_json};
use crate::number::{opt_i64, opt_u64};
use crate::protocol::response_rewrite::{set_model_name, with_model_name};
use crate::reasoning::keys::{conversation_scope, scope_of};
use vstd::slice::{slice_subrange, slice_to_vec};
use crate::protocol::folding::{block_end, block_end_text, block_start, block_start_text};
use crate::text::signed_decimal;
use vstd::std_specs::btree::spec_btree_keys_iter;
use crate::protocol::response_rewrite::sat_add;
use crate::reasoning::store::{ReasoningStore, cache_with, candidate_keys, stores_reasoning};
use vstd::std_specs::btree::spec_btree_map_iter;
use vstd::std_specs::iter::IteratorSpec;
use vstd::std_specs::cmp::OrdSpec;
use crate::protocol::model::{Message, MessageView, ToolCall, ToolCallView, ToolFunction, copy_tool_calls};
use crate::text::{concat, owned};

verus! {

/// What has arrived so far of one choice of a streamed response.
#[derive(Debug, PartialEq)]
pub struct StreamingChoice {
    pub role: String,
    pub content: String,
    pub reasoning_content: String,
    pub has_reasoning_content: bool,
    pub tool_calls: Vec<ToolCall>,
    pub finish_reason: Option<String>,
}

/// A streamed choice as a mathematical value.
pub struct StreamingChoiceView {
    pub role: Seq<char>,
    pub content: Seq<char>,
    pub reasoning_content: Seq<char>,
    pub has_reasoning_content: bool,
    pub tool_calls: Seq<ToolCallView>,
    pub finish_reason: Option<Seq<char>>,
}

impl View for StreamingChoice {
    type V = StreamingChoiceView;

    open spec fn view(&self) -> StreamingChoiceView {
        StreamingChoiceView {
            role: self.role@,
            content: self.content@,
            reasoning_content: self.reasoning_content@,
            has_reasoning_content: self.has_reasoning_content,
            tool_calls: self.tool_calls@.map_values(|c: ToolCall| c@),
            finish_reason: match self.finish_reason {
                Some(f) => Some(f@),
                None => None,
            },
        }
    }
}

/// A choice of which nothing has arrived yet.
pub open spec fn blank_choice() -> StreamingChoiceView {
    StreamingChoiceView {
        role: Seq::empty(),
        content: Seq::empty(),
        reasoning_content: Seq::empty(),
        has_reasoning_content: false,
        tool_calls: Seq::empty(),
        finish_reason: None,
    }
}

/// The assistant message that a streamed choice amounts to.
pub open spec fn streamed_message(c: StreamingChoiceView) -> MessageView {
    MessageView {
        role: if c.role.len() == 0 {
            "assistant"@
        } else {
            c.role
        },
        content: Some(Json::Str(c.content)),
        name: None,
        tool_call_id: None,
        tool_calls: if c.tool_calls.len() == 0 {
            None
        } else {
            Some(c.tool_calls)
        },
        reasoning_content: if c.has_reasoning_content {
            Some(c.reasoning_content)
        } else {
            None
        },
        prefix: None,
    }
}

impl Default for StreamingChoice {
    fn default() -> (r: StreamingChoice)
        ensures
            r@ == blank_choice(),
    {
        let r = StreamingChoice {
            role: String::new(),
            content: String::new(),
            reasoning_content: String::new(),
            has_reasoning_content: false,
            tool_calls: Vec::new(),
            finish_reason: None,
        };
        assert(r@.tool_calls =~= Seq::<ToolCallView>::empty());
        r
    }
}

impl StreamingChoice {
    /// The assistant message that the choice amounts to.
    pub fn to_message(&self) -> (r: Message)
        ensures
            r@ == streamed_message(self@),
    {
        let role = if self.role.as_str().is_empty() {
            owned("assistant")
        } else {
            self.role.clone()
        };
        let reasoning_content = if self.has_reasoning_content {
            Some(self.reasoning_content.clone())
        } else {
            None
        };
        let tool_calls = if self.tool_calls.len() == 0 {
            None
        } else {
            Some(copy_tool_calls(&self.tool_calls))
        };
        Message {
            role,
            content: Some(JsonValue::Str(self.content.clone())),
            name: None,
            tool_call_id: None,
            tool_calls,
            reasoning_content,
            prefix: None,
        }
    }

    /// A copy of the choice.
    pub fn duplicate(&self) -> (r: StreamingChoice)
        ensures
            r@ == self@,
    {
        StreamingChoice {
            role: self.role.clone(),
            content: self.content.clone(),
            reasoning_content: self.reasoning_content.clone(),
            has_reasoning_content: self.has_reasoning_content,
            tool_calls: copy_tool_calls(&self.tool_calls),
            finish_reason: match &self.finish_reason {
                Some(f) => Some(f.clone()),
                None => None,
            },
        }
    }
}

/// A tool call of which nothing has arrived yet.
pub open spec fn blank_tool_call() -> ToolCallView {
    ToolCallView { id: None, tool_type: "function"@, name: Seq::empty(), arguments: Seq::empty() }
}

/// The tool calls, with blank ones added so that there is one at `index`.
pub open spec fn padded_calls(calls: Seq<ToolCallView>, index: int) -> Seq<ToolCallView> {
    if index < calls.len() {
        calls
    } else {
        calls + Seq::new((index + 1 - calls.len()) as nat, |i: int| blank_tool_call())
    }
}

/// The tool call a delta is about: its `index`, else the next one.
pub open spec fn delta_index(dm: Seq<(Seq<char>, Json)>, count: nat) -> int {
    match opt_u64(obj_get(dm, "index"@)) {
        Some(v) => (v as usize) as int,
        None => count as int,
    }
}

/// A tool call with a delta applied: the id and type replaced, the name and
/// arguments extended.
pub open spec fn updated_call(tc: ToolCallView, dm: Seq<(Seq<char>, Json)>) -> ToolCallView {
    let id = match opt_str(obj_get(dm, "id"@)) {
        Some(s) => Some(s),
        None => tc.id,
    };
    let tool_type = match opt_str(obj_get(dm, "type"@)) {
        Some(s) => s,
        None => tc.tool_type,
    };
    match opt_object(obj_get(dm, "function"@)) {
        Some(fm) => ToolCallView {
            id,
            tool_type,
            name: match opt_str(obj_get(fm, "name"@)) {
                Some(n) => tc.name + n,
                None => tc.name,
            },
            arguments: match opt_str(obj_get(fm, "arguments"@)) {
                Some(a) => tc.arguments + a,
                None => tc.arguments,
            },
        },
        None => ToolCallView { id, tool_type, name: tc.name, arguments: tc.arguments },
    }
}

/// The tool calls after one delta.
pub open spec fn merged_call_delta(calls: Seq<ToolCallView>, d: Json) -> Seq<ToolCallView> {
    match d {
        Json::Object(dm) => {
            let i = delta_index(dm, calls.len());
            let p = padded_calls(calls, i);
            p.update(i, updated_call(p[i], dm))
        },
        _ => calls,
    }
}

/// The tool calls after the deltas, in order.
pub open spec fn merged_call_deltas(calls: Seq<ToolCallView>, ds: Seq<Json>) -> Seq<ToolCallView>
    decreases ds.len(),
{
    if ds.len() == 0 {
        calls
    } else {
        merged_call_delta(merged_call_deltas(calls, ds.drop_last()), ds.last())
    }
}

/// A choice after one of its chunks: the finish reason taken, then the delta's
/// role taken and its content, reasoning and tool calls added.
pub open spec fn applied_choice_delta(c: StreamingChoiceView, co: Seq<(Seq<char>, Json)>) -> StreamingChoiceView {
    let finish_reason = match opt_str(obj_get(co, "finish_reason"@)) {
        Some(f) => Some(f),
        None => c.finish_reason,
    };
    match opt_object(obj_get(co, "delta"@)) {
        Some(dm) => {
            let reasoning = opt_str(obj_get(dm, "reasoning_content"@));
            StreamingChoiceView {
                role: match opt_str(obj_get(dm, "role"@)) {
                    Some(r) => r,
                    None => c.role,
                },
                content: match opt_str(obj_get(dm, "content"@)) {
                    Some(t) => c.content + t,
                    None => c.content,
                },
                reasoning_content: match reasoning {
                    Some(t) => c.reasoning_content + t,
                    None => c.reasoning_content,
                },
                has_reasoning_content: c.has_reasoning_content || reasoning is Some,
                tool_calls: match opt_array(obj_get(dm, "tool_calls"@)) {
                    Some(ds) => merged_call_deltas(c.tool_calls, ds),
                    None => c.tool_calls,
                },
                finish_reason,
            }
        },
        None => StreamingChoiceView { finish_reason, ..c },
    }
}

/// The choice a chunk's choice object is about: its `index`, else the first.
pub open spec fn chunk_choice_index(co: Seq<(Seq<char>, Json)>) -> i64 {
    match opt_i64(obj_get(co, "index"@)) {
        Some(v) => v,
        None => 0,
    }
}

/// The choices after one choice object of a chunk.
pub open spec fn ingested_choice(m: Map<i64, StreamingChoiceView>, raw: Json) -> Map<i64, StreamingChoiceView> {
    match raw {
        Json::Object(co) => {
            let i = chunk_choice_index(co);
            let current = if m.contains_key(i) {
                m[i]
            } else {
                blank_choice()
            };
            m.insert(i, applied_choice_delta(current, co))
        },
        _ => m,
    }
}

/// The choices after the choice objects of a chunk, in order.
pub open spec fn ingested_choices(m: Map<i64, StreamingChoiceView>, cs: Seq<Json>) -> Map<i64, StreamingChoiceView>
    decreases cs.len(),
{
    if cs.len() == 0 {
        m
    } else {
        ingested_choice(ingested_choices(m, cs.drop_last()), cs.last())
    }
}

/// The choices after a chunk: a chunk without a `choices` array changes nothing.
pub open spec fn ingested(m: Map<i64, StreamingChoiceView>, chunk: Json) -> Map<i64, StreamingChoiceView> {
    match chunk.get("choices"@) {
        Some(Json::Array(cs)) => ingested_choices(m, cs),
        _ => m,
    }
}

/// The views of the choices gathered so far, by index.
pub open spec fn choices_view(m: Map<i64, StreamingChoice>) -> Map<i64, StreamingChoiceView> {
    m.map_values(|c: StreamingChoice| c@)
}

/// Whether indexes strictly increase.
pub open spec fn increasing(s: Seq<i64>) -> bool {
    forall|i: int, j: int| 0 <= i < j < s.len() ==> s[i] < s[j]
}

/// The indexes of a set in increasing order.
pub open spec fn sorted_indexes(d: Set<i64>) -> Seq<i64> {
    choose|s: Seq<i64>| increasing(s) && s.to_set() == d
}

proof fn lemma_increasing_indexes(s: Seq<i64>)
    requires
        vstd::std_specs::btree::increasing_seq(s),
    ensures
        increasing(s),
{
    assert forall|i: int, j: int| 0 <= i < j < s.len() implies s[i] < s[j] by {
        assert(s[i].cmp_spec(&s[j]) is Less);
    }
}

/// Indexes in increasing order are the set's sorted indexes: only one
/// increasing sequence holds a given set.
#[verifier::spinoff_prover]
pub proof fn lemma_sorted_unique(a: Seq<i64>, b: Seq<i64>)
    requires
        increasing(a),
        a.to_set() == b.to_set() && increasing(b) || b == sorted_indexes(a.to_set()),
    ensures
        a == b,
    decreases a.len(),
{
    if b == sorted_indexes(a.to_set()) && !(a.to_set() == b.to_set() && increasing(b)) {
        assert(increasing(a) && a.to_set() == a.to_set());
    }
    assert(a.to_set() == b.to_set() && increasing(b));
    if a.len() == 0 {
        if b.len() > 0 {
            assert(b.to_set().contains(b[0]));
        }
        assert(a =~= b);
    } else {
        assert(a.to_set().contains(a[0]));
        assert(b.len() > 0);
        assert(b.to_set().contains(b[0]));
        let ja = choose|j: int| 0 <= j < a.len() && a[j] == b[0];
        let jb = choose|j: int| 0 <= j < b.len() && b[j] == a[0];
        assert(a[0] <= a[ja]);
        assert(b[0] <= b[jb]);
        let a1 = a.drop_first();
        let b1 = b.drop_first();
        assert forall|x: i64| a1.to_set().contains(x) implies b1.to_set().contains(x) by {
            let i = choose|i: int| 0 <= i < a1.len() && a1[i] == x;
            assert(a[i + 1] == x);
            assert(b.to_set().contains(x));
            let j = choose|j: int| 0 <= j < b.len() && b[j] == x;
            assert(j != 0);
            assert(b1[j - 1] == x);
        }
        assert forall|x: i64| b1.to_set().contains(x) implies a1.to_set().contains(x) by {
            let i = choose|i: int| 0 <= i < b1.len() && b1[i] == x;
            assert(b[i + 1] == x);
            assert(a.to_set().contains(x));
            let j = choose|j: int| 0 <= j < a.len() && a[j] == x;
            assert(j != 0);
            assert(a1[j - 1] == x);
        }
        assert(a1.to_set() =~= b1.to_set());
        lemma_sorted_unique(a1, b1);
        assert(a[0] == b[0]);
        assert(a.len() == a1.len() + 1 && b.len() == b1.len() + 1);
        assert(a =~= b) by {
            assert forall|i: int| 0 < i < a.len() implies a[i] == b[i] by {
                assert(a[i] == a1[i - 1]);
                assert(b[i] == b1[i - 1]);
            }
        }
    }
}

/// The gathered choices by increasing index.
pub open spec fn gathered_order(m: Map<i64, StreamingChoiceView>) -> Seq<(i64, StreamingChoiceView)> {
    sorted_indexes(m.dom()).map_values(|k: i64| (k, m[k]))
}

/// Whether a choice has reasoning and tool calls that all have ids.
pub open spec fn identified_tool_calls(c: StreamingChoiceView) -> bool {
    &&& c.has_reasoning_content
    &&& c.tool_calls.len() > 0
    &&& forall|i: int| 0 <= i < c.tool_calls.len() ==> (#[trigger] c.tool_calls[i]).id is Some
}

/// The stage at which a choice's reasoning is ready to keep before the
/// stream ends: final once it finished, earlier once its tool calls are
/// identified, not yet otherwise.
pub open spec fn ready_stage(c: StreamingChoiceView) -> Option<bool> {
    if c.finish_reason is Some {
        Some(true)
    } else if identified_tool_calls(c) {
        Some(false)
    } else {
        None
    }
}

/// The stage at which a choice's reasoning was kept in a scope, if it was.
pub open spec fn stage_of(stages: Seq<(i64, Seq<char>, bool)>, index: i64, scope: Seq<char>) -> Option<bool>
    decreases stages.len(),
{
    if stages.len() == 0 {
        None
    } else if stages[0].0 == index && stages[0].1 == scope {
        Some(stages[0].2)
    } else {
        stage_of(stages.drop_first(), index, scope)
    }
}

/// The stages with a choice's stage in a scope set.
pub open spec fn with_stage(stages: Seq<(i64, Seq<char>, bool)>, index: i64, scope: Seq<char>, is_final: bool) -> Seq<(i64, Seq<char>, bool)>
    decreases stages.len(),
{
    if stages.len() == 0 {
        seq![(index, scope, is_final)]
    } else if stages[0].0 == index && stages[0].1 == scope {
        stages.update(0, (index, scope, is_final))
    } else {
        seq![stages[0]] + with_stage(stages.drop_first(), index, scope, is_final)
    }
}

/// Whether reasoning is kept again at a stage: only at a later stage than before.
pub open spec fn writes_stage(previous: Option<bool>, is_final: bool) -> bool {
    match previous {
        Some(p) => !p && is_final,
        None => true,
    }
}

/// The stages, the cache and the count after a choice's reasoning is kept at a
/// stage: nothing happens when it was kept at that stage or a later one, or
/// when the choice has no reasoning to keep.
pub open spec fn kept_choice(
    st: (Seq<(i64, Seq<char>, bool)>, Map<Seq<char>, Seq<char>>, nat),
    index: i64,
    c: StreamingChoiceView,
    is_final: bool,
    scope: Seq<char>,
    namespace: Seq<char>,
    prior: Seq<MessageView>,
) -> (Seq<(i64, Seq<char>, bool)>, Map<Seq<char>, Seq<char>>, nat) {
    if !writes_stage(stage_of(st.0, index, scope), is_final) {
        st
    } else {
        let m = streamed_message(c);
        if stores_reasoning(m) {
            let keys = candidate_keys(m, scope, namespace, Some(prior));
            let n = (keys.to_set().len() as usize) as nat;
            (
                if n > 0 {
                    with_stage(st.0, index, scope, is_final)
                } else {
                    st.0
                },
                cache_with(st.1, keys, m.reasoning_content.unwrap()),
                sat_add(st.2, n),
            )
        } else {
            st
        }
    }
}

/// The state after the choices' reasoning is kept in order: at the final stage,
/// or, when only ready choices count, at each choice's ready stage.
pub open spec fn kept_choices(
    st: (Seq<(i64, Seq<char>, bool)>, Map<Seq<char>, Seq<char>>, nat),
    order: Seq<(i64, StreamingChoiceView)>,
    scope: Seq<char>,
    namespace: Seq<char>,
    prior: Seq<MessageView>,
    ready_only: bool,
) -> (Seq<(i64, Seq<char>, bool)>, Map<Seq<char>, Seq<char>>, nat)
    decreases order.len(),
{
    if order.len() == 0 {
        st
    } else {
        let before = kept_choices(st, order.drop_last(), scope, namespace, prior, ready_only);
        let stage = if ready_only {
            ready_stage(order.last().1)
        } else {
            Some(true)
        };
        match stage {
            Some(f) => kept_choice(before, order.last().0, order.last().1, f, scope, namespace, prior),
            None => before,
        }
    }
}

/// Whether every choice of the order was kept at the final stage in a scope.
pub open spec fn all_kept_final(
    stages: Seq<(i64, Seq<char>, bool)>,
    order: Seq<(i64, StreamingChoiceView)>,
    scope: Seq<char>,
) -> bool {
    forall|j: int| 0 <= j < order.len() ==> stage_of(stages, #[trigger] order[j].0, scope) == Some(true)
}

proof fn lemma_stage_first(stages: Seq<(i64, Seq<char>, bool)>, index: i64, scope: Seq<char>, i: int, f: bool)
    requires
        0 <= i < stages.len(),
        stages[i].0 == index && stages[i].1 == scope,
        forall|j: int| 0 <= j < i ==> !(stages[j].0 == index && stages[j].1 == scope),
    ensures
        stage_of(stages, index, scope) == Some(stages[i].2),
        with_stage(stages, index, scope, f) == stages.update(i, (index, scope, f)),
    decreases i,
{
    if i > 0 {
        let t = stages.drop_first();
        assert forall|j: int| 0 <= j < i - 1 implies !(t[j].0 == index && t[j].1 == scope) by {
            assert(stages[j + 1] == t[j]);
        }
        lemma_stage_first(t, index, scope, i - 1, f);
        assert(with_stage(stages, index, scope, f) =~= stages.update(i, (index, scope, f)));
    }
}

proof fn lemma_stage_absent(stages: Seq<(i64, Seq<char>, bool)>, index: i64, scope: Seq<char>, f: bool)
    requires
        forall|j: int| 0 <= j < stages.len() ==> !(stages[j].0 == index && stages[j].1 == scope),
    ensures
        stage_of(stages, index, scope) is None,
        with_stage(stages, index, scope, f) == stages.push((index, scope, f)),
    decreases stages.len(),
{
    if stages.len() > 0 {
        let t = stages.drop_first();
        assert forall|j: int| 0 <= j < t.len() implies !(t[j].0 == index && t[j].1 == scope) by {
            assert(stages[j + 1] == t[j]);
        }
        lemma_stage_absent(t, index, scope, f);
        assert(with_stage(stages, index, scope, f) =~= stages.push((index, scope, f)));
    } else {
        assert(with_stage(stages, index, scope, f) =~= stages.push((index, scope, f)));
    }
}

/// Which of the stored stages: a choice kept once its tool calls were
/// identified, or kept when it finished.
struct StoredStage {
    index: i64,
    scope: String,
    is_final: bool,
}

/// What the proxy gathers from the chunks of one streamed response.
pub struct StreamAccumulator {
    pub choices: BTreeMap<i64, StreamingChoice>,
    stored_choices: Vec<StoredStage>,
}

impl StreamAccumulator {
    /// For each choice and scope whose reasoning was kept, whether it was kept
    /// when the choice finished.
    pub closed spec fn stages(&self) -> Seq<(i64, Seq<char>, bool)> {
        self.stored_choices@.map_values(|s: StoredStage| (s.index, s.scope@, s.is_final))
    }

    /// The choices gathered so far, by index.
    pub closed spec fn gathered(&self) -> Map<i64, StreamingChoiceView> {
        choices_view(self.choices@)
    }

    /// Takes in one chunk of the stream.
    pub fn ingest_chunk(&mut self, chunk: &JsonValue)
        ensures
            final(self).gathered() == ingested(old(self).gathered(), chunk@),
            final(self).stages() == old(self).stages(),
    {
        let choices = match chunk.get("choices") {
            Some(JsonValue::Array(cs)) => cs,
            _ => {
                return;
            },
        };
        let ghost cv = crate::json::items_view(choices@);
        let ghost start = choices_view(self.choices@);
        let mut i: usize = 0;
        assert(cv.take(0) =~= Seq::<Json>::empty());
        while i < choices.len()
            invariant
                i <= choices.len(),
                cv == crate::json::items_view(choices@),
                choices_view(self.choices@) == ingested_choices(start, cv.take(i as int)),
                self.stages() == old(self).stages(),
            decreases choices.len() - i,
        {
            proof {
                assert(cv.take(i + 1).drop_last() =~= cv.take(i as int));
                assert(cv.take(i + 1).last() == choices@[i as int]@);
            }
            if let JsonValue::Object(co) = &choices[i] {
                let index = match map_get(co, "index") {
                    Some(v) => match v.as_i64() {
                        Some(n) => n,
                        None => 0,
                    },
                    None => 0,
                };
                let ghost before = choices_view(self.choices@);
                let mut choice = match self.choices.remove(&index) {
                    Some(c) => c,
                    None => StreamingChoice::default(),
                };
                assert(choice@ == if before.contains_key(index) {
                    before[index]
                } else {
                    blank_choice()
                });
                Self::apply_choice_delta(&mut choice, co);
                self.choices.insert(index, choice);
                assert(choices_view(self.choices@) =~= ingested_choice(before, choices@[i as int]@));
            }
            i = i + 1;
        }
        assert(cv.take(choices.len() as int) =~= cv);
    }

    fn apply_choice_delta(choice: &mut StreamingChoice, co: &JsonMap)
        ensures
            final(choice)@ == applied_choice_delta(old(choice)@, members_view(co@)),
    {
        if let Some(JsonValue::Str(f)) = map_get(co, "finish_reason") {
            choice.finish_reason = Some(f.clone());
        }
        let delta = match map_get(co, "delta") {
            Some(JsonValue::Object(dm)) => dm,
            _ => {
                return;
            },
        };
        if let Some(JsonValue::Str(role)) = map_get(delta, "role") {
            choice.role = role.clone();
        }
        if let Some(JsonValue::Str(content)) = map_get(delta, "content") {
            choice.content = concat(choice.content.as_str(), content.as_str());
        }
        if let Some(JsonValue::Str(reasoning)) = map_get(delta, "reasoning_content") {
            choice.has_reasoning_content = true;
            choice.reasoning_content = concat(choice.reasoning_content.as_str(), reasoning.as_str());
        }
        Self::merge_tool_call_deltas(choice, map_get(delta, "tool_calls"));
    }

    fn merge_tool_call_deltas(choice: &mut StreamingChoice, deltas: Option<&JsonValue>)
        ensures
            final(choice)@ == (StreamingChoiceView {
                tool_calls: match opt_array(crate::json::opt_view(deltas)) {
                    Some(ds) => merged_call_deltas(old(choice)@.tool_calls, ds),
                    None => old(choice)@.tool_calls,
                },
                ..old(choice)@
            }),
    {
        let deltas = match deltas {
            Some(JsonValue::Array(ds)) => ds,
            _ => {
                return;
            },
        };
        let ghost dv = crate::json::items_view(deltas@);
        let ghost start = old(choice)@;
        let mut i: usize = 0;
        assert(dv.take(0) =~= Seq::<Json>::empty());
        while i < deltas.len()
            invariant
                i <= deltas.len(),
                dv == crate::json::items_view(deltas@),
                choice@ == (StreamingChoiceView {
                    tool_calls: merged_call_deltas(start.tool_calls, dv.take(i as int)),
                    ..start
                }),
            decreases deltas.len() - i,
        {
            proof {
                assert(dv.take(i + 1).drop_last() =~= dv.take(i as int));
                assert(dv.take(i + 1).last() == deltas@[i as int]@);
            }
            if let JsonValue::Object(dm) = &deltas[i] {
                merge_one_call_delta(&mut choice.tool_calls, dm);
            }
            i = i + 1;
        }
        assert(dv.take(deltas.len() as int) =~= dv);
    }
}

/// The items in the form the keeping functions read them.
pub open spec fn items_order(items: Seq<(i64, StreamingChoice)>) -> Seq<(i64, StreamingChoiceView)> {
    items.map_values(|p: (i64, StreamingChoice)| (p.0, p.1@))
}

proof fn lemma_kept_choice_parts(
    stages: Seq<(i64, Seq<char>, bool)>,
    cache: Map<Seq<char>, Seq<char>>,
    other: Map<Seq<char>, Seq<char>>,
    count: nat,
    index: i64,
    c: StreamingChoiceView,
    is_final: bool,
    scope: Seq<char>,
    namespace: Seq<char>,
    prior: Seq<MessageView>,
)
    requires
        count <= usize::MAX,
    ensures
        kept_choice((stages, cache, count), index, c, is_final, scope, namespace, prior).0 == kept_choice(
            (stages, other, 0),
            index,
            c,
            is_final,
            scope,
            namespace,
            prior,
        ).0,
        kept_choice((stages, cache, count), index, c, is_final, scope, namespace, prior).2 == sat_add(
            count,
            kept_choice((stages, other, 0), index, c, is_final, scope, namespace, prior).2,
        ),
        kept_choice((stages, cache, count), index, c, is_final, scope, namespace, prior).1 == kept_choice(
            (stages, cache, 0),
            index,
            c,
            is_final,
            scope,
            namespace,
            prior,
        ).1,
{
}

impl StreamAccumulator {
    /// A copy of the choices with their indexes, by increasing index.
    fn choice_items(&self) -> (r: Vec<(i64, StreamingChoice)>)
        ensures
            items_order(r@) == gathered_order(self.gathered()),
    {
        let mut out: Vec<(i64, StreamingChoice)> = Vec::new();
        for kv in it: self.choices.iter()
            invariant
                out@.len() == it.index(),
                forall|j: int| 0 <= j < it.index() ==> (#[trigger] out@[j]).0 == *it.seq()[j].0 && out@[j].1@ == (*it.seq()[j].1)@,
        {
            let (k, v) = kv;
            out.push((*k, v.duplicate()));
        }
        proof {
            let v = spec_btree_map_iter(&self.choices).remaining();
            let ks = out@.map_values(|p: (i64, StreamingChoice)| p.0);
            let vk = v.map_values(|kv: (&i64, &StreamingChoice)| *kv.0);
            assert(ks =~= vk);
            lemma_increasing_indexes(vk);
            assert(increasing(ks));
            assert(forall|j: int| 0 <= j < out@.len() ==> self.choices@.contains_key(#[trigger] out@[j].0) && self.choices@[out@[j].0]@ == out@[j].1@);
            let dom = self.choices@.dom();
            assert forall|k: i64| dom.contains(k) implies ks.contains(k) by {
                assert(v.contains((&k, &self.choices@[k])));
                let j = choose|j: int| 0 <= j < v.len() && v[j] == (&k, &self.choices@[k]);
                assert(vk[j] == k);
            }
            assert forall|k: i64| ks.contains(k) implies dom.contains(k) by {
                let j = choose|j: int| 0 <= j < ks.len() && ks[j] == k;
                assert(out@[j].0 == k);
            }
            assert(ks.to_set() =~= dom);
            assert(self.gathered().dom() =~= dom);
            lemma_sorted_unique(ks, sorted_indexes(dom));
            assert(items_order(out@) =~= gathered_order(self.gathered()));
        }
        out
    }

    fn find_stage(&self, index: i64, scope: &str) -> (r: Option<usize>)
        ensures
            match r {
                Some(i) => i < self.stored_choices.len() && stage_of(self.stages(), index, scope@) == Some(
                    self.stored_choices@[i as int].is_final,
                ) && forall|f: bool|
                    #[trigger] with_stage(self.stages(), index, scope@, f) == self.stages().update(
                        i as int,
                        (index, scope@, f),
                    ),
                None => stage_of(self.stages(), index, scope@) is None && forall|f: bool|
                    #[trigger] with_stage(self.stages(), index, scope@, f) == self.stages().push(
                        (index, scope@, f),
                    ),
            },
    {
        let ghost st = self.stages();
        let mut i: usize = 0;
        while i < self.stored_choices.len()
            invariant
                i <= self.stored_choices.len(),
                st == self.stages(),
                st.len() == self.stored_choices.len(),
                forall|j: int| 0 <= j < i ==> !(st[j].0 == index && st[j].1 == scope@),
            decreases self.stored_choices.len() - i,
        {
            let entry = &self.stored_choices[i];
            if entry.index == index && crate::text::str_eq(entry.scope.as_str(), scope) {
                proof {
                    assert forall|f: bool| #[trigger]
                        with_stage(st, index, scope@, f) == st.update(i as int, (index, scope@, f)) by {
                        lemma_stage_first(st, index, scope@, i as int, f);
                    }
                    lemma_stage_first(st, index, scope@, i as int, true);
                }
                return Some(i);
            }
            i = i + 1;
        }
        proof {
            assert forall|f: bool| #[trigger]
                with_stage(st, index, scope@, f) == st.push((index, scope@, f)) by {
                lemma_stage_absent(st, index, scope@, f);
            }
            lemma_stage_absent(st, index, scope@, true);
        }
        None
    }

    fn set_stage(&mut self, index: i64, scope: &str, is_final: bool)
        ensures
            final(self).stages() == with_stage(old(self).stages(), index, scope@, is_final),
            final(self).choices == old(self).choices,
    {
        let entry = StoredStage { index, scope: owned(scope), is_final };
        match self.find_stage(index, scope) {
            Some(i) => {
                self.stored_choices.set(i, entry);
            },
            None => {
                self.stored_choices.push(entry);
            },
        }
        assert(self.stages() =~= with_stage(old(self).stages(), index, scope@, is_final));
    }

    /// Whether a choice has reasoning and tool calls that all have ids.
    fn has_identified_tool_calls(&self, choice: &StreamingChoice) -> (r: bool)
        ensures
            r == identified_tool_calls(choice@),
    {
        if !choice.has_reasoning_content || choice.tool_calls.len() == 0 {
            return false;
        }
        let mut i: usize = 0;
        while i < choice.tool_calls.len()
            invariant
                i <= choice.tool_calls.len(),
                forall|j: int| 0 <= j < i ==> (#[trigger] choice@.tool_calls[j]).id is Some,
            decreases choice.tool_calls.len() - i,
        {
            if choice.tool_calls[i].id.is_none() {
                assert(choice@.tool_calls[i as int].id is None);
                return false;
            }
            i = i + 1;
        }
        true
    }

    /// Keeps a choice's reasoning at a stage, unless it was kept at that
    /// stage or a later one; giving how many keys it was kept under.
    fn store_choice<S: ReasoningStore>(
        &mut self,
        index: i64,
        choice: &StreamingChoice,
        store: &mut S,
        scope: &str,
        is_final: bool,
        cache_namespace: &str,
        prior_messages: &[Message],
    ) -> (r: Result<usize, AppError>)
        ensures
            final(self).choices == old(self).choices,
            final(store).keeps_all() == old(store).keeps_all(),
            final(store).infallible() == old(store).infallible(),
            old(store).infallible() ==> r is Ok,
            r matches Ok(n) ==> {
                let k = kept_choice(
                    (old(self).stages(), old(store).cached(), 0),
                    index,
                    choice@,
                    is_final,
                    scope@,
                    cache_namespace@,
                    prior_messages@.map_values(|m: Message| m@),
                );
                &&& final(self).stages() == k.0
                &&& n == k.2
                &&& old(store).keeps_all() ==> final(store).cached() == k.1
            },
            stage_of(old(self).stages(), index, scope@) == Some(true) ==> r == Ok::<usize, AppError>(0)
                && *final(store) == *old(store) && final(self).stages() == old(self).stages(),
    {
        if let Some(i) = self.find_stage(index, scope) {
            if self.stored_choices[i].is_final || !is_final {
                return Ok(0);
            }
        }
        let message = choice.to_message();
        let stored = store.store_assistant_message(&message, scope, cache_namespace, Some(prior_messages))?;
        if stored > 0 {
            self.set_stage(index, scope, is_final);
        }
        Ok(stored)
    }

    fn store_choices<S: ReasoningStore>(
        &mut self,
        items: &Vec<(i64, StreamingChoice)>,
        store: &mut S,
        scope: &str,
        cache_namespace: &str,
        prior_messages: &[Message],
        ready_only: bool,
    ) -> (r: Result<usize, AppError>)
        ensures
            final(self).choices == old(self).choices,
            final(store).keeps_all() == old(store).keeps_all(),
            final(store).infallible() == old(store).infallible(),
            old(store).infallible() ==> r is Ok,
            r matches Ok(n) ==> {
                let k = kept_choices(
                    (old(self).stages(), old(store).cached(), 0),
                    items_order(items@),
                    scope@,
                    cache_namespace@,
                    prior_messages@.map_values(|m: Message| m@),
                    ready_only,
                );
                &&& final(self).stages() == k.0
                &&& n == k.2
                &&& old(store).keeps_all() ==> final(store).cached() == k.1
            },
            all_kept_final(old(self).stages(), items_order(items@), scope@) ==> r == Ok::<usize, AppError>(0)
                && *final(store) == *old(store) && final(self).stages() == old(self).stages(),
    {
        let ghost order = items_order(items@);
        let ghost pv = prior_messages@.map_values(|m: Message| m@);
        let ghost start = (old(self).stages(), old(store).cached(), 0nat);
        let ghost keeps = store.keeps_all();
        let ghost never_fails = store.infallible();
        let mut stored: usize = 0;
        let mut i: usize = 0;
        while i < items.len()
            invariant
                i <= items.len(),
                order == items_order(items@),
                pv == prior_messages@.map_values(|m: Message| m@),
                self.choices == old(self).choices,
                store.keeps_all() == keeps,
                store.infallible() == never_fails,
                keeps == old(store).keeps_all(),
                never_fails == old(store).infallible(),
                start == (old(self).stages(), old(store).cached(), 0nat),
                self.stages() == kept_choices(start, order.take(i as int), scope@, cache_namespace@, pv, ready_only).0,
                stored == kept_choices(start, order.take(i as int), scope@, cache_namespace@, pv, ready_only).2,
                keeps ==> store.cached() == kept_choices(start, order.take(i as int), scope@, cache_namespace@, pv, ready_only).1,
                stored <= usize::MAX,
                all_kept_final(start.0, order, scope@) ==> stored == 0 && *store == *old(store)
                    && self.stages() == start.0,
            decreases items.len() - i,
        {
            let ghost k = kept_choices(start, order.take(i as int), scope@, cache_namespace@, pv, ready_only);
            proof {
                assert(order.take(i + 1).drop_last() =~= order.take(i as int));
                assert(order.take(i + 1).last() == order[i as int]);
            }
            let index = items[i].0;
            let choice = &items[i].1;
            let stage = if ready_only {
                if choice.finish_reason.is_some() {
                    Some(true)
                } else if self.has_identified_tool_calls(choice) {
                    Some(false)
                } else {
                    None
                }
            } else {
                Some(true)
            };
            proof {
                if all_kept_final(start.0, order, scope@) {
                    assert(stage_of(start.0, order[i as int].0, scope@) == Some(true));
                }
            }
            if let Some(is_final) = stage {
                let ghost cache_now = store.cached();
                let n = self.store_choice(index, choice, store, scope, is_final, cache_namespace, prior_messages)?;
                proof {
                    lemma_kept_choice_parts(k.0, k.1, cache_now, k.2, index, choice@, is_final, scope@, cache_namespace@, pv);
                }
                stored = if n > usize::MAX - stored {
                    usize::MAX
                } else {
                    stored + n
                };
            }
            i = i + 1;
        }
        proof {
            assert(order.take(items.len() as int) =~= order);
        }
        Ok(stored)
    }

    /// Keeps the reasoning of each choice that is ready, in order: a finished
    /// choice at the final stage, one whose tool calls all have ids at the
    /// earlier stage; giving how many keys the reasoning went under.
    pub fn store_ready_reasoning<S: ReasoningStore>(
        &mut self,
        store: &mut S,
        scope: &str,
        cache_namespace: &str,
        prior_messages: &[Message],
    ) -> (r: Result<usize, AppError>)
        ensures
            final(self).gathered() == old(self).gathered(),
            final(store).keeps_all() == old(store).keeps_all(),
            final(store).infallible() == old(store).infallible(),
            old(store).infallible() ==> r is Ok,
            r matches Ok(n) ==> {
                let k = kept_choices(
                    (old(self).stages(), old(store).cached(), 0),
                    gathered_order(old(self).gathered()),
                    scope@,
                    cache_namespace@,
                    prior_messages@.map_values(|m: Message| m@),
                    true,
                );
                &&& final(self).stages() == k.0
                &&& n == k.2
                &&& old(store).keeps_all() ==> final(store).cached() == k.1
            },
            all_kept_final(old(self).stages(), gathered_order(old(self).gathered()), scope@) ==> r == Ok::<
                usize,
                AppError,
            >(0) && *final(store) == *old(store) && final(self).stages() == old(self).stages(),
    {
        let items = self.choice_items();
        self.store_choices(&items, store, scope, cache_namespace, prior_messages, true)
    }

    /// Keeps the reasoning of every choice at the final stage, in order, as
    /// the stream ends; giving how many keys the reasoning went under.
    pub fn store_reasoning<S: ReasoningStore>(
        &mut self,
        store: &mut S,
        scope: &str,
        cache_namespace: &str,
        prior_messages: &[Message],
    ) -> (r: Result<usize, AppError>)
        ensures
            final(self).gathered() == old(self).gathered(),
            final(store).keeps_all() == old(store).keeps_all(),
            final(store).infallible() == old(store).infallible(),
            old(store).infallible() ==> r is Ok,
            r matches Ok(n) ==> {
                let k = kept_choices(
                    (old(self).stages(), old(store).cached(), 0),
                    gathered_order(old(self).gathered()),
                    scope@,
                    cache_namespace@,
                    prior_messages@.map_values(|m: Message| m@),
                    false,
                );
                &&& final(self).stages() == k.0
                &&& n == k.2
                &&& old(store).keeps_all() ==> final(store).cached() == k.1
            },
            all_kept_final(old(self).stages(), gathered_order(old(self).gathered()), scope@) ==> r == Ok::<
                usize,
                AppError,
            >(0) && *final(store) == *old(store) && final(self).stages() == old(self).stages(),
    {
        let items = self.choice_items();
        self.store_choices(&items, store, scope, cache_namespace, prior_messages, false)
    }
}

impl Default for StreamAccumulator {
    fn default() -> (r: StreamAccumulator)
        ensures
            r.gathered() == Map::<i64, StreamingChoiceView>::empty(),
            r.stages() == Seq::<(i64, Seq<char>, bool)>::empty(),
    {
        let r = StreamAccumulator { choices: BTreeMap::new(), stored_choices: Vec::new() };
        assert(r.gathered() =~= Map::<i64, StreamingChoiceView>::empty());
        assert(r.stages() =~= Seq::<(i64, Seq<char>, bool)>::empty());
        r
    }
}

/// What the adapter makes of one delta: the delta with the mirrored text put
/// before its content (none when nothing is mirrored), and the choices whose
/// reasoning block is open afterwards.
pub open spec fn adapted_delta(
    open: Set<i64>,
    index: i64,
    finish: Option<Json>,
    dm: Seq<(Seq<char>, Json)>,
    start: Seq<char>,
    end: Seq<char>,
) -> (Option<Seq<(Seq<char>, Json)>>, Set<i64>) {
    let reasoning = opt_str(obj_get(dm, "reasoning_content"@));
    let opens = reasoning is Some && reasoning.unwrap().len() > 0;
    let text1 = if opens {
        if open.contains(index) {
            reasoning.unwrap()
        } else {
            start + reasoning.unwrap()
        }
    } else {
        Seq::empty()
    };
    let open1 = if opens {
        open.insert(index)
    } else {
        open
    };
    let existing = opt_str(obj_get(dm, "content"@));
    let closes = open1.contains(index) && (existing is Some || obj_get(dm, "tool_calls"@) is Some || opt_str(finish) is Some);
    let text2 = if closes {
        text1 + end
    } else {
        text1
    };
    let open2 = if closes {
        open1.remove(index)
    } else {
        open1
    };
    if opens || closes {
        (
            Some(obj_set(dm, "content"@, Json::Str(text2 + match existing {
                Some(t) => t,
                None => Seq::empty(),
            }))),
            open2,
        )
    } else {
        (None, open2)
    }
}

/// What the adapter makes of one choice of a chunk: a missing delta becomes an
/// empty one, and the delta is adapted.
pub open spec fn adapted_choice(open: Set<i64>, raw: Json, start: Seq<char>, end: Seq<char>) -> (Json, Set<i64>) {
    match raw {
        Json::Object(co) => {
            let index = chunk_choice_index(co);
            let finish = obj_get(co, "finish_reason"@);
            let co1 = if obj_get(co, "delta"@) is Some {
                co
            } else {
                obj_set(co, "delta"@, Json::Object(Seq::empty()))
            };
            match obj_get(co1, "delta"@) {
                Some(Json::Object(dm)) => {
                    let (nd, open2) = adapted_delta(open, index, finish, dm, start, end);
                    match nd {
                        Some(dm2) => (Json::Object(obj_set(co1, "delta"@, Json::Object(dm2))), open2),
                        None => (Json::Object(co1), open2),
                    }
                },
                _ => (Json::Object(co1), open),
            }
        },
        _ => (raw, open),
    }
}

/// What the adapter makes of a chunk's choices, in order.
pub open spec fn adapted_choices(open: Set<i64>, cs: Seq<Json>, start: Seq<char>, end: Seq<char>) -> (Seq<Json>, Set<i64>)
    decreases cs.len(),
{
    if cs.len() == 0 {
        (Seq::empty(), open)
    } else {
        let (before, open1) = adapted_choices(open, cs.drop_last(), start, end);
        let (c, open2) = adapted_choice(open1, cs.last(), start, end);
        (before.push(c), open2)
    }
}

/// The metadata with a chunk's member of that name, when it has one.
pub open spec fn with_metadata(meta: Seq<(Seq<char>, Json)>, pm: Seq<(Seq<char>, Json)>, key: Seq<char>) -> Seq<(Seq<char>, Json)> {
    match obj_get(pm, key) {
        Some(v) => obj_set(meta, key, v),
        None => meta,
    }
}

/// What the adapter makes of a chunk: the chunk, the open choices and the
/// metadata (the last `id`, `object` and `created` seen) afterwards.
pub open spec fn adapted_chunk(
    open: Set<i64>,
    meta: Seq<(Seq<char>, Json)>,
    chunk: Json,
    start: Seq<char>,
    end: Seq<char>,
) -> (Json, Set<i64>, Seq<(Seq<char>, Json)>) {
    match chunk {
        Json::Object(pm) => {
            let meta1 = with_metadata(with_metadata(with_metadata(meta, pm, "id"@), pm, "object"@), pm, "created"@);
            match obj_get(pm, "choices"@) {
                Some(Json::Array(cs)) => {
                    let (cs2, open2) = adapted_choices(open, cs, start, end);
                    (Json::Object(obj_set(pm, "choices"@, Json::Array(cs2))), open2, meta1)
                },
                _ => (chunk, open, meta1),
            }
        },
        _ => (chunk, open, meta),
    }
}

/// The choice of a closing chunk: the end of the choice's reasoning block.
pub open spec fn closing_choice(index: i64, end: Seq<char>) -> Json {
    Json::Object(
        seq![
            ("index"@, Json::Number(signed_decimal(index as int))),
            ("delta"@, Json::Object(seq![("content"@, Json::Str(end))])),
            ("finish_reason"@, Json::Null),
        ],
    )
}

/// The member of the metadata of that name, or a default.
pub open spec fn meta_or(meta: Seq<(Seq<char>, Json)>, key: Seq<char>, default: Json) -> Json {
    match obj_get(meta, key) {
        Some(v) => v,
        None => default,
    }
}

/// The chunk that closes the open reasoning blocks, by increasing index.
pub open spec fn closing_chunk(open: Set<i64>, meta: Seq<(Seq<char>, Json)>, model: Seq<char>, end: Seq<char>) -> Json {
    Json::Object(
        seq![
            ("id"@, meta_or(meta, "id"@, Json::Str("chatcmpl-reasoning-close"@))),
            ("object"@, meta_or(meta, "object"@, Json::Str("chat.completion.chunk"@))),
            ("created"@, meta_or(meta, "created"@, Json::Number("0"@))),
            ("model"@, Json::Str(model)),
            ("choices"@, Json::Array(sorted_indexes(open).map_values(|i: i64| closing_choice(i, end)))),
        ],
    )
}

/// Shows streamed reasoning to clients that only display content: the
/// reasoning is mirrored into the content inside a reasoning block.
pub struct CursorReasoningDisplayAdapter {
    open_choices: BTreeSet<i64>,
    last_chunk_metadata: JsonMap,
    block_start: &'static str,
    block_end: &'static str,
}

proof fn lemma_increasing_ref_indexes(s: Seq<&i64>)
    requires
        vstd::std_specs::btree::increasing_seq(s),
    ensures
        increasing(s.unref()),
{
    assert(vstd::laws_cmp::obeys_cmp::<i64>());
    assert(vstd::laws_cmp::obeys_cmp::<&i64>());
    assert forall|i: int, j: int| 0 <= i < j < s.len() implies *s[i] < *s[j] by {
        assert(OrdSpec::cmp_spec(&s[i], &s[j]) is Less);
    }
    assert forall|i: int, j: int| 0 <= i < j < s.len() implies s.unref()[i] < s.unref()[j] by {
        assert(*s[i] < *s[j]);
    }
}

impl CursorReasoningDisplayAdapter {
    /// The choices whose reasoning block is open.
    pub closed spec fn open_indexes(&self) -> Set<i64> {
        self.open_choices@
    }

    /// The last `id`, `object` and `created` seen.
    pub closed spec fn metadata(&self) -> Seq<(Seq<char>, Json)> {
        members_view(self.last_chunk_metadata@)
    }

    /// What opens a reasoning block.
    pub closed spec fn opener(&self) -> Seq<char> {
        self.block_start@
    }

    /// What closes a reasoning block.
    pub closed spec fn closer(&self) -> Seq<char> {
        self.block_end@
    }

    /// An adapter with no open block, using collapsible blocks or plain ones.
    pub fn new(collapsible: bool) -> (r: CursorReasoningDisplayAdapter)
        ensures
            r.open_indexes() == Set::<i64>::empty(),
            r.metadata() == Seq::<(Seq<char>, Json)>::empty(),
            r.opener() == block_start(collapsible),
            r.closer() == block_end(collapsible),
    {
        let r = CursorReasoningDisplayAdapter {
            open_choices: BTreeSet::new(),
            last_chunk_metadata: Vec::new(),
            block_start: block_start_text(collapsible),
            block_end: block_end_text(collapsible),
        };
        assert(r.metadata() =~= Seq::<(Seq<char>, Json)>::empty());
        r
    }

    fn adapt_delta(&mut self, index: i64, finish: Option<&JsonValue>, dm: &JsonMap) -> (r: Option<JsonMap>)
        ensures
            (match r {
                Some(m) => Some(members_view(m@)),
                None => None,
            }, final(self).open_indexes()) == adapted_delta(
                old(self).open_indexes(),
                index,
                crate::json::opt_view(finish),
                members_view(dm@),
                old(self).opener(),
                old(self).closer(),
            ),
            final(self).metadata() == old(self).metadata(),
            final(self).opener() == old(self).opener(),
            final(self).closer() == old(self).closer(),
    {
        let mut text = String::new();
        let mut has_parts = false;
        if let Some(JsonValue::Str(reasoning)) = map_get(dm, "reasoning_content") {
            if !reasoning.as_str().is_empty() {
                if !self.open_choices.contains(&index) {
                    text = owned(self.block_start);
                    self.open_choices.insert(index);
                }
                text = concat(text.as_str(), reasoning.as_str());
                has_parts = true;
            }
        }
        let existing = match map_get(dm, "content") {
            Some(JsonValue::Str(t)) => Some(t),
            _ => None,
        };
        let finishes = match finish {
            Some(JsonValue::Str(_)) => true,
            _ => false,
        };
        if self.open_choices.contains(&index) && (existing.is_some() || map_get(dm, "tool_calls").is_some() || finishes) {
            text = concat(text.as_str(), self.block_end);
            self.open_choices.remove(&index);
            has_parts = true;
        }
        if !has_parts {
            return None;
        }
        if let Some(t) = existing {
            text = concat(text.as_str(), t.as_str());
        }
        let mut out = crate::json::clone_map(dm);
        crate::json::map_insert(&mut out, owned("content"), JsonValue::Str(text));
        Some(out)
    }

    fn adapt_choice(&mut self, raw: &JsonValue) -> (r: JsonValue)
        ensures
            (r@, final(self).open_indexes()) == adapted_choice(old(self).open_indexes(), raw@, old(self).opener(), old(self).closer()),
            final(self).metadata() == old(self).metadata(),
            final(self).opener() == old(self).opener(),
            final(self).closer() == old(self).closer(),
    {
        let co = match raw {
            JsonValue::Object(co) => co,
            _ => {
                return raw.deep_clone();
            },
        };
        let index = match map_get(co, "index") {
            Some(v) => match v.as_i64() {
                Some(n) => n,
                None => 0,
            },
            None => 0,
        };
        let finish = map_get(co, "finish_reason");
        let mut co1 = crate::json::clone_map(co);
        if !crate::json::map_contains(co, "delta") {
            let empty: JsonMap = Vec::new();
            assert(members_view(empty@) =~= Seq::<(Seq<char>, Json)>::empty());
            crate::json::map_insert(&mut co1, owned("delta"), JsonValue::Object(empty));
            proof {
                crate::json::lemma_obj_set_get(members_view(co@), "delta"@, Json::Object(Seq::empty()));
            }
        }
        let replacement = match map_get(&co1, "delta") {
            Some(JsonValue::Object(dm)) => self.adapt_delta(index, finish, dm),
            _ => None,
        };
        if let Some(dm2) = replacement {
            crate::json::map_insert(&mut co1, owned("delta"), JsonValue::Object(dm2));
        }
        JsonValue::Object(co1)
    }

    /// Mirrors each choice's reasoning into its content, opening a reasoning
    /// block before the first reasoning of a choice and closing it when content,
    /// tool calls or a finish reason arrive; keeps the chunk's `id`, `object`
    /// and `created` for a closing chunk.
    pub fn rewrite_chunk(&mut self, chunk: &mut JsonValue)
        ensures
            (final(chunk)@, final(self).open_indexes(), final(self).metadata()) == adapted_chunk(
                old(self).open_indexes(),
                old(self).metadata(),
                old(chunk)@,
                old(self).opener(),
                old(self).closer(),
            ),
            final(self).opener() == old(self).opener(),
            final(self).closer() == old(self).closer(),
    {
        let replacement = match &*chunk {
            JsonValue::Object(pm) => {
                let ghost pmv = members_view(pm@);
                if let Some(v) = map_get(pm, "id") {
                    crate::json::map_insert(&mut self.last_chunk_metadata, owned("id"), v.deep_clone());
                }
                if let Some(v) = map_get(pm, "object") {
                    crate::json::map_insert(&mut self.last_chunk_metadata, owned("object"), v.deep_clone());
                }
                if let Some(v) = map_get(pm, "created") {
                    crate::json::map_insert(&mut self.last_chunk_metadata, owned("created"), v.deep_clone());
                }
                match map_get(pm, "choices") {
                    Some(JsonValue::Array(cs)) => {
                        let ghost cv = crate::json::items_view(cs@);
                        let ghost open0 = self.open_indexes();
                        let mut out: Vec<JsonValue> = Vec::new();
                        let mut i: usize = 0;
                        assert(cv.take(0) =~= Seq::<Json>::empty());
                        while i < cs.len()
                            invariant
                                i <= cs.len(),
                                cv == crate::json::items_view(cs@),
                                (crate::json::items_view(out@), self.open_indexes()) == adapted_choices(open0, cv.take(i as int), self.opener(), self.closer()),
                                self.metadata() == with_metadata(with_metadata(with_metadata(old(self).metadata(), pmv, "id"@), pmv, "object"@), pmv, "created"@),
                                self.opener() == old(self).opener(),
                                self.closer() == old(self).closer(),
                            decreases cs.len() - i,
                        {
                            proof {
                                assert(cv.take(i + 1).drop_last() =~= cv.take(i as int));
                                assert(cv.take(i + 1).last() == cs@[i as int]@);
                            }
                            let c = self.adapt_choice(&cs[i]);
                            out.push(c);
                            assert(crate::json::items_view(out@) =~= adapted_choices(open0, cv.take(i as int), self.opener(), self.closer()).0.push(c@));
                            i = i + 1;
                        }
                        assert(cv.take(cs.len() as int) =~= cv);
                        let mut m = crate::json::clone_map(pm);
                        crate::json::map_insert(&mut m, owned("choices"), JsonValue::Array(out));
                        Some(JsonValue::Object(m))
                    },
                    _ => None,
                }
            },
            _ => None,
        };
        if let Some(v) = replacement {
            *chunk = v;
        }
    }

    /// The chunk that closes every open reasoning block, by increasing index,
    /// when there is one; no block stays open afterwards.
    pub fn flush_chunk(&mut self, model: &str) -> (r: Option<JsonValue>)
        ensures
            old(self).open_indexes().is_empty() ==> r is None,
            !old(self).open_indexes().is_empty() ==> r is Some,
            r matches Some(c) ==> c@ == closing_chunk(
                old(self).open_indexes(),
                old(self).metadata(),
                model@,
                old(self).closer(),
            ),
            final(self).open_indexes() == Set::<i64>::empty(),
            final(self).metadata() == old(self).metadata(),
            final(self).opener() == old(self).opener(),
            final(self).closer() == old(self).closer(),
    {
        if self.open_choices.is_empty() {
            return None;
        }
        let ghost end = self.closer();
        let mut choices: Vec<JsonValue> = Vec::new();
        for k in it: self.open_choices.iter()
            invariant
                choices@.len() == it.index(),
                end == self.closer(),
                forall|j: int| 0 <= j < it.index() ==> (#[trigger] choices@[j])@ == closing_choice(*it.seq()[j], end),
        {
            let mut delta: JsonMap = Vec::new();
            delta.push((owned("content"), JsonValue::string(self.block_end)));
            let mut c: JsonMap = Vec::new();
            c.push((owned("index"), JsonValue::from_i64(*k)));
            c.push((owned("delta"), JsonValue::Object(delta)));
            c.push((owned("finish_reason"), JsonValue::Null));
            assert(members_view(c@) =~= seq![
                ("index"@, Json::Number(signed_decimal(*k as int))),
                ("delta"@, Json::Object(seq![("content"@, Json::Str(end))])),
                ("finish_reason"@, Json::Null),
            ]) by {
                assert(members_view(delta@) =~= seq![("content"@, Json::Str(end))]);
            }
            choices.push(JsonValue::Object(c));
        }
        proof {
            let v = spec_btree_keys_iter(&self.open_choices).remaining();
            let ks = v.unref();
            lemma_increasing_ref_indexes(v);
            lemma_sorted_unique(ks, sorted_indexes(self.open_choices@));
            assert(crate::json::items_view(choices@) =~= sorted_indexes(self.open_choices@).map_values(|i: i64| closing_choice(i, end)));
        }
        let meta = &self.last_chunk_metadata;
        let id = match map_get(meta, "id") {
            Some(v) => v.deep_clone(),
            None => JsonValue::string("chatcmpl-reasoning-close"),
        };
        let object = match map_get(meta, "object") {
            Some(v) => v.deep_clone(),
            None => JsonValue::string("chat.completion.chunk"),
        };
        let created = match map_get(meta, "created") {
            Some(v) => v.deep_clone(),
            None => JsonValue::Number(owned("0")),
        };
        let mut out: JsonMap = Vec::new();
        out.push((owned("id"), id));
        out.push((owned("object"), object));
        out.push((owned("created"), created));
        out.push((owned("model"), JsonValue::string(model)));
        let ghost cv = crate::json::items_view(choices@);
        out.push((owned("choices"), JsonValue::Array(choices)));
        assert(members_view(out@) =~= seq![
            ("id"@, meta_or(self.metadata(), "id"@, Json::Str("chatcmpl-reasoning-close"@))),
            ("object"@, meta_or(self.metadata(), "object"@, Json::Str("chat.completion.chunk"@))),
            ("created"@, meta_or(self.metadata(), "created"@, Json::Number("0"@))),
            ("model"@, Json::Str(model@)),
            ("choices"@, Json::Array(cv)),
        ]);
        self.open_choices.clear();
        Some(JsonValue::Object(out))
    }
}

/// A server-sent event carrying the given data: `data: `, the data, and a
/// blank line.
pub open spec fn sse_event(data: Seq<u8>) -> Seq<u8> {
    seq![100u8, 97u8, 116u8, 97u8, 58u8, 32u8] + data + seq![10u8, 10u8]
}

/// The data that ends a stream: `[DONE]`.
pub open spec fn done_data() -> Seq<u8> {
    seq![91u8, 68u8, 79u8, 78u8, 69u8, 93u8]
}

/// Whether a byte is ASCII white space.
pub open spec fn is_ascii_space(b: u8) -> bool {
    b == 32 || b == 9 || b == 10 || b == 12 || b == 13
}

/// The bytes without leading ASCII white space.
pub open spec fn trim_ascii_start(s: Seq<u8>) -> Seq<u8>
    decreases s.len(),
{
    if s.len() > 0 && is_ascii_space(s[0]) {
        trim_ascii_start(s.drop_first())
    } else {
        s
    }
}

/// The bytes without trailing ASCII white space.
pub open spec fn trim_ascii_end(s: Seq<u8>) -> Seq<u8>
    decreases s.len(),
{
    if s.len() > 0 && is_ascii_space(s.last()) {
        trim_ascii_end(s.drop_last())
    } else {
        s
    }
}

/// A line without its line break (`\r\n` or `\n`).
pub open spec fn line_without_break(line: Seq<u8>) -> Seq<u8> {
    if line.len() >= 2 && line[line.len() - 2] == 13u8 && line[line.len() - 1] == 10u8 {
        line.take(line.len() - 2)
    } else if line.len() >= 1 && line[line.len() - 1] == 10u8 {
        line.take(line.len() - 1)
    } else {
        line
    }
}

/// The data of a `data:` line, without surrounding white space; none for any
/// other line.
pub open spec fn sse_data_field(line: Seq<u8>) -> Option<Seq<u8>> {
    let b = line_without_break(line);
    if b.len() >= 5 && b.take(5) == seq![100u8, 97u8, 116u8, 97u8, 58u8] {
        Some(trim_ascii_end(trim_ascii_start(b.skip(5))))
    } else {
        None
    }
}

/// A chunk as an event.
pub fn sse_data(chunk: &JsonValue) -> (r: Vec<u8>)
    ensures
        r@ == sse_event(json_bytes(chunk@)),
{
    let mut out: Vec<u8> = vec![100u8, 97u8, 116u8, 97u8, 58u8, 32u8];
    let mut body = encode_bytes(chunk);
    out.append(&mut body);
    let mut end: Vec<u8> = vec![10u8, 10u8];
    out.append(&mut end);
    out
}

fn is_space_byte(b: u8) -> (r: bool)
    ensures
        r == is_ascii_space(b),
{
    b == 32 || b == 9 || b == 10 || b == 12 || b == 13
}

/// The data of a `data:` line, if the line is one.
fn data_field(line: &[u8]) -> (r: Option<Vec<u8>>)
    ensures
        match r {
            Some(d) => sse_data_field(line@) == Some(d@),
            None => sse_data_field(line@) is None,
        },
{
    let n = line.len();
    let end: usize = if n >= 2 && line[n - 2] == 13u8 && line[n - 1] == 10u8 {
        n - 2
    } else if n >= 1 && line[n - 1] == 10u8 {
        n - 1
    } else {
        n
    };
    let ghost b = line_without_break(line@);
    assert(b =~= line@.take(end as int));
    if !(end >= 5 && line[0] == 100u8 && line[1] == 97u8 && line[2] == 116u8 && line[3] == 97u8 && line[4] == 58u8) {
        proof {
            if b.len() >= 5 && b.take(5) == seq![100u8, 97u8, 116u8, 97u8, 58u8] {
                assert(b.take(5)[0] == line@[0]);
                assert(b.take(5)[1] == line@[1]);
                assert(b.take(5)[2] == line@[2]);
                assert(b.take(5)[3] == line@[3]);
                assert(b.take(5)[4] == line@[4]);
            }
        }
        return None;
    }
    assert(b.take(5) =~= seq![100u8, 97u8, 116u8, 97u8, 58u8]);
    let mut start: usize = 5;
    assert(b.skip(5) =~= line@.subrange(5, end as int));
    while start < end && is_space_byte(line[start])
        invariant
            5 <= start <= end <= line@.len(),
            trim_ascii_start(b.skip(5)) == trim_ascii_start(line@.subrange(start as int, end as int)),
        decreases end - start,
    {
        assert(line@.subrange(start as int, end as int).drop_first() =~= line@.subrange(start + 1, end as int));
        start = start + 1;
    }
    let ghost t = line@.subrange(start as int, end as int);
    assert(trim_ascii_start(t) == t);
    let mut stop: usize = end;
    while stop > start && is_space_byte(line[stop - 1])
        invariant
            start <= stop <= end,
            end <= line@.len(),
            trim_ascii_end(t) == trim_ascii_end(line@.subrange(start as int, stop as int)),
            t == line@.subrange(start as int, end as int),
        decreases stop - start,
    {
        assert(line@.subrange(start as int, stop as int).drop_last() =~= line@.subrange(start as int, stop - 1));
        stop = stop - 1;
    }
    let data = slice_subrange(line, start, stop);
    Some(slice_to_vec(data))
}

fn is_done_data(d: &Vec<u8>) -> (r: bool)
    ensures
        r == (d@ == done_data()),
{
    let r = d.len() == 6 && d[0] == 91u8 && d[1] == 68u8 && d[2] == 79u8 && d[3] == 78u8 && d[4] == 69u8 && d[5] == 93u8;
    assert(r ==> d@ =~= done_data());
    r
}

/// The bytes that close the adapter's open reasoning blocks, if any.
pub open spec fn flushed_bytes(
    open: Set<i64>,
    meta: Seq<(Seq<char>, Json)>,
    model: Seq<char>,
    end: Seq<char>,
) -> Seq<u8> {
    if open.is_empty() {
        Seq::empty()
    } else {
        sse_event(json_bytes(closing_chunk(open, meta, model, end)))
    }
}

/// What a line is to the rewriter.
pub open spec fn data_is_done(line: Seq<u8>) -> bool {
    sse_data_field(line) == Some(done_data())
}

/// The chunk a line carries: a `data:` line, other than the end of the stream,
/// whose data is a JSON document.
pub open spec fn line_chunk(line: Seq<u8>) -> Option<Json> {
    match sse_data_field(line) {
        Some(d) => if d == done_data() {
            None
        } else {
            match json_parse(d) {
                Ok(c) => Some(c),
                Err(_) => None,
            }
        },
        None => None,
    }
}

/// Rewrites one line of an upstream event stream for the client. A line that
/// carries no chunk passes through unchanged. The end of the stream keeps the
/// reasoning of every choice, closes the open reasoning blocks and ends the
/// stream. A chunk is taken in, the ready reasoning is kept, the reasoning is
/// mirrored into content when an adapter is given, and the model name is the
/// client's.
pub fn rewrite_sse_line<S: ReasoningStore>(
    line: &[u8],
    original_model: &str,
    accumulator: &mut StreamAccumulator,
    cache_namespace: &str,
    request_messages: &[Message],
    store: &mut S,
    display_adapter: Option<&mut CursorReasoningDisplayAdapter>,
) -> (r: Result<(Vec<u8>, bool), AppError>)
    ensures
        final(store).keeps_all() == old(store).keeps_all(),
        final(store).infallible() == old(store).infallible(),
        old(store).infallible() ==> r is Ok,
        display_adapter matches Some(a) ==> final(a).opener() == a.opener() && final(a).closer() == a.closer(),
        !data_is_done(line@) && line_chunk(line@) is None ==> {
            &&& r is Ok
            &&& r->Ok_0.0@ == line@
            &&& !r->Ok_0.1
            &&& final(accumulator).gathered() == old(accumulator).gathered()
            &&& final(accumulator).stages() == old(accumulator).stages()
            &&& final(store).cached() == old(store).cached()
        },
        !data_is_done(line@) && line_chunk(line@) is None ==> (display_adapter matches Some(a) ==> final(a).open_indexes()
            == a.open_indexes() && final(a).metadata() == a.metadata()),
        data_is_done(line@) ==> {
            let k = kept_choices(
                (old(accumulator).stages(), old(store).cached(), 0),
                gathered_order(old(accumulator).gathered()),
                scope_of(request_messages@.map_values(|m: Message| m@), cache_namespace@),
                cache_namespace@,
                request_messages@.map_values(|m: Message| m@),
                false,
            );
            &&& final(accumulator).gathered() == old(accumulator).gathered()
            &&& r is Ok ==> r->Ok_0.1 && final(accumulator).stages() == k.0
            &&& r is Ok && old(store).keeps_all() ==> final(store).cached() == k.1
            &&& r is Ok && display_adapter is None ==> r->Ok_0.0@ == sse_event(done_data())
        },
        data_is_done(line@) ==> (display_adapter matches Some(a) ==> (r is Ok ==> {
            &&& r->Ok_0.0@ == flushed_bytes(a.open_indexes(), a.metadata(), original_model@, a.closer()) + sse_event(done_data())
            &&& final(a).open_indexes().is_empty()
            &&& final(a).metadata() == a.metadata()
        })),
        line_chunk(line@) matches Some(chunk) ==> {
            let g = ingested(old(accumulator).gathered(), chunk);
            let k = kept_choices(
                (old(accumulator).stages(), old(store).cached(), 0),
                gathered_order(g),
                scope_of(request_messages@.map_values(|m: Message| m@), cache_namespace@),
                cache_namespace@,
                request_messages@.map_values(|m: Message| m@),
                true,
            );
            &&& final(accumulator).gathered() == g
            &&& r is Ok ==> !r->Ok_0.1 && final(accumulator).stages() == k.0
            &&& r is Ok && old(store).keeps_all() ==> final(store).cached() == k.1
            &&& r is Ok && display_adapter is None ==> r->Ok_0.0@ == sse_event(json_bytes(with_model_name(chunk, original_model@)))
        },
        line_chunk(line@) matches Some(chunk) ==> (display_adapter matches Some(a) ==> (r is Ok ==> {
            let ad = adapted_chunk(a.open_indexes(), a.metadata(), chunk, a.opener(), a.closer());
            &&& r->Ok_0.0@ == sse_event(json_bytes(with_model_name(ad.0, original_model@)))
            &&& final(a).open_indexes() == ad.1
            &&& final(a).metadata() == ad.2
        })),
{
    let data = match data_field(line) {
        Some(d) => d,
        None => {
            return Ok((slice_to_vec(line), false));
        },
    };
    let scope = conversation_scope(request_messages, cache_namespace);
    if is_done_data(&data) {
        accumulator.store_reasoning(store, scope.as_str(), cache_namespace, request_messages)?;
        let mut out: Vec<u8> = Vec::new();
        if let Some(adapter) = display_adapter {
            if let Some(closing) = adapter.flush_chunk(original_model) {
                out = sse_data(&closing);
            }
        }
        let mut done: Vec<u8> = vec![100u8, 97u8, 116u8, 97u8, 58u8, 32u8, 91u8, 68u8, 79u8, 78u8, 69u8, 93u8, 10u8, 10u8];
        assert(done@ =~= sse_event(done_data()));
        out.append(&mut done);
        return Ok((out, true));
    }
    let mut chunk = match parse_json(data.as_slice()) {
        Ok(v) => v,
        Err(_) => {
            return Ok((slice_to_vec(line), false));
        },
    };
    accumulator.ingest_chunk(&chunk);
    accumulator.store_ready_reasoning(store, scope.as_str(), cache_namespace, request_messages)?;
    if let Some(adapter) = display_adapter {
        adapter.rewrite_chunk(&mut chunk);
    }
    set_model_name(&mut chunk, original_model);
    Ok((sse_data(&chunk), false))
}

/// Applies one tool call delta to the tool calls.
fn merge_one_call_delta(calls: &mut Vec<ToolCall>, dm: &JsonMap)
    ensures
        final(calls)@.map_values(|c: ToolCall| c@) == merged_call_delta(
            old(calls)@.map_values(|c: ToolCall| c@),
            Json::Object(members_view(dm@)),
        ),
{
    let ghost dmv = members_view(dm@);
    let ghost before = old(calls)@.map_values(|c: ToolCall| c@);
    let index: usize = match map_get(dm, "index") {
        Some(v) => match v.as_u64() {
            Some(n) => n as usize,
            None => calls.len(),
        },
        None => calls.len(),
    };
    assert(index as int == delta_index(dmv, before.len()));
    if calls.len() <= index {
        while calls.len() <= index
            invariant
                calls@.len() <= index + 1,
                before.len() <= calls@.len(),
                before.len() <= index,
                calls@.map_values(|c: ToolCall| c@) =~= padded_calls(before, index as int).take(calls@.len() as int),
            decreases index + 1 - calls.len(),
        {
            calls.push(
                ToolCall {
                    id: None,
                    tool_type: owned("function"),
                    function: ToolFunction { name: String::new(), arguments: String::new() },
                },
            );
        }
    }
    assert(calls@.map_values(|c: ToolCall| c@) =~= padded_calls(before, index as int));
    let ghost padded = padded_calls(before, index as int);
    let mut tc = calls[index].duplicate();
    if let Some(JsonValue::Str(id)) = map_get(dm, "id") {
        tc.id = Some(id.clone());
    }
    if let Some(JsonValue::Str(t)) = map_get(dm, "type") {
        tc.tool_type = t.clone();
    }
    if let Some(JsonValue::Object(fm)) = map_get(dm, "function") {
        if let Some(JsonValue::Str(name)) = map_get(fm, "name") {
            tc.function.name = concat(tc.function.name.as_str(), name.as_str());
        }
        if let Some(JsonValue::Str(arguments)) = map_get(fm, "arguments") {
            tc.function.arguments = concat(tc.function.arguments.as_str(), arguments.as_str());
        }
    }
    assert(tc@ == updated_call(padded[index as int], dmv));
    calls.set(index, tc);
    assert(calls@.map_values(|c: ToolCall| c@) =~= padded.update(index as int, updated_call(padded[index as int], dmv)));
}

} // verus!
