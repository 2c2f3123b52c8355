//! What keeping and looking up reasoning promise across calls.
use vstd::prelude::*;
use crate::protocol::model::MessageView;
use crate::reasoning::keys::{
    calls_of, cluster_start, ids_of, key_of, last_user, turn_start, message_keys, message_sig, names_of, portable_keys, portable_prefix, scope_prefix,
    scoped_keys, tool_call_sig, turn_sig,
};
use crate::reasoning::store::{cache_with, candidate_keys, first_cached};

verus! {

/// Looking up keys one list after another finds what the first list finds,
/// else what the second finds.
pub proof fn lemma_first_cached_append(
    cache: Map<Seq<char>, Seq<char>>,
    a: Seq<Seq<char>>,
    b: Seq<Seq<char>>,
)
    ensures
        first_cached(cache, a + b) == match first_cached(cache, a) {
            Some(v) => Some(v),
            None => first_cached(cache, b),
        },
    decreases a.len(),
{
    if a.len() == 0 {
        assert(a + b =~= b);
    } else {
        assert((a + b)[0] == a[0]);
        assert((a + b).drop_first() =~= a.drop_first() + b);
        lemma_first_cached_append(cache, a.drop_first(), b);
    }
}

/// Reasoning kept for a message is what a later lookup, in the same
/// conversation scope, gives for any message with the same signature (its
/// content and tool calls): the message as the client sends it back, without
/// its reasoning, finds it again.
pub proof fn law_lookup_finds_kept_reasoning(
    cache: Map<Seq<char>, Seq<char>>,
    kept: MessageView,
    asked: MessageView,
    scope: Seq<char>,
    namespace: Seq<char>,
    asked_namespace: Seq<char>,
    prior: Option<Seq<MessageView>>,
    asked_prior: Option<Seq<MessageView>>,
    reasoning: Seq<char>,
)
    requires
        message_sig(asked) == message_sig(kept),
    ensures
        first_cached(
            cache_with(cache, candidate_keys(kept, scope, namespace, prior), reasoning),
            candidate_keys(asked, scope, asked_namespace, asked_prior),
        ) == Some(reasoning),
{
    let keys = candidate_keys(kept, scope, namespace, prior);
    let asked_keys = candidate_keys(asked, scope, asked_namespace, asked_prior);
    assert(keys[0] == asked_keys[0]);
    assert(keys.contains(keys[0]));
    assert(asked_keys.len() > 0);
}

/// Reasoning kept with a namespace carries over to another conversation: when
/// nothing is held for the message under the new conversation's own keys, the
/// lookup of a message with the same signature, after a turn with the same
/// signature, gives the kept reasoning.
pub proof fn law_reasoning_carries_over_conversations(
    cache: Map<Seq<char>, Seq<char>>,
    kept: MessageView,
    asked: MessageView,
    scope: Seq<char>,
    asked_scope: Seq<char>,
    namespace: Seq<char>,
    prior: Seq<MessageView>,
    asked_prior: Seq<MessageView>,
    reasoning: Seq<char>,
)
    requires
        namespace.len() > 0,
        message_sig(asked) == message_sig(kept),
        turn_sig(asked_prior) == turn_sig(prior),
        first_cached(
            cache_with(cache, candidate_keys(kept, scope, namespace, Some(prior)), reasoning),
            scoped_keys(asked, asked_scope),
        ) is None,
    ensures
        first_cached(
            cache_with(cache, candidate_keys(kept, scope, namespace, Some(prior)), reasoning),
            candidate_keys(asked, asked_scope, namespace, Some(asked_prior)),
        ) == Some(reasoning),
{
    let after = cache_with(cache, candidate_keys(kept, scope, namespace, Some(prior)), reasoning);
    let keys = candidate_keys(kept, scope, namespace, Some(prior));
    let kept_portable = portable_keys(kept, namespace, prior);
    let asked_portable = portable_keys(asked, namespace, asked_prior);
    lemma_first_cached_append(after, scoped_keys(asked, asked_scope), asked_portable);
    assert(kept_portable[0] == asked_portable[0]);
    assert(keys[scoped_keys(kept, scope).len() as int] == kept_portable[0]);
    assert(keys.contains(kept_portable[0]));
    assert(after.contains_key(asked_portable[0]));
    assert(asked_portable.len() > 0);
}

/// Nothing is found in an emptied cache.
pub proof fn law_cleared_cache_finds_nothing(keys: Seq<Seq<char>>)
    ensures
        first_cached(Map::<Seq<char>, Seq<char>>::empty(), keys) is None,
    decreases keys.len(),
{
    if keys.len() > 0 {
        law_cleared_cache_finds_nothing(keys.drop_first());
    }
}

/// The keys of a message under a prefix are its keys under no prefix, each
/// with the prefix in front.
pub proof fn lemma_message_keys_prefix(m: MessageView, prefix: Seq<char>)
    ensures
        message_keys(m, prefix).len() == message_keys(m, Seq::empty()).len(),
        forall|i: int|
            0 <= i < message_keys(m, prefix).len() ==> #[trigger] message_keys(m, prefix)[i] == prefix
                + message_keys(m, Seq::empty())[i],
{
    let e = Seq::<char>::empty();
    let ids = ids_of(calls_of(m));
    let calls = calls_of(m);
    let names = names_of(calls_of(m));
    let k2 = 1 + ids.len();
    let k3 = k2 + calls.len();
    assert forall|i: int| 0 <= i < message_keys(m, prefix).len() implies #[trigger] message_keys(m, prefix)[i]
        == prefix + message_keys(m, e)[i] by {
        let (kind, v) = if i < 1 {
            (":signature:"@, message_sig(m))
        } else if i < k2 {
            (":tool_call:"@, ids[i - 1])
        } else if i < k3 {
            (":tool_call_signature:"@, tool_call_sig(calls[i - k2]))
        } else {
            (":tool_name:"@, names[i - k3])
        };
        assert(message_keys(m, prefix)[i] == key_of(prefix, kind, v));
        assert(message_keys(m, e)[i] == key_of(e, kind, v));
        assert(key_of(prefix, kind, v) =~= prefix + key_of(e, kind, v));
    }
}

/// The keys that carry over between conversations are the keys within the
/// conversation, in the same order, with the namespace and the turn's
/// signature in front in place of the conversation's scope; without a
/// namespace there are none.
pub proof fn law_portable_keys_swap_prefix(
    m: MessageView,
    scope: Seq<char>,
    namespace: Seq<char>,
    prior: Seq<MessageView>,
)
    ensures
        namespace.len() == 0 ==> portable_keys(m, namespace, prior).len() == 0,
        namespace.len() > 0 ==> {
            let scoped = scoped_keys(m, scope);
            let portable = portable_keys(m, namespace, prior);
            let tails = message_keys(m, Seq::empty());
            &&& portable.len() == scoped.len()
            &&& scoped.len() > 0
            &&& forall|i: int|
                0 <= i < scoped.len() ==> #[trigger] scoped[i] == scope_prefix(scope) + tails[i]
                    && portable[i] == portable_prefix(namespace, prior) + tails[i]
        },
{
    lemma_message_keys_prefix(m, scope_prefix(scope));
    lemma_message_keys_prefix(m, portable_prefix(namespace, prior));
}

proof fn lemma_last_user_after(h: Seq<MessageView>, t: Seq<MessageView>)
    requires
        t.len() > 0,
        t[0].role == "user"@,
    ensures
        last_user(t) matches Some(j) && 0 <= j < t.len() && last_user(h + t) == Some(h.len() + j),
    decreases t.len(),
{
    let ht = h + t;
    assert(ht.last() == t.last());
    if t.last().role != "user"@ {
        assert(t.len() > 1);
        let t1 = t.drop_last();
        assert(t1[0] == t[0]);
        assert(ht.drop_last() =~= h + t1);
        lemma_last_user_after(h, t1);
    }
}

proof fn lemma_cluster_start_after(h: Seq<MessageView>, t: Seq<MessageView>, j: int)
    requires
        0 <= j <= t.len(),
        h.len() == 0 || h.last().role != "user"@,
    ensures
        cluster_start(h + t, h.len() + j) == h.len() + cluster_start(t, j),
    decreases j,
{
    let ht = h + t;
    if j > 0 {
        assert(ht[h.len() + j - 1] == t[j - 1]);
        if t[j - 1].role == "user"@ {
            lemma_cluster_start_after(h, t, j - 1);
        }
    } else if h.len() > 0 {
        assert(ht[h.len() - 1] == h.last());
    }
}

proof fn lemma_cluster_start_bounds(ms: Seq<MessageView>, i: int)
    requires
        0 <= i,
    ensures
        0 <= cluster_start(ms, i) <= i,
    decreases i,
{
    if i > 0 && i <= ms.len() && ms[i - 1].role == "user"@ {
        lemma_cluster_start_bounds(ms, i - 1);
    }
}

/// The turn signature reads only the current turn: the run of user messages
/// that holds the last user message, and what follows it. Whatever history
/// stands before a turn that starts with a user message (after a message that
/// is not one), the signature is the turn's own.
pub proof fn law_turn_signature_ignores_history(h: Seq<MessageView>, t: Seq<MessageView>)
    requires
        t.len() > 0,
        t[0].role == "user"@,
        h.len() == 0 || h.last().role != "user"@,
    ensures
        turn_sig(h + t) == turn_sig(t),
{
    lemma_last_user_after(h, t);
    let j = last_user(t).unwrap();
    lemma_cluster_start_after(h, t, j);
    lemma_cluster_start_bounds(t, j);
    assert(turn_start(h + t) == h.len() + turn_start(t));
    assert((h + t).skip(turn_start(h + t)) =~= t.skip(turn_start(t)));
}

} // verus!
