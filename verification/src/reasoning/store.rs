//! Reasoning stores: what every store promises, what the proxy does with a
//! store, and a store held in memory.
use vstd::prelude::*;
use crate::error::AppError;
use crate::json::encode_text;
use crate::protocol::model::{Message, MessageView};
use crate::reasoning::keys::{
    portable_keys, portable_reasoning_keys, scoped_keys, scoped_reasoning_keys,
};
use crate::text::{chars_of, str_eq};

verus! {

/// Text order: by character code, a proper prefix first.
pub open spec fn text_lt(a: Seq<char>, b: Seq<char>) -> bool
    decreases a.len(),
{
    if a.len() == 0 {
        b.len() > 0
    } else if b.len() == 0 {
        false
    } else if a[0] != b[0] {
        a[0] < b[0]
    } else {
        text_lt(a.drop_first(), b.drop_first())
    }
}

/// No text comes before itself.
pub proof fn lemma_text_lt_irreflexive(a: Seq<char>)
    ensures
        !text_lt(a, a),
    decreases a.len(),
{
    if a.len() > 0 {
        lemma_text_lt_irreflexive(a.drop_first());
    }
}

/// Text order is transitive.
pub proof fn lemma_text_lt_transitive(a: Seq<char>, b: Seq<char>, c: Seq<char>)
    requires
        text_lt(a, b),
        text_lt(b, c),
    ensures
        text_lt(a, c),
    decreases a.len(),
{
    if a.len() > 0 && b.len() > 0 && c.len() > 0 && a[0] == b[0] && b[0] == c[0] {
        lemma_text_lt_transitive(a.drop_first(), b.drop_first(), c.drop_first());
    }
}

/// Of two different texts, one comes before the other.
pub proof fn lemma_text_lt_total(a: Seq<char>, b: Seq<char>)
    requires
        a != b,
    ensures
        text_lt(a, b) || text_lt(b, a),
    decreases a.len(),
{
    if a.len() > 0 && b.len() > 0 && a[0] == b[0] {
        assert(a =~= seq![a[0]] + a.drop_first());
        assert(b =~= seq![b[0]] + b.drop_first());
        lemma_text_lt_total(a.drop_first(), b.drop_first());
    } else if a.len() == 0 && b.len() == 0 {
        assert(a =~= b);
    }
}

/// Whether `a` comes before `b` in text order.
pub fn text_less(a: &str, b: &str) -> (r: bool)
    ensures
        r == text_lt(a@, b@),
{
    let x = chars_of(a);
    let y = chars_of(b);
    let mut i: usize = 0;
    assert(x@.skip(0) =~= x@);
    assert(y@.skip(0) =~= y@);
    while i < x.len() && i < y.len() && x[i] == y[i]
        invariant
            i <= x.len(),
            i <= y.len(),
            text_lt(x@, y@) == text_lt(x@.skip(i as int), y@.skip(i as int)),
        decreases x.len() - i,
    {
        assert(x@.skip(i as int).drop_first() =~= x@.skip(i + 1));
        assert(y@.skip(i as int).drop_first() =~= y@.skip(i + 1));
        i = i + 1;
    }
    assert(x@.skip(0) =~= x@);
    assert(y@.skip(0) =~= y@);
    if i == x.len() {
        i < y.len()
    } else if i == y.len() {
        false
    } else {
        x[i] < y[i]
    }
}

/// Texts in strictly increasing text order.
pub open spec fn strictly_sorted(s: Seq<Seq<char>>) -> bool {
    forall|i: int, j: int| 0 <= i < j < s.len() ==> text_lt(s[i], s[j])
}

/// The views of strings.
pub open spec fn keys_view(keys: Seq<String>) -> Seq<Seq<char>> {
    keys.map_values(|k: String| k@)
}

fn insert_sorted(keys: &mut Vec<String>, key: String)
    requires
        strictly_sorted(keys_view(old(keys)@)),
    ensures
        strictly_sorted(keys_view(final(keys)@)),
        keys_view(final(keys)@).to_set() == keys_view(old(keys)@).to_set().insert(key@),
{
    let ghost s = keys_view(keys@);
    let mut i: usize = 0;
    while i < keys.len() && text_less(keys[i].as_str(), key.as_str())
        invariant
            i <= keys.len(),
            s == keys_view(keys@),
            strictly_sorted(s),
            forall|j: int| 0 <= j < i ==> text_lt(s[j], key@),
        decreases keys.len() - i,
    {
        i = i + 1;
    }
    if i < keys.len() && str_eq(keys[i].as_str(), key.as_str()) {
        assert(keys_view(keys@).to_set() =~= s.to_set().insert(key@)) by {
            assert(s[i as int] == key@);
        }
        return;
    }
    proof {
        assert forall|j: int| i <= j < s.len() implies text_lt(key@, s[j]) by {
            assert(!text_lt(s[i as int], key@));
            assert(s[i as int] != key@);
            lemma_text_lt_total(s[i as int], key@);
            if j > i {
                lemma_text_lt_transitive(key@, s[i as int], s[j]);
            }
        }
    }
    keys.insert(i, key);
    proof {
        let t = keys_view(keys@);
        assert(t =~= s.insert(i as int, key@));
        assert forall|p: int, q: int| 0 <= p < q < t.len() implies text_lt(t[p], t[q]) by {
            if q < i {
            } else if q == i {
            } else if p < i {
                lemma_text_lt_transitive(s[p], key@, s[q - 1]);
            } else if p == i {
            } else {
            }
        }
        assert(t.to_set() =~= s.to_set().insert(key@)) by {
            assert forall|x: Seq<char>| t.to_set().contains(x) <==> s.to_set().insert(key@).contains(x) by {
                if t.contains(x) {
                    let w = choose|w: int| 0 <= w < t.len() && t[w] == x;
                    if w < i {
                        assert(s[w] == x);
                    } else if w > i {
                        assert(s[w - 1] == x);
                    }
                }
                if s.contains(x) {
                    let w = choose|w: int| 0 <= w < s.len() && s[w] == x;
                    if w < i {
                        assert(t[w] == x);
                    } else {
                        assert(t[w + 1] == x);
                    }
                }
                if x == key@ {
                    assert(t[i as int] == x);
                }
            }
        }
    }
}

proof fn lemma_push_to_set(s: Seq<Seq<char>>, x: Seq<char>)
    ensures
        s.push(x).to_set() == s.to_set().insert(x),
{
    assert forall|y: Seq<char>| s.push(x).to_set().contains(y) <==> s.to_set().insert(x).contains(y) by {
        if s.push(x).contains(y) {
            let w = choose|w: int| 0 <= w < s.len() + 1 && s.push(x)[w] == y;
            if w < s.len() {
                assert(s[w] == y);
            }
        }
        if s.contains(y) {
            let w = choose|w: int| 0 <= w < s.len() && s[w] == y;
            assert(s.push(x)[w] == y);
        }
        if y == x {
            assert(s.push(x)[s.len() as int] == y);
        }
    }
    assert(s.push(x).to_set() =~= s.to_set().insert(x));
}

/// Two key lists with the same distinct keys write the same entries.
proof fn lemma_same_key_set(
    a: Seq<Seq<char>>,
    b: Seq<Seq<char>>,
    before: Map<Seq<char>, Seq<char>>,
    after: Map<Seq<char>, Seq<char>>,
    reasoning: Seq<char>,
)
    requires
        a.to_set() == b.to_set(),
    ensures
        forall|k: Seq<char>| a.contains(k) == b.contains(k),
        cache_with(before, a, reasoning) == cache_with(before, b, reasoning),
        written_over(before, after, a, reasoning) == written_over(before, after, b, reasoning),
{
    assert forall|k: Seq<char>| a.contains(k) == b.contains(k) by {
        assert(a.to_set().contains(k) == a.contains(k));
        assert(b.to_set().contains(k) == b.contains(k));
    }
    assert(Map::new(|k: Seq<char>| a.contains(k), |k: Seq<char>| reasoning) =~= Map::new(
        |k: Seq<char>| b.contains(k),
        |k: Seq<char>| reasoning,
    ));
}

/// Every entry of `a` is an entry of `b`.
pub open spec fn sub_cache(a: Map<Seq<char>, Seq<char>>, b: Map<Seq<char>, Seq<char>>) -> bool {
    forall|k: Seq<char>| #[trigger] a.contains_key(k) ==> b.contains_key(k) && a[k] == b[k]
}

/// A submap of a submap is a submap.
proof fn lemma_submap_trans(a: Map<Seq<char>, Seq<char>>, b: Map<Seq<char>, Seq<char>>, c: Map<Seq<char>, Seq<char>>)
    requires
        sub_cache(a, b),
        sub_cache(b, c),
    ensures
        sub_cache(a, c),
{
    assert forall|k: Seq<char>| a.contains_key(k) implies c.contains_key(k) && a[k] == c[k] by {
        assert(b.contains_key(k));
    }
}

/// The distinct keys, in text order.
pub fn sorted_unique(keys: &Vec<String>) -> (r: Vec<String>)
    ensures
        strictly_sorted(keys_view(r@)),
        keys_view(r@).to_set() == keys_view(keys@).to_set(),
{
    let mut out: Vec<String> = Vec::new();
    let mut i: usize = 0;
    assert(keys_view(out@).to_set() =~= keys_view(keys@).take(0).to_set());
    while i < keys.len()
        invariant
            i <= keys.len(),
            strictly_sorted(keys_view(out@)),
            keys_view(out@).to_set() == keys_view(keys@).take(i as int).to_set(),
        decreases keys.len() - i,
    {
        insert_sorted(&mut out, keys[i].clone());
        proof {
            let kv = keys_view(keys@);
            assert(kv.take(i + 1) =~= kv.take(i as int).push(kv[i as int]));
            lemma_push_to_set(kv.take(i as int), kv[i as int]);
            assert(kv[i as int] == keys@[i as int]@);
        }
        i = i + 1;
    }
    assert(keys_view(keys@).take(keys.len() as int) =~= keys_view(keys@));
    out
}

/// Texts in strictly increasing order hold no text twice, so they are as many
/// as the distinct texts among them.
pub proof fn lemma_sorted_count(s: Seq<Seq<char>>)
    requires
        strictly_sorted(s),
    ensures
        s.len() == s.to_set().len(),
{
    assert(s.no_duplicates()) by {
        assert forall|i: int, j: int| 0 <= i < s.len() && 0 <= j < s.len() && i != j implies s[i]
            != s[j] by {
            if i < j {
                lemma_text_lt_irreflexive(s[i]);
            } else {
                lemma_text_lt_irreflexive(s[j]);
            }
        }
    }
    s.unique_seq_to_set();
}

/// The views of optional earlier messages.
pub open spec fn prior_view(prior: Option<&[Message]>) -> Option<Seq<MessageView>> {
    match prior {
        Some(p) => Some(p@.map_values(|m: Message| m@)),
        None => None,
    }
}

/// The keys a message's reasoning is kept under: the scoped keys, then the
/// portable ones when earlier messages are given.
pub open spec fn candidate_keys(
    m: MessageView,
    scope: Seq<char>,
    namespace: Seq<char>,
    prior: Option<Seq<MessageView>>,
) -> Seq<Seq<char>> {
    scoped_keys(m, scope) + match prior {
        Some(p) => portable_keys(m, namespace, p),
        None => Seq::empty(),
    }
}

/// Whether a message's reasoning is kept: it is an assistant message with reasoning.
pub open spec fn stores_reasoning(m: MessageView) -> bool {
    m.role == "assistant"@ && m.reasoning_content is Some
}

/// The cache with the reasoning written under each of the keys.
pub open spec fn cache_with(
    cache: Map<Seq<char>, Seq<char>>,
    keys: Seq<Seq<char>>,
    reasoning: Seq<char>,
) -> Map<Seq<char>, Seq<char>> {
    cache.union_prefer_right(Map::new(|k: Seq<char>| keys.contains(k), |k: Seq<char>| reasoning))
}

/// Every entry of `after` is either one of the keys holding the reasoning, or
/// an entry that `before` held.
pub open spec fn written_over(
    before: Map<Seq<char>, Seq<char>>,
    after: Map<Seq<char>, Seq<char>>,
    keys: Seq<Seq<char>>,
    reasoning: Seq<char>,
) -> bool {
    forall|k: Seq<char>|
        #![trigger after.contains_key(k)]
        after.contains_key(k) ==> if keys.contains(k) {
            after[k] == reasoning
        } else {
            before.contains_key(k) && after[k] == before[k]
        }
}

/// The first of the keys that the cache holds, with what it holds there.
pub open spec fn first_cached(cache: Map<Seq<char>, Seq<char>>, keys: Seq<Seq<char>>) -> Option<Seq<char>>
    decreases keys.len(),
{
    if keys.len() == 0 {
        None
    } else if cache.contains_key(keys[0]) {
        Some(cache[keys[0]])
    } else {
        first_cached(cache, keys.drop_first())
    }
}

/// Where reasoning is cached, by key.
pub trait ReasoningStore {
    /// The reasoning held, by key, for a store whose contents it describes
    /// (see `tracks_cache`); of any other store it says nothing.
    closed spec fn cached(&self) -> Map<Seq<char>, Seq<char>> {
        Map::empty()
    }

    /// Whether `cached` is what the store holds, so that the clauses below on
    /// `cached` speak of its contents; a store that does not say so is not
    /// taken to, and those clauses then promise nothing of it.
    closed spec fn tracks_cache(&self) -> bool {
        false
    }

    /// Whether the store keeps every entry it is given (it prunes by neither
    /// age nor count) and `cached` is what it holds; a store that does not
    /// say so is not taken to.
    closed spec fn keeps_all(&self) -> bool {
        false
    }

    /// Whether its operations always succeed; a store that does not say so
    /// is not taken to.
    closed spec fn infallible(&self) -> bool {
        false
    }

    /// The reasoning held under a key.
    fn get(&self, key: &str) -> (r: Result<Option<String>, AppError>)
        ensures
            self.tracks_cache() ==> (r matches Ok(v) ==> match v {
                Some(s) => self.cached().contains_key(key@) && self.cached()[key@] == s@,
                None => !self.cached().contains_key(key@),
            }),
            self.infallible() ==> r is Ok,
    ;

    /// Keeps reasoning under a key, with the message it came from; the store may
    /// then drop entries that are too old or too many.
    fn put(&mut self, key: &str, reasoning: &str, message: &Message) -> (r: Result<(), AppError>)
        ensures
            final(self).keeps_all() == old(self).keeps_all(),
            final(self).infallible() == old(self).infallible(),
            final(self).tracks_cache() == old(self).tracks_cache(),
            old(self).infallible() ==> r is Ok,
            r is Ok && old(self).tracks_cache() ==> final(self).cached().contains_key(key@) && final(self).cached()[key@]
                == reasoning@,
            r is Ok && old(self).tracks_cache() ==> forall|k: Seq<char>|
                #![trigger final(self).cached().contains_key(k)]
                k != key@ && final(self).cached().contains_key(k) ==> old(self).cached().contains_key(k)
                    && final(self).cached()[k] == old(self).cached()[k],
            r is Ok && old(self).keeps_all() ==> final(self).cached() == old(self).cached().insert(
                key@,
                reasoning@,
            ),
    ;

    /// Drops the entries that are too old or too many, giving how many went.
    fn prune(&mut self) -> (r: Result<usize, AppError>)
        ensures
            final(self).keeps_all() == old(self).keeps_all(),
            final(self).infallible() == old(self).infallible(),
            final(self).tracks_cache() == old(self).tracks_cache(),
            old(self).infallible() ==> r is Ok,
            r is Ok && old(self).tracks_cache() ==> sub_cache(final(self).cached(), old(self).cached()),
            r is Ok && old(self).keeps_all() ==> final(self).cached() == old(self).cached() && r
                == Ok::<usize, AppError>(0),
    ;

    /// Drops every entry, giving how many there were.
    fn clear(&mut self) -> (r: Result<usize, AppError>)
        ensures
            final(self).keeps_all() == old(self).keeps_all(),
            final(self).infallible() == old(self).infallible(),
            final(self).tracks_cache() == old(self).tracks_cache(),
            old(self).infallible() ==> r is Ok,
            old(self).tracks_cache() ==> (r matches Ok(n) ==> final(self).cached() == Map::<
                Seq<char>,
                Seq<char>,
            >::empty() && n == old(self).cached().len()),
    ;

    /// Keeps an assistant message's reasoning under each of its distinct keys
    /// (in text order), giving how many keys; a message that is not an
    /// assistant message with reasoning keeps nothing.
    fn store_assistant_message(
        &mut self,
        message: &Message,
        scope: &str,
        cache_namespace: &str,
        prior_messages: Option<&[Message]>,
    ) -> (r: Result<usize, AppError>)
        ensures
            final(self).keeps_all() == old(self).keeps_all(),
            final(self).infallible() == old(self).infallible(),
            final(self).tracks_cache() == old(self).tracks_cache(),
            !stores_reasoning(message@) ==> r == Ok::<usize, AppError>(0),
            !stores_reasoning(message@) && (old(self).tracks_cache() || old(self).keeps_all())
                ==> final(self).cached() == old(self).cached(),
            old(self).infallible() ==> r is Ok,
            stores_reasoning(message@) && r is Ok ==> r == Ok::<usize, AppError>(
                candidate_keys(message@, scope@, cache_namespace@, prior_view(prior_messages)).to_set().len() as usize,
            ),
            stores_reasoning(message@) && r is Ok && old(self).tracks_cache() ==> written_over(
                old(self).cached(),
                final(self).cached(),
                candidate_keys(message@, scope@, cache_namespace@, prior_view(prior_messages)),
                message@.reasoning_content.unwrap(),
            ),
            stores_reasoning(message@) && r is Ok && old(self).keeps_all() ==> final(self).cached()
                == cache_with(
                old(self).cached(),
                candidate_keys(message@, scope@, cache_namespace@, prior_view(prior_messages)),
                message@.reasoning_content.unwrap(),
            ),
    {
        if !str_eq(message.role.as_str(), "assistant") {
            return Ok(0);
        }
        let reasoning = match &message.reasoning_content {
            Some(r) => r,
            None => {
                return Ok(0);
            },
        };
        let mut keys = scoped_reasoning_keys(message, scope);
        if let Some(prior) = prior_messages {
            let mut portable = portable_reasoning_keys(message, cache_namespace, prior);
            keys.append(&mut portable);
        }
        proof {
            assert(keys_view(keys@) =~= candidate_keys(
                message@,
                scope@,
                cache_namespace@,
                prior_view(prior_messages),
            ));
        }
        let distinct = sorted_unique(&keys);
        let ghost before = self.cached();
        let r = self.put_all(&distinct, reasoning.as_str(), message);
        proof {
            lemma_same_key_set(
                keys_view(distinct@),
                keys_view(keys@),
                before,
                self.cached(),
                reasoning@,
            );
        }
        r
    }

    /// Keeps reasoning under each of the given keys, in order, giving how many.
    fn put_all(&mut self, keys: &Vec<String>, reasoning: &str, message: &Message) -> (r: Result<usize, AppError>)
        requires
            strictly_sorted(keys_view(keys@)),
        ensures
            final(self).keeps_all() == old(self).keeps_all(),
            final(self).infallible() == old(self).infallible(),
            final(self).tracks_cache() == old(self).tracks_cache(),
            old(self).infallible() ==> r is Ok,
            r is Ok ==> r == Ok::<usize, AppError>(keys_view(keys@).to_set().len() as usize),
            r is Ok && old(self).tracks_cache() ==> written_over(old(self).cached(), final(self).cached(), keys_view(keys@), reasoning@),
            r is Ok && old(self).keeps_all() ==> final(self).cached() == cache_with(
                old(self).cached(),
                keys_view(keys@),
                reasoning@,
            ),
    {
        let ghost kv = keys_view(keys@);
        let ghost start = self.cached();
        let mut i: usize = 0;
        assert(kv.take(0) =~= Seq::<Seq<char>>::empty());
        assert(cache_with(start, kv.take(0), reasoning@) =~= start);
        while i < keys.len()
            invariant
                i <= keys.len(),
                kv == keys_view(keys@),
                self.keeps_all() == old(self).keeps_all(),
                self.infallible() == old(self).infallible(),
                self.tracks_cache() == old(self).tracks_cache(),
                start == old(self).cached(),
                self.tracks_cache() ==> written_over(start, self.cached(), kv.take(i as int), reasoning@),
                self.keeps_all() ==> self.cached() == cache_with(start, kv.take(i as int), reasoning@),
            decreases keys.len() - i,
        {
            let ghost before = self.cached();
            let result = self.put(keys[i].as_str(), reasoning, message);
            if result.is_err() {
                return Err(result.unwrap_err());
            }
            proof {
                let prev = kv.take(i as int);
                let now = kv.take(i + 1);
                let key = kv[i as int];
                assert(now =~= prev.push(key));
                assert(key == keys@[i as int]@);
                assert forall|k: Seq<char>| now.contains(k) <==> (prev.contains(k) || k == key) by {
                    if now.contains(k) {
                        let w = choose|w: int| 0 <= w < now.len() && now[w] == k;
                        if w < i {
                            assert(prev[w] == k);
                        }
                    }
                    if prev.contains(k) {
                        let w = choose|w: int| 0 <= w < prev.len() && prev[w] == k;
                        assert(now[w] == k);
                    }
                    if k == key {
                        assert(now[i as int] == k);
                    }
                }
                let after = self.cached();
                if self.tracks_cache() {
                    assert forall|k: Seq<char>| #[trigger] after.contains_key(k) implies (if now.contains(k) {
                        after[k] == reasoning@
                    } else {
                        start.contains_key(k) && after[k] == start[k]
                    }) by {
                        if k != key {
                            assert(before.contains_key(k) && after[k] == before[k]);
                        }
                    }
                }
                if self.keeps_all() {
                    assert(after =~= cache_with(start, now, reasoning@));
                }
            }
            i = i + 1;
        }
        proof {
            assert(kv.take(keys.len() as int) =~= kv);
            lemma_sorted_count(kv);
        }
        Ok(keys.len())
    }

    /// The reasoning held for a message: under the first of its keys (scoped,
    /// then portable when earlier messages are given) that the store holds.
    fn lookup_for_message(
        &self,
        message: &Message,
        scope: &str,
        cache_namespace: &str,
        prior_messages: Option<&[Message]>,
    ) -> (r: Result<Option<String>, AppError>)
        ensures
            self.infallible() ==> r is Ok,
            self.tracks_cache() ==> (r matches Ok(v) ==> match v {
                Some(s) => first_cached(
                    self.cached(),
                    candidate_keys(message@, scope@, cache_namespace@, prior_view(prior_messages)),
                ) == Some(s@),
                None => first_cached(
                    self.cached(),
                    candidate_keys(message@, scope@, cache_namespace@, prior_view(prior_messages)),
                ) is None,
            }),
    {
        let mut keys = scoped_reasoning_keys(message, scope);
        if let Some(prior) = prior_messages {
            let mut portable = portable_reasoning_keys(message, cache_namespace, prior);
            keys.append(&mut portable);
        }
        let ghost kv = keys_view(keys@);
        let ghost cands = candidate_keys(
            message@,
            scope@,
            cache_namespace@,
            prior_view(prior_messages),
        );
        proof {
            assert(kv =~= candidate_keys(
                message@,
                scope@,
                cache_namespace@,
                prior_view(prior_messages),
            ));
            assert(kv.skip(0) =~= kv);
        }
        let mut i: usize = 0;
        while i < keys.len()
            invariant
                i <= keys.len(),
                kv == keys_view(keys@),
                kv == cands,
                cands == candidate_keys(message@, scope@, cache_namespace@, prior_view(prior_messages)),
                self.tracks_cache() ==> first_cached(self.cached(), kv) == first_cached(
                    self.cached(),
                    kv.skip(i as int),
                ),
            decreases keys.len() - i,
        {
            assert(kv.skip(i as int)[0] == keys@[i as int]@);
            assert(kv.skip(i as int).len() > 0);
            match self.get(keys[i].as_str()) {
                Ok(Some(reasoning)) => {
                    assert(self.tracks_cache() ==> first_cached(self.cached(), kv.skip(i as int)) == Some(
                        reasoning@,
                    ));
                    return Ok(Some(reasoning));
                },
                Ok(None) => {},
                Err(e) => {
                    return Err(e);
                },
            }
            assert(kv.skip(i as int).drop_first() =~= kv.skip(i + 1));
            i = i + 1;
        }
        Ok(None)
    }

    /// Keeps reasoning under a message's portable keys, giving how many; none
    /// without a namespace.
    fn backfill_portable_aliases(
        &mut self,
        message: &Message,
        reasoning: &str,
        cache_namespace: &str,
        prior_messages: &[Message],
    ) -> (r: Result<usize, AppError>)
        ensures
            final(self).keeps_all() == old(self).keeps_all(),
            final(self).infallible() == old(self).infallible(),
            final(self).tracks_cache() == old(self).tracks_cache(),
            old(self).infallible() ==> r is Ok,
            r is Ok ==> r == Ok::<usize, AppError>(
                portable_keys(message@, cache_namespace@, prior_messages@.map_values(|m: Message| m@)).to_set().len() as usize,
            ),
            r is Ok && old(self).tracks_cache() ==> written_over(
                old(self).cached(),
                final(self).cached(),
                portable_keys(message@, cache_namespace@, prior_messages@.map_values(|m: Message| m@)),
                reasoning@,
            ),
            r is Ok && old(self).keeps_all() ==> final(self).cached() == cache_with(
                old(self).cached(),
                portable_keys(message@, cache_namespace@, prior_messages@.map_values(|m: Message| m@)),
                reasoning@,
            ),
    {
        let keys = portable_reasoning_keys(message, cache_namespace, prior_messages);
        if keys.len() == 0 {
            proof {
                let kv = keys_view(keys@);
                assert(kv =~= Seq::<Seq<char>>::empty());
                assert(kv.to_set() =~= Set::<Seq<char>>::empty());
                assert(cache_with(self.cached(), kv, reasoning@) =~= self.cached());
            }
            return Ok(0);
        }
        let distinct = sorted_unique(&keys);
        let mut with_reasoning = message.duplicate();
        with_reasoning.reasoning_content = Some(crate::text::owned(reasoning));
        let ghost before = self.cached();
        let r = self.put_all(&distinct, reasoning, &with_reasoning);
        proof {
            lemma_same_key_set(
                keys_view(distinct@),
                keys_view(keys@),
                before,
                self.cached(),
                reasoning@,
            );
        }
        r
    }
}

/// One cached entry.
pub struct CacheEntry {
    pub key: String,
    pub reasoning: String,
    pub message_json: String,
    pub created_at_ms: u64,
}

impl CacheEntry {
    fn duplicate(&self) -> (r: CacheEntry)
        ensures
            r == *self,
    {
        CacheEntry {
            key: self.key.clone(),
            reasoning: self.reasoning.clone(),
            message_json: self.message_json.clone(),
            created_at_ms: self.created_at_ms,
        }
    }
}

/// The keys of entries.
pub open spec fn entry_keys(entries: Seq<CacheEntry>) -> Seq<Seq<char>> {
    entries.map_values(|e: CacheEntry| e.key@)
}

/// The reasoning held under each key of the entries.
pub open spec fn entries_map(entries: Seq<CacheEntry>) -> Map<Seq<char>, Seq<char>> {
    Map::new(
        |k: Seq<char>| entry_keys(entries).contains(k),
        |k: Seq<char>| entries[entry_keys(entries).index_of(k)].reasoning@,
    )
}

proof fn lemma_index_of(ks: Seq<Seq<char>>, k: Seq<char>, i: int)
    requires
        ks.no_duplicates(),
        0 <= i < ks.len(),
        ks[i] == k,
    ensures
        ks.index_of(k) == i,
{
    assert(ks.contains(k));
    let a = ks.index_of(k);
    assert(0 <= a < ks.len() && ks[a] == k);
}

proof fn lemma_entries_push(s: Seq<CacheEntry>, e: CacheEntry)
    requires
        entry_keys(s).no_duplicates(),
        !entry_keys(s).contains(e.key@),
    ensures
        entry_keys(s.push(e)).no_duplicates(),
        entries_map(s.push(e)) == entries_map(s).insert(e.key@, e.reasoning@),
{
    let t = s.push(e);
    let kt = entry_keys(t);
    let ks = entry_keys(s);
    assert(kt =~= ks.push(e.key@));
    assert(kt.no_duplicates()) by {
        assert forall|a: int, b: int| 0 <= a < kt.len() && 0 <= b < kt.len() && a != b implies kt[a] != kt[b] by {
            if a == s.len() {
                assert(ks[b] == kt[b]);
            } else if b == s.len() {
                assert(ks[a] == kt[a]);
            }
        }
    }
    assert forall|k: Seq<char>| #![auto] kt.contains(k) implies entries_map(t)[k] == entries_map(s).insert(e.key@, e.reasoning@)[k] by {
        let a = choose|a: int| 0 <= a < kt.len() && kt[a] == k;
        lemma_index_of(kt, k, a);
        if k == e.key@ {
            assert(a == s.len()) by {
                if a < s.len() {
                    assert(ks[a] == k);
                }
            }
        } else {
            assert(a < s.len());
            assert(ks[a] == k);
            lemma_index_of(ks, k, a);
        }
    }
    assert forall|k: Seq<char>| kt.contains(k) <==> (ks.contains(k) || k == e.key@) by {
        if kt.contains(k) {
            let a = choose|a: int| 0 <= a < kt.len() && kt[a] == k;
            if a < s.len() {
                assert(ks[a] == k);
            }
        }
        if ks.contains(k) {
            let a = choose|a: int| 0 <= a < ks.len() && ks[a] == k;
            assert(kt[a] == k);
        }
        if k == e.key@ {
            assert(kt[s.len() as int] == k);
        }
    }
    assert(entries_map(t) =~= entries_map(s).insert(e.key@, e.reasoning@));
}

proof fn lemma_entries_remove(s: Seq<CacheEntry>, i: int)
    requires
        entry_keys(s).no_duplicates(),
        0 <= i < s.len(),
    ensures
        entry_keys(s.remove(i)).no_duplicates(),
        !entry_keys(s.remove(i)).contains(s[i].key@),
        entries_map(s.remove(i)) == entries_map(s).remove(s[i].key@),
{
    let t = s.remove(i);
    let kt = entry_keys(t);
    let ks = entry_keys(s);
    assert(kt =~= ks.remove(i));
    assert(kt.no_duplicates()) by {
        assert forall|a: int, b: int| 0 <= a < kt.len() && 0 <= b < kt.len() && a != b implies kt[a] != kt[b] by {
            let a2 = if a < i { a } else { a + 1 };
            let b2 = if b < i { b } else { b + 1 };
            assert(kt[a] == ks[a2] && kt[b] == ks[b2]);
        }
    }
    assert forall|k: Seq<char>| kt.contains(k) <==> (ks.contains(k) && k != s[i].key@) by {
        if kt.contains(k) {
            let a = choose|a: int| 0 <= a < kt.len() && kt[a] == k;
            if a < i {
                assert(ks[a] == k);
            } else {
                assert(ks[a + 1] == k);
            }
            assert(k != ks[i]);
        }
        if ks.contains(k) && k != s[i].key@ {
            let b = choose|b: int| 0 <= b < ks.len() && ks[b] == k;
            if b < i {
                assert(kt[b] == k);
            } else {
                assert(b != i);
                assert(kt[b - 1] == k);
            }
        }
    }
    assert forall|k: Seq<char>| #![auto] kt.contains(k) implies entries_map(t)[k] == entries_map(s)[k] by {
        let a = choose|a: int| 0 <= a < kt.len() && kt[a] == k;
        lemma_index_of(kt, k, a);
        let a2 = if a < i { a } else { a + 1 };
        assert(ks[a2] == k);
        lemma_index_of(ks, k, a2);
    }
    assert(entries_map(t) =~= entries_map(s).remove(s[i].key@));
}

proof fn lemma_entries_keep(s: Seq<CacheEntry>, t: Seq<CacheEntry>)
    requires
        entry_keys(s).no_duplicates(),
        forall|j: int| 0 <= j < t.len() ==> #[trigger] s.contains(t[j]),
        entry_keys(t).no_duplicates(),
    ensures
        sub_cache(entries_map(t), entries_map(s)),
{
    assert forall|k: Seq<char>| #[trigger] entries_map(t).contains_key(k) implies entries_map(s).contains_key(k) && entries_map(t)[k] == entries_map(s)[k] by {
        let kt = entry_keys(t);
        let ks = entry_keys(s);
        let a = choose|a: int| 0 <= a < kt.len() && kt[a] == k;
        lemma_index_of(kt, k, a);
        assert(s.contains(t[a]));
        let b = choose|b: int| 0 <= b < s.len() && s[b] == t[a];
        assert(ks[b] == k);
        lemma_index_of(ks, k, b);
    }
}

proof fn lemma_entries_len(s: Seq<CacheEntry>)
    requires
        entry_keys(s).no_duplicates(),
    ensures
        entries_map(s).len() == s.len(),
{
    let ks = entry_keys(s);
    ks.unique_seq_to_set();
    assert(entries_map(s).dom() =~= ks.to_set());
}

/// `SystemTime::now()`, in milliseconds since the Unix epoch; the clock's
/// reading, of which nothing is stated.
#[verifier::external_body]
fn unix_time_millis() -> u64 {
    std::time::SystemTime::now().duration_since(std::time::UNIX_EPOCH).map(|d| d.as_millis() as u64).unwrap_or(0)
}

/// A limit is in force when it is set and not zero.
pub open spec fn limit_set_u64(limit: Option<u64>) -> bool {
    limit matches Some(n) && n > 0
}

/// A limit is in force when it is set and not zero.
pub open spec fn limit_set_usize(limit: Option<usize>) -> bool {
    limit matches Some(n) && n > 0
}

fn find_entry(entries: &Vec<CacheEntry>, key: &str) -> (r: Option<usize>)
    requires
        entry_keys(entries@).no_duplicates(),
    ensures
        match r {
            Some(i) => i < entries.len() && entries@[i as int].key@ == key@,
            None => !entry_keys(entries@).contains(key@),
        },
{
    let mut i: usize = 0;
    while i < entries.len()
        invariant
            i <= entries.len(),
            forall|j: int| 0 <= j < i ==> entries@[j].key@ != key@,
        decreases entries.len() - i,
    {
        if str_eq(entries[i].key.as_str(), key) {
            return Some(i);
        }
        i = i + 1;
    }
    assert(!entry_keys(entries@).contains(key@)) by {
        if entry_keys(entries@).contains(key@) {
            let j = choose|j: int| 0 <= j < entries.len() && entry_keys(entries@)[j] == key@;
            assert(entries@[j].key@ == key@);
        }
    }
    None
}

/// The entries left after dropping those older than the age limit, then the
/// oldest beyond the count limit; and how many were dropped.
fn pruned(entries: Vec<CacheEntry>, max_age_seconds: Option<u64>, max_rows: Option<usize>, now_ms: u64) -> (r: (Vec<CacheEntry>, usize))
    requires
        entry_keys(entries@).no_duplicates(),
    ensures
        entry_keys(r.0@).no_duplicates(),
        sub_cache(entries_map(r.0@), entries_map(entries@)),
        !limit_set_u64(max_age_seconds) && !limit_set_usize(max_rows) ==> r.0@ == entries@ && r.1 == 0,
        entries@.len() > 0 && entries@.last().created_at_ms >= now_ms ==> r.0@.len() > 0 && r.0@.last() == entries@.last(),
        r.0@.len() <= entries@.len(),
        r.1 == entries@.len() - r.0@.len(),
        limit_set_usize(max_rows) ==> r.0@.len() <= max_rows.unwrap(),
{
    let ghost s = entries@;
    let original_len = entries.len();
    let mut current = entries;
    if let Some(max_age) = max_age_seconds {
        if max_age > 0 {
            let age_ms: u64 = if max_age > u64::MAX / 1000 {
                u64::MAX
            } else {
                max_age * 1000
            };
            let cutoff: u64 = if now_ms > age_ms {
                now_ms - age_ms
            } else {
                0
            };
            let ghost c = current@;
            let mut kept: Vec<CacheEntry> = Vec::new();
            let mut i: usize = 0;
            while i < current.len()
                invariant
                    i <= current.len(),
                    c == current@,
                    c == s,
                    cutoff <= now_ms,
                    entry_keys(c).no_duplicates(),
                    entry_keys(kept@).no_duplicates(),
                    kept@.len() <= i,
                    forall|a: int| 0 <= a < kept@.len() ==> exists|j: int| 0 <= j < i && #[trigger] kept@[a] == c[j],
                    i > 0 && c[i - 1].created_at_ms >= cutoff ==> kept@.len() > 0 && kept@.last() == c[i - 1],
                decreases current.len() - i,
            {
                if current[i].created_at_ms >= cutoff {
                    let e = current[i].duplicate();
                    proof {
                        assert(!entry_keys(kept@).contains(c[i as int].key@)) by {
                            if entry_keys(kept@).contains(c[i as int].key@) {
                                let a = choose|a: int| 0 <= a < kept@.len() && entry_keys(kept@)[a] == c[i as int].key@;
                                let j = choose|j: int| 0 <= j < i && #[trigger] kept@[a] == c[j];
                                assert(entry_keys(c)[j] == entry_keys(c)[i as int]);
                            }
                        }
                        lemma_entries_push(kept@, c[i as int]);
                    }
                    kept.push(e);
                    proof {
                        assert forall|a: int| 0 <= a < kept@.len() implies exists|j: int| 0 <= j < i + 1 && #[trigger] kept@[a] == c[j] by {
                            if a < kept@.len() - 1 {
                                let j = choose|j: int| 0 <= j < i && #[trigger] kept@[a] == c[j];
                                assert(kept@[a] == c[j]);
                            } else {
                                assert(kept@[a] == c[i as int]);
                            }
                        }
                    }
                } else {
                    proof {
                        assert forall|a: int| 0 <= a < kept@.len() implies exists|j: int| 0 <= j < i + 1 && #[trigger] kept@[a] == c[j] by {
                            let j = choose|j: int| 0 <= j < i && #[trigger] kept@[a] == c[j];
                            assert(kept@[a] == c[j]);
                        }
                    }
                }
                i = i + 1;
            }
            proof {
                assert forall|j: int| 0 <= j < kept@.len() implies #[trigger] c.contains(kept@[j]) by {
                    let w = choose|w: int| 0 <= w < c.len() && #[trigger] kept@[j] == c[w];
                }
                lemma_entries_keep(c, kept@);
            }
            current = kept;
        }
    }
    let ghost after_age = current@;
    assert(sub_cache(entries_map(after_age), entries_map(s))) by {
        if after_age == s {
            assert forall|k: Seq<char>| entries_map(after_age).contains_key(k) implies entries_map(s).contains_key(k) && entries_map(after_age)[k] == entries_map(s)[k] by {}
        }
    }
    if let Some(max) = max_rows {
        if max > 0 && current.len() > max {
            let start = current.len() - max;
            let ghost c = current@;
            let mut kept: Vec<CacheEntry> = Vec::new();
            let mut i = start;
            while i < current.len()
                invariant
                    start <= i <= current.len(),
                    c == current@,
                    kept@ == c.subrange(start as int, i as int),
                decreases current.len() - i,
            {
                kept.push(current[i].duplicate());
                i = i + 1;
                assert(kept@ =~= c.subrange(start as int, i as int));
            }
            proof {
                let sub = c.subrange(start as int, c.len() as int);
                assert(entry_keys(sub) =~= entry_keys(c).subrange(start as int, c.len() as int));
                assert(entry_keys(sub).no_duplicates()) by {
                    assert forall|a: int, b: int| 0 <= a < sub.len() && 0 <= b < sub.len() && a != b implies entry_keys(sub)[a] != entry_keys(sub)[b] by {
                        assert(entry_keys(sub)[a] == entry_keys(c)[a + start]);
                        assert(entry_keys(sub)[b] == entry_keys(c)[b + start]);
                    }
                }
                assert forall|j: int| 0 <= j < sub.len() implies #[trigger] c.contains(sub[j]) by {
                    assert(c[j + start] == sub[j]);
                }
                lemma_entries_keep(c, sub);
                assert(sub.last() == c.last());
            }
            current = kept;
        }
    }
    proof {
        if current@ != after_age {
            lemma_submap_trans(entries_map(current@), entries_map(after_age), entries_map(s));
        }
    }
    let dropped = original_len - current.len();
    (current, dropped)
}

/// A reasoning store held in memory, newest entries last, that drops entries
/// older than a maximum age and beyond a maximum count when those are set.
pub struct MemoryReasoningStore {
    entries: Vec<CacheEntry>,
    max_age_seconds: Option<u64>,
    max_rows: Option<usize>,
}

impl MemoryReasoningStore {
    /// The most entries the store keeps, when that limit is set and not zero.
    pub closed spec fn row_limit(&self) -> Option<usize> {
        self.max_rows
    }

    /// No key is held twice.
    #[verifier::type_invariant]
    spec fn keys_distinct(&self) -> bool {
        entry_keys(self.entries@).no_duplicates()
    }

    /// An empty store with the given limits.
    pub fn new(max_age_seconds: Option<u64>, max_rows: Option<usize>) -> (r: MemoryReasoningStore)
        ensures
            r.cached() == Map::<Seq<char>, Seq<char>>::empty(),
            r.keeps_all() == (!limit_set_u64(max_age_seconds) && !limit_set_usize(max_rows)),
            r.infallible(),
            r.row_limit() == max_rows,
    {
        let r = MemoryReasoningStore { entries: Vec::new(), max_age_seconds, max_rows };
        assert(entries_map(r.entries@) =~= Map::<Seq<char>, Seq<char>>::empty());
        r
    }
}

impl ReasoningStore for MemoryReasoningStore {
    closed spec fn cached(&self) -> Map<Seq<char>, Seq<char>> {
        entries_map(self.entries@)
    }

    closed spec fn keeps_all(&self) -> bool {
        !limit_set_u64(self.max_age_seconds) && !limit_set_usize(self.max_rows)
    }

    closed spec fn infallible(&self) -> bool {
        true
    }

    closed spec fn tracks_cache(&self) -> bool {
        true
    }

    fn get(&self, key: &str) -> (r: Result<Option<String>, AppError>) {
        proof {
            use_type_invariant(self);
        }
        match find_entry(&self.entries, key) {
            Some(i) => {
                proof {
                    assert(entry_keys(self.entries@)[i as int] == key@);
                    lemma_index_of(entry_keys(self.entries@), key@, i as int);
                }
                Ok(Some(self.entries[i].reasoning.clone()))
            },
            None => Ok(None),
        }
    }

    fn put(&mut self, key: &str, reasoning: &str, message: &Message) -> (r: Result<(), AppError>)
        ensures
            final(self).row_limit() == old(self).row_limit(),
            limit_set_usize(old(self).row_limit()) ==> final(self).cached().len() <= old(self).row_limit().unwrap(),
    {
        proof {
            use_type_invariant(&*self);
        }
        let now = unix_time_millis();
        let mut entries: Vec<CacheEntry> = Vec::new();
        std::mem::swap(&mut entries, &mut self.entries);
        let ghost s = entries@;
        if let Some(i) = find_entry(&entries, key) {
            proof {
                lemma_entries_remove(entries@, i as int);
            }
            let _ = entries.remove(i);
        }
        let ghost without = entries@;
        assert(entries_map(without) == entries_map(s).remove(key@)) by {
            if !entry_keys(s).contains(key@) {
                assert(entries_map(s).remove(key@) =~= entries_map(s));
            }
        }
        let message_json = encode_text(&message.to_json());
        let e = CacheEntry {
            key: crate::text::owned(key),
            reasoning: crate::text::owned(reasoning),
            message_json,
            created_at_ms: now,
        };
        proof {
            lemma_entries_push(entries@, e);
        }
        entries.push(e);
        let ghost pushed = entries@;
        let (kept, _) = pruned(entries, self.max_age_seconds, self.max_rows, now);
        proof {
            assert(pushed.last().created_at_ms >= now);
            assert(kept@.len() > 0);
            assert(entry_keys(kept@)[kept@.len() - 1] == key@);
            lemma_index_of(entry_keys(kept@), key@, kept@.len() - 1);
            assert(entries_map(pushed) =~= entries_map(s).insert(key@, reasoning@)) by {
                assert(entries_map(s).remove(key@).insert(key@, reasoning@) =~= entries_map(s).insert(key@, reasoning@));
            }
            assert forall|k: Seq<char>| k != key@ && #[trigger] entries_map(kept@).contains_key(k) implies entries_map(s).contains_key(k) && entries_map(kept@)[k] == entries_map(s)[k] by {
                assert(entries_map(pushed).contains_key(k));
            }
            if !limit_set_u64(self.max_age_seconds) && !limit_set_usize(self.max_rows) {
                assert(kept@ == pushed);
            }
            lemma_entries_len(kept@);
        }
        self.entries = kept;
        Ok(())
    }

    fn prune(&mut self) -> (r: Result<usize, AppError>)
        ensures
            final(self).row_limit() == old(self).row_limit(),
            limit_set_usize(old(self).row_limit()) ==> final(self).cached().len() <= old(self).row_limit().unwrap(),
    {
        proof {
            use_type_invariant(&*self);
        }
        let now = unix_time_millis();
        let mut entries: Vec<CacheEntry> = Vec::new();
        std::mem::swap(&mut entries, &mut self.entries);
        let (kept, dropped) = pruned(entries, self.max_age_seconds, self.max_rows, now);
        proof {
            lemma_entries_len(kept@);
        }
        self.entries = kept;
        Ok(dropped)
    }

    fn clear(&mut self) -> (r: Result<usize, AppError>) {
        proof {
            use_type_invariant(&*self);
            lemma_entries_len(self.entries@);
        }
        let count = self.entries.len();
        self.entries = Vec::new();
        assert(entries_map(self.entries@) =~= Map::<Seq<char>, Seq<char>>::empty());
        Ok(count)
    }
}

} // verus!
