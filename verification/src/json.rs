//! The JSON documents that pass through the proxy, as plain values, with the
//! operations on them that the protocol code uses.
use vstd::prelude::*;
use crate::text::{owned, str_eq};

verus! {

/// A JSON document as a mathematical value. Numbers are kept as their text,
/// object members as a sequence: a document read through `parse_json` has
/// them sorted by key (serde_json's map, without `preserve_order`, keeps its
/// keys sorted), and members added later go where the operations below put
/// them; `encode_text` and `encode_bytes` write them sorted by key again.
pub enum Json {
    Null,
    Bool(bool),
    Number(Seq<char>),
    Str(Seq<char>),
    Array(Seq<Json>),
    Object(Seq<(Seq<char>, Json)>),
}

/// The members of a JSON object, as a sequence (see `Json`).
pub type JsonMap = Vec<(String, JsonValue)>;

/// A JSON document held in memory.
#[derive(Debug, PartialEq)]
pub enum JsonValue {
    Null,
    Bool(bool),
    Number(String),
    Str(String),
    Array(Vec<JsonValue>),
    Object(JsonMap),
}

/// The documents of an array.
pub open spec fn items_view(items: Seq<JsonValue>) -> Seq<Json>
    decreases items,
{
    Seq::new(
        items.len(),
        |i: int|
            if 0 <= i < items.len() {
                items[i].view()
            } else {
                Json::Null
            },
    )
}

/// The members of an object.
pub open spec fn members_view(members: Seq<(String, JsonValue)>) -> Seq<(Seq<char>, Json)>
    decreases members,
{
    Seq::new(
        members.len(),
        |i: int|
            if 0 <= i < members.len() {
                (members[i].0@, members[i].1.view())
            } else {
                (Seq::empty(), Json::Null)
            },
    )
}

impl View for JsonValue {
    type V = Json;

    open spec fn view(&self) -> Json
        decreases self,
    {
        match self {
            JsonValue::Null => Json::Null,
            JsonValue::Bool(b) => Json::Bool(*b),
            JsonValue::Number(n) => Json::Number(n@),
            JsonValue::Str(s) => Json::Str(s@),
            JsonValue::Array(items) => Json::Array(items_view(items@)),
            JsonValue::Object(members) => Json::Object(members_view(members@)),
        }
    }
}

/// The value of the first member named `k`.
pub open spec fn obj_get(m: Seq<(Seq<char>, Json)>, k: Seq<char>) -> Option<Json>
    decreases m.len(),
{
    if m.len() == 0 {
        None
    } else if m[0].0 == k {
        Some(m[0].1)
    } else {
        obj_get(m.drop_first(), k)
    }
}

/// The members with the first member named `k` given the value `v`, or with
/// `(k, v)` added at the end when no member is named `k`.
pub open spec fn obj_set(m: Seq<(Seq<char>, Json)>, k: Seq<char>, v: Json) -> Seq<(Seq<char>, Json)>
    decreases m.len(),
{
    if m.len() == 0 {
        seq![(k, v)]
    } else if m[0].0 == k {
        m.update(0, (k, v))
    } else {
        seq![m[0]] + obj_set(m.drop_first(), k, v)
    }
}

/// The members without the first member named `k`.
pub open spec fn obj_remove(m: Seq<(Seq<char>, Json)>, k: Seq<char>) -> Seq<(Seq<char>, Json)>
    decreases m.len(),
{
    if m.len() == 0 {
        m
    } else if m[0].0 == k {
        m.drop_first()
    } else {
        seq![m[0]] + obj_remove(m.drop_first(), k)
    }
}

/// Where the first member named `k` stands.
pub proof fn lemma_obj_first(m: Seq<(Seq<char>, Json)>, k: Seq<char>, i: int, v: Json)
    requires
        0 <= i < m.len(),
        m[i].0 == k,
        forall|j: int| 0 <= j < i ==> m[j].0 != k,
    ensures
        obj_get(m, k) == Some(m[i].1),
        obj_set(m, k, v) == m.update(i, (k, v)),
        obj_remove(m, k) == m.remove(i),
    decreases i,
{
    if i > 0 {
        let t = m.drop_first();
        assert forall|j: int| 0 <= j < i - 1 implies t[j].0 != k by {
            assert(m[j + 1].0 != k);
        }
        lemma_obj_first(t, k, i - 1, v);
        assert(obj_set(m, k, v) =~= m.update(i, (k, v)));
        assert(obj_remove(m, k) =~= m.remove(i));
    } else {
        assert(obj_remove(m, k) =~= m.remove(i));
    }
}

/// The member just set is what a lookup finds.
pub proof fn lemma_obj_set_get(m: Seq<(Seq<char>, Json)>, k: Seq<char>, v: Json)
    ensures
        obj_get(obj_set(m, k, v), k) == Some(v),
    decreases m.len(),
{
    if m.len() > 0 && m[0].0 != k {
        lemma_obj_set_get(m.drop_first(), k, v);
        let r = obj_set(m, k, v);
        assert(r.drop_first() =~= obj_set(m.drop_first(), k, v));
    }
}

/// What the object operations do when no member is named `k`.
pub proof fn lemma_obj_absent(m: Seq<(Seq<char>, Json)>, k: Seq<char>, v: Json)
    requires
        forall|j: int| 0 <= j < m.len() ==> m[j].0 != k,
    ensures
        obj_get(m, k) is None,
        obj_set(m, k, v) == m.push((k, v)),
        obj_remove(m, k) == m,
    decreases m.len(),
{
    if m.len() > 0 {
        let t = m.drop_first();
        assert forall|j: int| 0 <= j < t.len() implies t[j].0 != k by {
            assert(m[j + 1].0 != k);
        }
        lemma_obj_absent(t, k, v);
        assert(obj_set(m, k, v) =~= m.push((k, v)));
        assert(obj_remove(m, k) =~= m);
    } else {
        assert(obj_set(m, k, v) =~= m.push((k, v)));
    }
}

impl Json {
    /// The member named `k` of an object; nothing for any other document.
    pub open spec fn get(self, k: Seq<char>) -> Option<Json> {
        match self {
            Json::Object(m) => obj_get(m, k),
            _ => None,
        }
    }

    /// The text of a string document.
    pub open spec fn as_str(self) -> Option<Seq<char>> {
        match self {
            Json::Str(s) => Some(s),
            _ => None,
        }
    }

    /// The value of a boolean document.
    pub open spec fn as_bool(self) -> Option<bool> {
        match self {
            Json::Bool(b) => Some(b),
            _ => None,
        }
    }

    /// The elements of an array document.
    pub open spec fn as_array(self) -> Option<Seq<Json>> {
        match self {
            Json::Array(a) => Some(a),
            _ => None,
        }
    }

    /// The members of an object document.
    pub open spec fn as_object(self) -> Option<Seq<(Seq<char>, Json)>> {
        match self {
            Json::Object(m) => Some(m),
            _ => None,
        }
    }
}

/// The text of an optional member, when it is a string.
pub open spec fn opt_str(v: Option<Json>) -> Option<Seq<char>> {
    match v {
        Some(j) => j.as_str(),
        None => None,
    }
}

/// The value of an optional member, when it is a boolean.
pub open spec fn opt_bool(v: Option<Json>) -> Option<bool> {
    match v {
        Some(j) => j.as_bool(),
        None => None,
    }
}

/// The elements of an optional member, when it is an array.
pub open spec fn opt_array(v: Option<Json>) -> Option<Seq<Json>> {
    match v {
        Some(j) => j.as_array(),
        None => None,
    }
}

/// The members of an optional member, when it is an object.
pub open spec fn opt_object(v: Option<Json>) -> Option<Seq<(Seq<char>, Json)>> {
    match v {
        Some(j) => j.as_object(),
        None => None,
    }
}

/// The view of an optional borrowed document.
pub open spec fn opt_view(v: Option<&JsonValue>) -> Option<Json> {
    match v {
        Some(j) => Some(j@),
        None => None,
    }
}

/// The view of an optional document.
pub open spec fn opt_json(v: Option<JsonValue>) -> Option<Json> {
    match v {
        Some(j) => Some(j@),
        None => None,
    }
}

/// The view of an optional string.
pub open spec fn opt_text(v: Option<String>) -> Option<Seq<char>> {
    match v {
        Some(s) => Some(s@),
        None => None,
    }
}

/// Where the first member named `key` stands.
pub fn find_member(m: &JsonMap, key: &str) -> (r: Option<usize>)
    ensures
        match r {
            Some(i) => i < m.len() && m@[i as int].0@ == key@ && forall|j: int|
                0 <= j < i ==> m@[j].0@ != key@,
            None => forall|j: int| 0 <= j < m.len() ==> m@[j].0@ != key@,
        },
{
    let mut i: usize = 0;
    while i < m.len()
        invariant
            i <= m.len(),
            forall|j: int| 0 <= j < i ==> m@[j].0@ != key@,
        decreases m.len() - i,
    {
        if str_eq(m[i].0.as_str(), key) {
            return Some(i);
        }
        i = i + 1;
    }
    None
}

/// The value of the first member named `key`.
pub fn map_get<'a>(m: &'a JsonMap, key: &str) -> (r: Option<&'a JsonValue>)
    ensures
        opt_view(r) == obj_get(members_view(m@), key@),
{
    match find_member(m, key) {
        Some(i) => {
            proof {
                lemma_obj_first(members_view(m@), key@, i as int, Json::Null);
            }
            Some(&m[i].1)
        },
        None => {
            proof {
                lemma_obj_absent(members_view(m@), key@, Json::Null);
            }
            None
        },
    }
}

/// Whether a member is named `key`.
pub fn map_contains(m: &JsonMap, key: &str) -> (r: bool)
    ensures
        r == (obj_get(members_view(m@), key@) is Some),
{
    map_get(m, key).is_some()
}

/// Gives the first member named `key` the value `value`, or adds the member.
pub fn map_insert(m: &mut JsonMap, key: String, value: JsonValue)
    ensures
        members_view(final(m)@) == obj_set(members_view(old(m)@), key@, value@),
{
    let ghost kv = key@;
    let ghost vv = value@;
    match find_member(m, key.as_str()) {
        Some(i) => {
            proof {
                lemma_obj_first(members_view(m@), kv, i as int, vv);
            }
            m.set(i, (key, value));
            assert(members_view(m@) =~= members_view(old(m)@).update(i as int, (kv, vv)));
        },
        None => {
            proof {
                lemma_obj_absent(members_view(m@), kv, vv);
            }
            m.push((key, value));
            assert(members_view(m@) =~= members_view(old(m)@).push((kv, vv)));
        },
    }
}

/// Removes the first member named `key`, giving back its value.
pub fn map_remove(m: &mut JsonMap, key: &str) -> (r: Option<JsonValue>)
    ensures
        members_view(final(m)@) == obj_remove(members_view(old(m)@), key@),
        opt_json(r) == obj_get(members_view(old(m)@), key@),
{
    match find_member(m, key) {
        Some(i) => {
            proof {
                lemma_obj_first(members_view(m@), key@, i as int, Json::Null);
            }
            let (_, v) = m.remove(i);
            assert(members_view(m@) =~= members_view(old(m)@).remove(i as int));
            Some(v)
        },
        None => {
            proof {
                lemma_obj_absent(members_view(m@), key@, Json::Null);
            }
            None
        },
    }
}

impl JsonValue {
    /// A string document.
    pub fn string(s: &str) -> (r: JsonValue)
        ensures
            r@ == Json::Str(s@),
    {
        JsonValue::Str(owned(s))
    }

    /// The member named `key` of an object; nothing for any other document.
    pub fn get(&self, key: &str) -> (r: Option<&JsonValue>)
        ensures
            opt_view(r) == self@.get(key@),
    {
        match self {
            JsonValue::Object(m) => map_get(m, key),
            _ => None,
        }
    }

    /// The text of a string document.
    pub fn as_str(&self) -> (r: Option<&str>)
        ensures
            match r {
                Some(s) => self@.as_str() == Some(s@),
                None => self@.as_str() is None,
            },
    {
        match self {
            JsonValue::Str(s) => Some(s.as_str()),
            _ => None,
        }
    }

    /// The value of a boolean document.
    pub fn as_bool(&self) -> (r: Option<bool>)
        ensures
            r == self@.as_bool(),
    {
        match self {
            JsonValue::Bool(b) => Some(*b),
            _ => None,
        }
    }

    /// The elements of an array document.
    pub fn as_array(&self) -> (r: Option<&Vec<JsonValue>>)
        ensures
            match r {
                Some(a) => self@.as_array() == Some(items_view(a@)),
                None => self@.as_array() is None,
            },
    {
        match self {
            JsonValue::Array(a) => Some(a),
            _ => None,
        }
    }

    /// The members of an object document.
    pub fn as_object(&self) -> (r: Option<&JsonMap>)
        ensures
            match r {
                Some(m) => self@.as_object() == Some(members_view(m@)),
                None => self@.as_object() is None,
            },
    {
        match self {
            JsonValue::Object(m) => Some(m),
            _ => None,
        }
    }

    /// A copy of the document.
    #[verifier::loop_isolation(false)]
    pub fn deep_clone(&self) -> (r: JsonValue)
        ensures
            r@ == self@,
        decreases self,
    {
        match self {
            JsonValue::Null => JsonValue::Null,
            JsonValue::Bool(b) => JsonValue::Bool(*b),
            JsonValue::Number(n) => JsonValue::Number(n.clone()),
            JsonValue::Str(s) => JsonValue::Str(s.clone()),
            JsonValue::Array(items) => {
                let mut out: Vec<JsonValue> = Vec::new();
                let mut i: usize = 0;
                while i < items.len()
                    invariant
                        i <= items.len(),
                        out@.len() == i,
                        forall|j: int| 0 <= j < i ==> out@[j]@ == items@[j]@,
                    decreases items.len() - i,
                {
                    assert(decreases_to!(items@ => items@[i as int]));
                    assert(decreases_to!(*items => items@));
                    out.push(items[i].deep_clone());
                    i = i + 1;
                }
                assert(items_view(out@) =~= items_view(items@));
                JsonValue::Array(out)
            },
            JsonValue::Object(members) => {
                let mut out: JsonMap = Vec::new();
                let mut i: usize = 0;
                while i < members.len()
                    invariant
                        i <= members.len(),
                        out@.len() == i,
                        forall|j: int|
                            0 <= j < i ==> out@[j].0@ == members@[j].0@ && out@[j].1@
                                == members@[j].1@,
                    decreases members.len() - i,
                {
                    assert(decreases_to!(members@ => members@[i as int]));
                    assert(decreases_to!(members@[i as int] => members@[i as int].1));
                    assert(decreases_to!(*members => members@));
                    let v = members[i].1.deep_clone();
                    out.push((members[i].0.clone(), v));
                    i = i + 1;
                }
                assert(members_view(out@) =~= members_view(members@));
                JsonValue::Object(out)
            },
        }
    }
}

/// A copy of an object's members.
pub fn clone_map(m: &JsonMap) -> (r: JsonMap)
    ensures
        members_view(r@) == members_view(m@),
{
    let mut out: JsonMap = Vec::new();
    let mut i: usize = 0;
    while i < m.len()
        invariant
            i <= m.len(),
            out@.len() == i,
            forall|j: int| 0 <= j < i ==> out@[j].0@ == m@[j].0@ && out@[j].1@ == m@[j].1@,
        decreases m.len() - i,
    {
        out.push((m[i].0.clone(), m[i].1.deep_clone()));
        i = i + 1;
    }
    assert(members_view(out@) =~= members_view(m@));
    out
}

/// A copy of an array's elements.
pub fn clone_items(items: &Vec<JsonValue>) -> (r: Vec<JsonValue>)
    ensures
        items_view(r@) == items_view(items@),
{
    let mut out: Vec<JsonValue> = Vec::new();
    let mut i: usize = 0;
    while i < items.len()
        invariant
            i <= items.len(),
            out@.len() == i,
            forall|j: int| 0 <= j < i ==> out@[j]@ == items@[j]@,
        decreases items.len() - i,
    {
        out.push(items[i].deep_clone());
        i = i + 1;
    }
    assert(items_view(out@) =~= items_view(items@));
    out
}

/// What `serde_json::from_slice::<serde_json::Value>` gives for the bytes: the
/// document, or the text of its error.
pub uninterp spec fn json_parse(bytes: Seq<u8>) -> Result<Json, Seq<char>>;

/// The compact text that `serde_json::to_string` writes for a document.
pub uninterp spec fn json_text(value: Json) -> Seq<char>;

/// The compact bytes that `serde_json::to_vec` writes for a document.
pub uninterp spec fn json_bytes(value: Json) -> Seq<u8>;

/// Reads a document through `serde_json::from_slice`; the result is the
/// document or the error's text that the call gives for these bytes.
#[verifier::external_body]
pub(crate) fn parse_json(bytes: &[u8]) -> (r: Result<JsonValue, String>)
    ensures
        match r {
            Ok(v) => json_parse(bytes@) == Ok::<Json, Seq<char>>(v@),
            Err(e) => json_parse(bytes@) == Err::<Json, Seq<char>>(e@),
        },
{
    match serde_json::from_slice::<serde_json::Value>(bytes) {
        Ok(v) => Ok(from_serde(&v)),
        Err(e) => Err(e.to_string()),
    }
}

/// Writes a document through `serde_json::to_string`; the text is the one
/// that the call gives for the document.
#[verifier::external_body]
pub(crate) fn encode_text(v: &JsonValue) -> (r: String)
    ensures
        r@ == json_text(v@),
{
    serde_json::to_string(&to_serde(v)).unwrap_or_default()
}

/// Writes a document through `serde_json::to_vec`; the bytes are the ones
/// that the call gives for the document.
#[verifier::external_body]
pub(crate) fn encode_bytes(v: &JsonValue) -> (r: Vec<u8>)
    ensures
        r@ == json_bytes(v@),
{
    serde_json::to_vec(&to_serde(v)).unwrap_or_default()
}

/// `serde_json::Value`, which the conversions below take and give; Verus sees
/// nothing inside it.
#[verifier::external_type_specification]
#[verifier::external_body]
pub struct ExSerdeJsonValue(serde_json::Value);

/// Converts a `serde_json::Value` into a document, variant for variant; a
/// number keeps the text that `serde_json::Number`'s `Display` gives it.
#[verifier::external_body]
fn from_serde(v: &serde_json::Value) -> JsonValue {
    match v {
        serde_json::Value::Null => JsonValue::Null,
        serde_json::Value::Bool(b) => JsonValue::Bool(*b),
        serde_json::Value::Number(n) => JsonValue::Number(n.to_string()),
        serde_json::Value::String(s) => JsonValue::Str(s.clone()),
        serde_json::Value::Array(a) => JsonValue::Array(a.iter().map(from_serde).collect()),
        serde_json::Value::Object(m) => JsonValue::Object(
            m.iter().map(|(k, x)| (k.clone(), from_serde(x))).collect(),
        ),
    }
}

/// Converts a document into a `serde_json::Value`, variant for variant; a
/// number's text is read back through `serde_json::Number`'s `FromStr`.
#[verifier::external_body]
fn to_serde(v: &JsonValue) -> serde_json::Value {
    match v {
        JsonValue::Null => serde_json::Value::Null,
        JsonValue::Bool(b) => serde_json::Value::Bool(*b),
        JsonValue::Number(n) => n.parse().map(serde_json::Value::Number).unwrap_or_default(),
        JsonValue::Str(s) => serde_json::Value::String(s.clone()),
        JsonValue::Array(a) => serde_json::Value::Array(a.iter().map(to_serde).collect()),
        JsonValue::Object(m) => serde_json::Value::Object(
            m.iter().map(|(k, x)| (k.clone(), to_serde(x))).collect(),
        ),
    }
}

} // verus!
