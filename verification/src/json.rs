//! JSON values as the CSDL JSON format uses them: numbers kept as the
//! integer or the float text they were read or written as, and objects as
//! their members in insertion order, a key occurring at most once.

use vstd::prelude::*;

use crate::text::str_eq;

verus! {

/// A JSON number: a non-negative integer, a negative integer, or a float by
/// its text.
#[derive(Debug, Clone, PartialEq)]
pub enum JsonNumber {
    PosInt(u64),
    NegInt(i64),
    Float(String),
}

#[derive(Debug, PartialEq)]
pub enum JsonValue {
    Null,
    Bool(bool),
    Number(JsonNumber),
    String(String),
    Array(Vec<JsonValue>),
    /// Members in insertion order.
    Object(Vec<(String, JsonValue)>),
}

pub enum NumberView {
    PosInt(u64),
    NegInt(i64),
    Float(Seq<char>),
}

/// A [`JsonValue`] as a mathematical value.
pub enum JsonView {
    Null,
    Bool(bool),
    Number(NumberView),
    String(Seq<char>),
    Array(Seq<JsonView>),
    Object(Seq<(Seq<char>, JsonView)>),
}

pub open spec fn number_view(n: JsonNumber) -> NumberView {
    match n {
        JsonNumber::PosInt(u) => NumberView::PosInt(u),
        JsonNumber::NegInt(i) => NumberView::NegInt(i),
        JsonNumber::Float(t) => NumberView::Float(t@),
    }
}

pub open spec fn json_view(v: JsonValue) -> JsonView
    decreases v,
{
    match v {
        JsonValue::Null => JsonView::Null,
        JsonValue::Bool(b) => JsonView::Bool(b),
        JsonValue::Number(n) => JsonView::Number(number_view(n)),
        JsonValue::String(s) => JsonView::String(s@),
        JsonValue::Array(a) => JsonView::Array(json_views(a@)),
        JsonValue::Object(o) => JsonView::Object(member_views(o@)),
    }
}

pub open spec fn json_views(s: Seq<JsonValue>) -> Seq<JsonView>
    decreases s,
{
    if s.len() == 0 {
        Seq::empty()
    } else {
        json_views(s.subrange(0, s.len() - 1)).push(json_view(s[s.len() - 1]))
    }
}

pub open spec fn member_views(s: Seq<(String, JsonValue)>) -> Seq<(Seq<char>, JsonView)>
    decreases s,
{
    if s.len() == 0 {
        Seq::empty()
    } else {
        member_views(s.subrange(0, s.len() - 1)).push(
            (s[s.len() - 1].0@, json_view(s[s.len() - 1].1)),
        )
    }
}

impl View for JsonValue {
    type V = JsonView;

    open spec fn view(&self) -> JsonView {
        json_view(*self)
    }
}

// ---------------------------------------------------------------------------
// Objects
// ---------------------------------------------------------------------------

/// The position of the member with key `k`, if there is one.
pub open spec fn key_pos(m: Seq<(Seq<char>, JsonView)>, k: Seq<char>) -> Option<int>
    decreases m.len(),
{
    if m.len() == 0 {
        None
    } else if m[0].0 == k {
        Some(0)
    } else {
        match key_pos(m.drop_first(), k) {
            Some(i) => Some(i + 1),
            None => None,
        }
    }
}

/// `m` with `k` set to `v`: a member with key `k` keeps its place and takes
/// the new value; otherwise the member is appended.
pub open spec fn insert_member(m: Seq<(Seq<char>, JsonView)>, k: Seq<char>, v: JsonView) -> Seq<
    (Seq<char>, JsonView),
> {
    match key_pos(m, k) {
        Some(i) => m.update(i, (k, v)),
        None => m.push((k, v)),
    }
}

pub open spec fn has_key(m: Seq<(Seq<char>, JsonView)>, k: Seq<char>) -> bool {
    key_pos(m, k) is Some
}

pub proof fn lemma_key_pos(m: Seq<(Seq<char>, JsonView)>, k: Seq<char>)
    ensures
        match key_pos(m, k) {
            Some(i) => 0 <= i < m.len() && m[i].0 == k && forall|j: int| 0 <= j < i ==> m[j].0 != k,
            None => forall|j: int| 0 <= j < m.len() ==> m[j].0 != k,
        },
    decreases m.len(),
{
    if m.len() > 0 {
        lemma_key_pos(m.drop_first(), k);
        if m[0].0 != k {
            match key_pos(m.drop_first(), k) {
                Some(i) => {
                    assert forall|j: int| 0 <= j < i + 1 implies m[j].0 != k by {
                        if j > 0 {
                            assert(m[j] == m.drop_first()[j - 1]);
                        }
                    }
                },
                None => {
                    assert forall|j: int| 0 <= j < m.len() implies m[j].0 != k by {
                        if j > 0 {
                            assert(m[j] == m.drop_first()[j - 1]);
                        }
                    }
                },
            }
        }
    }
}

pub proof fn lemma_json_views(s: Seq<JsonValue>)
    ensures
        json_views(s).len() == s.len(),
        forall|i: int| 0 <= i < s.len() ==> #[trigger] json_views(s)[i] == json_view(s[i]),
    decreases s.len(),
{
    if s.len() > 0 {
        lemma_json_views(s.subrange(0, s.len() - 1));
        assert forall|i: int| 0 <= i < s.len() implies #[trigger] json_views(s)[i] == json_view(s[i]) by {
            if i < s.len() - 1 {
                assert(s.subrange(0, s.len() - 1)[i] == s[i]);
            }
        }
    }
}

pub proof fn lemma_member_views(s: Seq<(String, JsonValue)>)
    ensures
        member_views(s).len() == s.len(),
        forall|i: int| 0 <= i < s.len() ==> #[trigger] member_views(s)[i] == (s[i].0@, json_view(s[i].1)),
    decreases s.len(),
{
    if s.len() > 0 {
        lemma_member_views(s.subrange(0, s.len() - 1));
        assert forall|i: int| 0 <= i < s.len() implies #[trigger] member_views(s)[i] == (
            s[i].0@,
            json_view(s[i].1),
        ) by {
            if i < s.len() - 1 {
                assert(s.subrange(0, s.len() - 1)[i] == s[i]);
            }
        }
    }
}

/// Pushing a value pushes its view.
pub proof fn lemma_json_views_push(s: Seq<JsonValue>, x: JsonValue)
    ensures
        json_views(s.push(x)) == json_views(s).push(json_view(x)),
{
    assert(s.push(x).subrange(0, s.len() as int) =~= s);
}

/// Sets member `key` of an object to `value` (see [`insert_member`]).
pub fn obj_insert(obj: &mut Vec<(String, JsonValue)>, key: String, value: JsonValue)
    ensures
        member_views(final(obj)@) == insert_member(member_views(old(obj)@), key@, json_view(value)),
{
    let ghost m = member_views(obj@);
    proof {
        lemma_member_views(obj@);
        lemma_key_pos(m, key@);
    }
    let mut i: usize = 0;
    while i < obj.len()
        invariant
            i <= obj@.len(),
            m == member_views(obj@),
            m == member_views(old(obj)@),
            m.len() == obj@.len(),
            forall|j: int| 0 <= j < m.len() ==> #[trigger] m[j] == (obj@[j].0@, json_view(obj@[j].1)),
            forall|j: int| 0 <= j < i ==> m[j].0 != key@,
        decreases obj.len() - i,
    {
        if str_eq(obj[i].0.as_str(), key.as_str()) {
            proof {
                lemma_key_pos(m, key@);
                assert(m[i as int].0 == key@);
                match key_pos(m, key@) {
                    Some(p) => {
                        if p < i {
                            assert(m[p].0 != key@);
                        } else if p > i {
                            assert(m[i as int].0 != key@);
                        }
                    },
                    None => {
                        assert(m[i as int].0 != key@);
                    },
                }
                assert(key_pos(m, key@) == Some(i as int));
            }
            let ghost kv = key@;
            let ghost vv = json_view(value);
            let ghost old_obj = obj@;
            obj.set(i, (key, value));
            proof {
                lemma_member_views(obj@);
                assert(member_views(obj@) =~= m.update(i as int, (kv, vv)));
            }
            return;
        }
        i = i + 1;
    }
    let ghost kv = key@;
    let ghost vv = json_view(value);
    let ghost old_obj = obj@;
    obj.push((key, value));
    proof {
        lemma_member_views(obj@);
        assert(member_views(obj@) =~= m.push((kv, vv)));
    }
}

/// Whether an object has a member `key`.
pub fn obj_has(obj: &Vec<(String, JsonValue)>, key: &str) -> (r: bool)
    ensures
        r == has_key(member_views(obj@), key@),
{
    let ghost m = member_views(obj@);
    proof {
        lemma_member_views(obj@);
        lemma_key_pos(m, key@);
    }
    let mut i: usize = 0;
    while i < obj.len()
        invariant
            i <= obj@.len(),
            m == member_views(obj@),
            m.len() == obj@.len(),
            forall|j: int| 0 <= j < m.len() ==> #[trigger] m[j] == (obj@[j].0@, json_view(obj@[j].1)),
            forall|j: int| 0 <= j < i ==> m[j].0 != key@,
            match key_pos(m, key@) {
                Some(p) => 0 <= p < m.len() && m[p].0 == key@,
                None => forall|j: int| 0 <= j < m.len() ==> m[j].0 != key@,
            },
        decreases obj.len() - i,
    {
        if str_eq(obj[i].0.as_str(), key) {
            assert(m[i as int].0 == key@);
            return true;
        }
        i = i + 1;
    }
    false
}

// ---------------------------------------------------------------------------
// JSON text
// ---------------------------------------------------------------------------

/// The JSON value that `serde_json` parses from some bytes (with
/// `preserve_order`: object members in the order of the text), or `None`
/// where the bytes are not JSON text.
pub uninterp spec fn json_text_value(bytes: Seq<u8>) -> Option<JsonView>;

/// `serde_json::from_slice` into a `serde_json::Value`, converted member for
/// member; on failure, the text of `serde_json`'s error.
#[verifier::external_body]
pub(crate) fn parse_json_text(bytes: &[u8]) -> (r: Result<JsonValue, String>)
    ensures
        match r {
            Ok(v) => json_text_value(bytes@) == Some(json_view(v)),
            Err(_) => json_text_value(bytes@) is None,
        },
{
    match serde_json::from_slice::<serde_json::Value>(bytes) {
        Ok(v) => Ok(from_serde_value(v)),
        Err(e) => Err(e.to_string()),
    }
}

#[verifier::external_type_specification]
#[verifier::external_body]
pub struct ExSerdeValue(serde_json::Value);

/// The conversion of a parsed `serde_json::Value`, one variant for one.
#[verifier::external_body]
fn from_serde_value(v: serde_json::Value) -> JsonValue {
    match v {
        serde_json::Value::Null => JsonValue::Null,
        serde_json::Value::Bool(b) => JsonValue::Bool(b),
        serde_json::Value::Number(n) => JsonValue::Number(match (n.as_u64(), n.as_i64()) {
            (Some(u), _) => JsonNumber::PosInt(u),
            (None, Some(i)) => JsonNumber::NegInt(i),
            _ => JsonNumber::Float(n.to_string()),
        }),
        serde_json::Value::String(s) => JsonValue::String(s),
        serde_json::Value::Array(a) => JsonValue::Array(a.into_iter().map(from_serde_value).collect()),
        serde_json::Value::Object(o) => JsonValue::Object(o.into_iter().map(|(k, v)| (k, from_serde_value(v))).collect()),
    }
}

} // verus!
