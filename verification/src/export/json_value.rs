use vstd::prelude::*;

use crate::export::json_read::member;

verus! {

/// A JSON document as the import and export read and write it. Numbers are
/// kept as integers; a number with a fraction or an exponent is only marked.
#[derive(Debug)]
pub enum JsonValue {
    Null,
    Bool(bool),
    Int(i128),
    /// A number that is not an integer.
    Float,
    Str(String),
    Array(Vec<JsonValue>),
    /// The members of an object, each key once.
    Object(Vec<(String, JsonValue)>),
}

/// What serde_json parses from `bytes`: `None` when the bytes are not one
/// JSON document.
pub uninterp spec fn json_parsed(bytes: Seq<u8>) -> Option<JsonValue>;

/// The bytes serde_json writes for `v` with its pretty printer.
pub uninterp spec fn json_rendered(v: JsonValue) -> Seq<u8>;

/// Every integer of `v` lies in `[i64::MIN, u64::MAX]` and `v` holds no
/// marked non-integer number: `v` can be written as JSON.
pub open spec fn json_writable(v: JsonValue) -> bool
    decreases v, 0nat,
{
    match v {
        JsonValue::Int(i) => i64::MIN <= i <= u64::MAX,
        JsonValue::Float => false,
        JsonValue::Array(items) => json_all_writable(items@, 0),
        JsonValue::Object(members) => json_members_writable(members@, 0),
        _ => true,
    }
}

/// The elements of `s` from `i` on are writable.
pub open spec fn json_all_writable(s: Seq<JsonValue>, i: int) -> bool
    decreases s, if i < s.len() {
        (s.len() - i) as nat
    } else {
        0nat
    },
{
    if 0 <= i < s.len() {
        json_writable(s[i]) && json_all_writable(s, i + 1)
    } else {
        true
    }
}

/// The member values of `s` from `i` on are writable.
pub open spec fn json_members_writable(s: Seq<(String, JsonValue)>, i: int) -> bool
    decreases s, if i < s.len() {
        (s.len() - i) as nat
    } else {
        0nat
    },
{
    if 0 <= i < s.len() {
        json_writable(s[i].1) && json_members_writable(s, i + 1)
    } else {
        true
    }
}

#[verifier::external_type_specification]
#[verifier::external_body]
pub struct ExJsonValue(serde_json::Value);

/// Converts a serde_json value, variant by variant.
#[verifier::external_body]
fn from_serde(v: serde_json::Value) -> JsonValue {
    match v {
        serde_json::Value::Null => JsonValue::Null,
        serde_json::Value::Bool(b) => JsonValue::Bool(b),
        serde_json::Value::Number(n) => n.as_i128().map_or(JsonValue::Float, JsonValue::Int),
        serde_json::Value::String(s) => JsonValue::Str(s),
        serde_json::Value::Array(a) => JsonValue::Array(a.into_iter().map(from_serde).collect()),
        serde_json::Value::Object(m) => JsonValue::Object(
            m.into_iter().map(|(k, x)| (k, from_serde(x))).collect(),
        ),
    }
}

/// Converts into a serde_json value, variant by variant.
#[verifier::external_body]
fn to_serde(v: &JsonValue) -> serde_json::Value {
    match v {
        JsonValue::Null | JsonValue::Float => serde_json::Value::Null,
        JsonValue::Bool(b) => serde_json::Value::Bool(*b),
        JsonValue::Int(i) => serde_json::Number::from_i128(*i).map_or(
            serde_json::Value::Null,
            serde_json::Value::Number,
        ),
        JsonValue::Str(s) => serde_json::Value::String(s.clone()),
        JsonValue::Array(a) => serde_json::Value::Array(a.iter().map(to_serde).collect()),
        JsonValue::Object(m) => serde_json::Value::Object(
            m.iter().map(|(k, x)| (k.clone(), to_serde(x))).collect(),
        ),
    }
}

/// Calls `serde_json::from_slice` for a `serde_json::Value`. Claims that the
/// outcome is `json_parsed(bytes)`, a function of the bytes alone.
#[verifier::external_body]
pub(crate) fn parse_json(bytes: &[u8]) -> (r: Option<JsonValue>)
    ensures
        r == json_parsed(bytes@),
{
    serde_json::from_slice::<serde_json::Value>(bytes).ok().map(from_serde)
}

/// The value of the last member of `ms` named `key`.
pub open spec fn last_member(ms: Seq<(String, JsonValue)>, key: Seq<char>) -> Option<JsonValue>
    decreases ms.len(),
{
    if ms.len() == 0 {
        None
    } else if ms.last().0@ == key {
        Some(ms.last().1)
    } else {
        last_member(ms.drop_last(), key)
    }
}

/// `v` and `w` are the same scalar: both null, or equal booleans, integers
/// or texts.
pub open spec fn scalar_same(v: JsonValue, w: JsonValue) -> bool {
    match v {
        JsonValue::Null => w is Null,
        JsonValue::Bool(a) => w matches JsonValue::Bool(b) && a == b,
        JsonValue::Int(a) => w matches JsonValue::Int(b) && a == b,
        JsonValue::Str(a) => w matches JsonValue::Str(b) && a@ == b@,
        _ => false,
    }
}

/// Both absent, or the same scalar.
pub open spec fn opt_scalar_same(a: Option<JsonValue>, b: Option<JsonValue>) -> bool {
    match a {
        None => b is None,
        Some(x) => b matches Some(y) && scalar_same(x, y),
    }
}

/// `v` is null, a boolean, an integer or a text.
pub open spec fn is_scalar(v: JsonValue) -> bool {
    v is Null || v is Bool || v is Int || v is Str
}

/// Every object within `v` has scalar member values.
pub open spec fn json_flat(v: JsonValue) -> bool
    decreases v, 0nat,
{
    match v {
        JsonValue::Array(items) => json_all_flat(items@, 0),
        JsonValue::Object(ms) => forall|i: int| 0 <= i < ms@.len() ==> is_scalar(#[trigger] ms@[i].1),
        _ => true,
    }
}

/// The elements of `s` from `i` on are flat.
pub open spec fn json_all_flat(s: Seq<JsonValue>, i: int) -> bool
    decreases s, if i < s.len() {
        (s.len() - i) as nat
    } else {
        0nat
    },
{
    if 0 <= i < s.len() {
        json_flat(s[i]) && json_all_flat(s, i + 1)
    } else {
        true
    }
}

/// `w` holds what `v` holds as a reader looks members up by key: arrays
/// element by element; an object of `w` gives for each key the value of
/// the last member of `v` with that key, or nothing when `v` has none;
/// scalars alike.
pub open spec fn json_same(v: JsonValue, w: JsonValue) -> bool
    decreases v, 0nat,
{
    match v {
        JsonValue::Array(a) => match w {
            JsonValue::Array(b) => a@.len() == b@.len() && json_all_same(a@, b@, 0),
            _ => false,
        },
        JsonValue::Object(m) => match w {
            JsonValue::Object(n) => forall|k: Seq<char>| #[trigger]
                opt_scalar_same(last_member(m@, k), member(n@, k)),
            _ => false,
        },
        _ => scalar_same(v, w),
    }
}

/// The elements of `s` and `t` from `i` on are pairwise the same.
pub open spec fn json_all_same(s: Seq<JsonValue>, t: Seq<JsonValue>, i: int) -> bool
    decreases s, if i < s.len() {
        (s.len() - i) as nat
    } else {
        0nat
    },
{
    if 0 <= i < s.len() {
        i < t.len() && json_same(s[i], t[i]) && json_all_same(s, t, i + 1)
    } else {
        true
    }
}

/// The nesting depth of `v`: an array or an object is one deeper than its
/// deepest element or member value; a scalar has depth 0.
pub open spec fn json_depth(v: JsonValue) -> nat
    decreases v, 0nat,
{
    match v {
        JsonValue::Array(items) => 1 + json_list_depth(items@, 0),
        JsonValue::Object(ms) => 1 + json_members_depth(ms@, 0),
        _ => 0,
    }
}

/// The greater of two depths.
pub open spec fn depth_max(a: nat, b: nat) -> nat {
    if a >= b {
        a
    } else {
        b
    }
}

/// The greatest depth among the elements of `s` from `i` on (0 when none).
pub open spec fn json_list_depth(s: Seq<JsonValue>, i: int) -> nat
    decreases s, if 0 <= i < s.len() {
        (s.len() - i) as nat
    } else {
        0nat
    },
{
    if 0 <= i < s.len() {
        depth_max(json_depth(s[i]), json_list_depth(s, i + 1))
    } else {
        0
    }
}

/// The greatest depth among the member values of `s` from `i` on.
pub open spec fn json_members_depth(s: Seq<(String, JsonValue)>, i: int) -> nat
    decreases s, if 0 <= i < s.len() {
        (s.len() - i) as nat
    } else {
        0nat
    },
{
    if 0 <= i < s.len() {
        depth_max(json_depth(s[i].1), json_members_depth(s, i + 1))
    } else {
        0
    }
}

/// The deepest nesting serde_json's parser accepts: it refuses to enter a
/// 128th array or object.
pub open spec fn json_parse_depth_limit() -> nat {
    127
}

/// Parsing `bytes` gives a value that is the same as `v`.
pub open spec fn parses_back(bytes: Seq<u8>, v: JsonValue) -> bool {
    json_parsed(bytes) matches Some(w) && json_same(v, w)
}

/// Calls `serde_json::to_vec_pretty` on the value. Claims that the result is
/// `json_rendered(v)`, a function of the value alone; for a writable value
/// the call cannot fail (a `serde_json::Value` always serializes). Claims
/// also that parsing the result back gives the same value when every object
/// has scalar members and the value is nested no deeper than the parser's
/// recursion limit (it starts with a depth budget of 128 and fails when
/// entering an array or object exhausts it): the value is converted to a
/// `serde_json::Value` whose objects are maps (a later member replaces an
/// earlier one with the same key), integers in range are written in full
/// and read back exactly, texts are escaped and unescaped, and arrays keep
/// their order.
#[verifier::external_body]
pub(crate) fn render_json_pretty(v: &JsonValue) -> (r: Vec<u8>)
    requires
        json_writable(*v),
    ensures
        r@ == json_rendered(*v),
        json_flat(*v) && json_depth(*v) <= json_parse_depth_limit() ==> parses_back(r@, *v),
{
    serde_json::to_vec_pretty(&to_serde(v)).unwrap_or_default()
}

} // verus!
