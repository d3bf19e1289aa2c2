//! A JSON document model: the values the checks read from `package.json`,
//! `tsconfig.json` and similar files.  Objects keep their members in order.
use vstd::prelude::*;
use crate::text::{chars_eq, chars_of};

verus! {

/// A JSON number: its canonical text and whether it is zero.
pub struct JsonNumber {
    pub text: String,
    pub is_zero: bool,
}

/// A JSON value.
pub enum JsonValue {
    Null,
    Bool(bool),
    Number(JsonNumber),
    Text(String),
    Array(Vec<JsonValue>),
    Object(Vec<(String, JsonValue)>),
}

/// The member of an object with the given key: the last one, as a parser
/// that keeps the last duplicate gives it.
pub open spec fn member_index(members: Seq<(String, JsonValue)>, key: Seq<char>) -> Option<int>
    decreases members.len(),
{
    if members.len() == 0 {
        None
    } else if members.last().0@ == key {
        Some(members.len() - 1)
    } else {
        member_index(members.drop_last(), key)
    }
}

pub proof fn lemma_member_index(members: Seq<(String, JsonValue)>, key: Seq<char>)
    ensures
        member_index(members, key) matches Some(i) ==> 0 <= i < members.len() && members[i].0@ == key,
        member_index(members, key) is None ==> forall|j: int|
            0 <= j < members.len() ==> members[j].0@ != key,
    decreases members.len(),
{
    if members.len() > 0 {
        lemma_member_index(members.drop_last(), key);
        assert forall|j: int| 0 <= j < members.len() - 1 implies members[j] == members.drop_last()[j] by {}
    }
}

/// `value.get(key)` on an object; nothing for other values.
pub open spec fn get_spec(v: JsonValue, key: Seq<char>) -> Option<JsonValue> {
    match v {
        JsonValue::Object(members) => match member_index(members@, key) {
            Some(i) => Some(members@[i].1),
            None => None,
        },
        _ => None,
    }
}

/// `Value::get` on an object member.
pub fn get<'a>(v: &'a JsonValue, key: &str) -> (r: Option<&'a JsonValue>)
    ensures
        match r {
            Some(x) => get_spec(*v, key@) == Some(*x),
            None => get_spec(*v, key@) is None,
        },
{
    match v {
        JsonValue::Object(members) => {
            let k = chars_of(key);
            let mut j: usize = members.len();
            assert(members@.take(j as int) =~= members@);
            while j > 0
                invariant
                    j <= members@.len(),
                    *v == JsonValue::Object(*members),
                    k@ == key@,
                    member_index(members@, key@) == member_index(members@.take(j as int), key@),
                decreases j,
            {
                proof {
                    assert(members@.take(j as int).drop_last() =~= members@.take(j - 1));
                    assert(members@.take(j as int).last() == members@[j - 1]);
                }
                let mk = chars_of(members[j - 1].0.as_str());
                if chars_eq(mk.as_slice(), k.as_slice()) {
                    return Some(&members[j - 1].1);
                }
                j -= 1;
            }
            None
        },
        _ => None,
    }
}

/// The value is an object with a member of that key.
pub open spec fn has_key_spec(v: JsonValue, key: Seq<char>) -> bool {
    get_spec(v, key) is Some
}

pub fn has_object_key(value: &JsonValue, key: &str) -> (r: bool)
    ensures
        r == has_key_spec(*value, key@),
{
    get(value, key).is_some()
}

/// `Value::as_str`.
pub open spec fn as_str_spec(v: Option<JsonValue>) -> Option<Seq<char>> {
    match v {
        Some(JsonValue::Text(s)) => Some(s@),
        _ => None,
    }
}

/// The string member of an object.
pub fn get_str<'a>(v: &'a JsonValue, key: &str) -> (r: Option<&'a String>)
    ensures
        match r {
            Some(s) => as_str_spec(get_spec(*v, key@)) == Some(s@),
            None => as_str_spec(get_spec(*v, key@)) is None,
        },
{
    match get(v, key) {
        Some(JsonValue::Text(s)) => Some(s),
        _ => None,
    }
}

/// JavaScript truthiness of a JSON value.
pub open spec fn truthy(v: JsonValue) -> bool {
    match v {
        JsonValue::Null => false,
        JsonValue::Bool(b) => b,
        JsonValue::Number(n) => !n.is_zero,
        JsonValue::Text(s) => s@.len() > 0,
        JsonValue::Array(_) => true,
        JsonValue::Object(_) => true,
    }
}

pub fn is_js_truthy_json_value(value: &JsonValue) -> (r: bool)
    ensures
        r == truthy(*value),
{
    match value {
        JsonValue::Null => false,
        JsonValue::Bool(b) => *b,
        JsonValue::Number(n) => !n.is_zero,
        JsonValue::Text(s) => {
            let c = chars_of(s.as_str());
            c.len() > 0
        },
        JsonValue::Array(_) => true,
        JsonValue::Object(_) => true,
    }
}

/// An object member that is itself a non-empty object.
pub open spec fn non_empty_object_member(v: JsonValue, key: Seq<char>) -> bool {
    match get_spec(v, key) {
        Some(JsonValue::Object(m)) => m@.len() > 0,
        _ => false,
    }
}

/// The object member `section` has a member named `name`.
pub open spec fn section_has(v: JsonValue, section: Seq<char>, name: Seq<char>) -> bool {
    match get_spec(v, section) {
        Some(inner) => match inner {
            JsonValue::Object(_) => has_key_spec(inner, name),
            _ => false,
        },
        None => false,
    }
}

pub fn section_has_key(v: &JsonValue, section: &str, name: &str) -> (r: bool)
    ensures
        r == section_has(*v, section@, name@),
{
    match get(v, section) {
        Some(inner) => match inner {
            JsonValue::Object(_) => has_object_key(inner, name),
            _ => false,
        },
        None => false,
    }
}

} // verus!
