//! A JSON value as the glossary logic reads it, with key lookup on objects.

use vstd::prelude::*;
use crate::text::str_eq;

verus! {

/// A parsed JSON value. Object members keep their order; a lookup finds the first member
/// with the key (a parsed JSON object has no duplicate keys). A number keeps its text, since
/// no glossary logic reads its value.
#[derive(Debug)]
pub enum JsonValue {
    Null,
    Bool(bool),
    Number(String),
    String(String),
    Array(Vec<JsonValue>),
    Object(Vec<(String, JsonValue)>),
}

/// Number of values in the tree rooted at `v`.
pub open spec fn count(v: JsonValue) -> nat
    decreases v,
{
    match v {
        JsonValue::Array(parts) => 1 + count_parts(parts@),
        JsonValue::Object(entries) => 1 + count_entries(entries@),
        _ => 1,
    }
}

pub open spec fn count_parts(parts: Seq<JsonValue>) -> nat
    decreases parts,
{
    if parts.len() == 0 {
        0
    } else {
        count_parts(parts.drop_last()) + count(parts.last())
    }
}

pub open spec fn count_entries(entries: Seq<(String, JsonValue)>) -> nat
    decreases entries,
{
    if entries.len() == 0 {
        0
    } else {
        count_entries(entries.drop_last()) + count(entries.last().1)
    }
}

pub proof fn lemma_count_part(parts: Seq<JsonValue>, i: int)
    requires
        0 <= i < parts.len(),
    ensures
        count(parts[i]) <= count_parts(parts),
    decreases parts.len(),
{
    if i < parts.len() - 1 {
        lemma_count_part(parts.drop_last(), i);
    }
}

pub proof fn lemma_count_entry(entries: Seq<(String, JsonValue)>, i: int)
    requires
        0 <= i < entries.len(),
    ensures
        count(entries[i].1) <= count_entries(entries),
    decreases entries.len(),
{
    if i < entries.len() - 1 {
        lemma_count_entry(entries.drop_last(), i);
    }
}

/// `true` when `i` is the first member of `entries` with key `key`.
pub open spec fn is_first_key(entries: Seq<(String, JsonValue)>, key: Seq<char>, i: int) -> bool {
    &&& 0 <= i < entries.len()
    &&& entries[i].0@ == key
    &&& forall|j: int| 0 <= j < i ==> (#[trigger] entries[j]).0@ != key
}

/// Position of the first member with key `key`.
pub open spec fn key_index(entries: Seq<(String, JsonValue)>, key: Seq<char>) -> Option<int> {
    if exists|i: int| is_first_key(entries, key, i) {
        Some(choose|i: int| is_first_key(entries, key, i))
    } else {
        None
    }
}

/// Looking a key up finds the first member with that key: its value, with no earlier member of
/// that key; nothing is found only when no member has the key.
pub proof fn lemma_first_member(entries: Seq<(String, JsonValue)>, key: Seq<char>)
    ensures
        key_index(entries, key) matches Some(i) ==> 0 <= i < entries.len() && entries[i].0@ == key
            && forall|j: int| 0 <= j < i ==> (#[trigger] entries[j]).0@ != key,
        key_index(entries, key) is None ==> forall|j: int| 0 <= j < entries.len() ==> (#[trigger] entries[j]).0@ != key,
{
    if key_index(entries, key) is Some {
        let i = choose|i: int| is_first_key(entries, key, i);
        assert(is_first_key(entries, key, i));
    } else {
        assert forall|j: int| 0 <= j < entries.len() implies (#[trigger] entries[j]).0@ != key by {
            if entries[j].0@ == key {
                lemma_some_first_member(entries, key, j);
            }
        }
    }
}

proof fn lemma_some_first_member(entries: Seq<(String, JsonValue)>, key: Seq<char>, j: int)
    requires
        0 <= j < entries.len(),
        entries[j].0@ == key,
    ensures
        exists|i: int| is_first_key(entries, key, i),
    decreases j,
{
    if exists|m: int| 0 <= m < j && (#[trigger] entries[m]).0@ == key {
        let m = choose|m: int| 0 <= m < j && (#[trigger] entries[m]).0@ == key;
        lemma_some_first_member(entries, key, m);
    } else {
        assert(is_first_key(entries, key, j));
    }
}

/// The value of the first member with key `key`.
pub open spec fn obj_get(entries: Seq<(String, JsonValue)>, key: Seq<char>) -> Option<JsonValue> {
    match key_index(entries, key) {
        Some(i) => Some(entries[i].1),
        None => None,
    }
}

/// `true` when some member has key `key`.
pub open spec fn has_key(entries: Seq<(String, JsonValue)>, key: Seq<char>) -> bool {
    key_index(entries, key) is Some
}

/// The string value of the member `key`, if it is a string.
pub open spec fn get_str(entries: Seq<(String, JsonValue)>, key: Seq<char>) -> Option<Seq<char>> {
    match obj_get(entries, key) {
        Some(JsonValue::String(s)) => Some(s@),
        _ => None,
    }
}

/// The elements of the member `key`, if it is an array.
pub open spec fn get_array(entries: Seq<(String, JsonValue)>, key: Seq<char>) -> Option<Seq<JsonValue>> {
    match obj_get(entries, key) {
        Some(JsonValue::Array(a)) => Some(a@),
        _ => None,
    }
}

/// The value found by a lookup is no bigger than the object it was found in.
pub proof fn lemma_obj_get_count(entries: Seq<(String, JsonValue)>, key: Seq<char>)
    ensures
        obj_get(entries, key) matches Some(v) ==> count(v) <= count_entries(entries),
{
    if let Some(i) = key_index(entries, key) {
        lemma_count_entry(entries, i);
    }
}

/// Finds the first member with key `key`.
pub fn find_key(entries: &[(String, JsonValue)], key: &str) -> (r: Option<usize>)
    ensures
        match r {
            Some(i) => key_index(entries@, key@) == Some(i as int),
            None => key_index(entries@, key@) is None,
        },
{
    let mut i: usize = 0;
    while i < entries.len()
        invariant
            i <= entries@.len(),
            forall|j: int| 0 <= j < i ==> (#[trigger] entries@[j]).0@ != key@,
        decreases entries@.len() - i,
    {
        if str_eq(entries[i].0.as_str(), key) {
            assert(is_first_key(entries@, key@, i as int));
            assert forall|k: int| is_first_key(entries@, key@, k) implies k == i by {
                if k < i {
                } else if k > i {
                    assert(entries@[i as int].0@ == key@);
                }
            }
            return Some(i);
        }
        i += 1;
    }
    assert(forall|k: int| !is_first_key(entries@, key@, k));
    None
}

/// The value of the first member with key `key`.
pub fn get<'a>(entries: &'a [(String, JsonValue)], key: &str) -> (r: Option<&'a JsonValue>)
    ensures
        match r {
            Some(v) => obj_get(entries@, key@) == Some(*v),
            None => obj_get(entries@, key@) is None,
        },
{
    match find_key(entries, key) {
        Some(i) => Some(&entries[i].1),
        None => None,
    }
}

/// The string value of the member `key`, if it is a string.
pub fn get_string<'a>(entries: &'a [(String, JsonValue)], key: &str) -> (r: Option<&'a String>)
    ensures
        match r {
            Some(s) => get_str(entries@, key@) == Some(s@),
            None => get_str(entries@, key@) is None,
        },
{
    match get(entries, key) {
        Some(JsonValue::String(s)) => Some(s),
        _ => None,
    }
}

/// `true` when some member has key `key`.
pub fn contains_key(entries: &[(String, JsonValue)], key: &str) -> (r: bool)
    ensures
        r == has_key(entries@, key@),
{
    find_key(entries, key).is_some()
}

/// The member `key` of an object value; `None` for any other value (as a string-keyed lookup
/// on a JSON value does).
pub open spec fn member(v: JsonValue, key: Seq<char>) -> Option<JsonValue> {
    match v {
        JsonValue::Object(entries) => obj_get(entries@, key),
        _ => None,
    }
}

/// The member `key`, if it is a string.
pub open spec fn member_str(v: JsonValue, key: Seq<char>) -> Option<Seq<char>> {
    match member(v, key) {
        Some(JsonValue::String(s)) => Some(s@),
        _ => None,
    }
}

/// The elements of the member `key`, if it is an array.
pub open spec fn member_array(v: JsonValue, key: Seq<char>) -> Option<Seq<JsonValue>> {
    match member(v, key) {
        Some(JsonValue::Array(a)) => Some(a@),
        _ => None,
    }
}

/// The member `key` of an object value.
pub fn get_member<'a>(v: &'a JsonValue, key: &str) -> (r: Option<&'a JsonValue>)
    ensures
        match r {
            Some(x) => member(*v, key@) == Some(*x),
            None => member(*v, key@) is None,
        },
{
    match v {
        JsonValue::Object(entries) => get(entries.as_slice(), key),
        _ => None,
    }
}

/// The member `key` of an object value, if it is a string.
pub fn member_string<'a>(v: &'a JsonValue, key: &str) -> (r: Option<&'a String>)
    ensures
        match r {
            Some(s) => member_str(*v, key@) == Some(s@),
            None => member_str(*v, key@) is None,
        },
{
    match get_member(v, key) {
        Some(JsonValue::String(s)) => Some(s),
        _ => None,
    }
}

/// The elements of the member `key` of an object value, if it is an array.
pub fn member_elements<'a>(v: &'a JsonValue, key: &str) -> (r: Option<&'a Vec<JsonValue>>)
    ensures
        match r {
            Some(a) => member_array(*v, key@) == Some(a@),
            None => member_array(*v, key@) is None,
        },
{
    match get_member(v, key) {
        Some(JsonValue::Array(a)) => Some(a),
        _ => None,
    }
}

} // verus!
