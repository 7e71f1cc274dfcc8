//! Parsed JSON and YAML documents, as plain trees of values.
use vstd::prelude::*;
use crate::text::{owned, str_eq};

verus! {

/// A JSON value. An object keeps its members in order; its keys are distinct.
#[derive(Debug)]
pub enum JsonValue {
    Null,
    Bool(bool),
    Number(String),
    Str(String),
    Array(Vec<JsonValue>),
    Object(Vec<(String, JsonValue)>),
}

/// Index of the first member whose key is `key`.
pub open spec fn member_index(members: Seq<(String, JsonValue)>, key: Seq<char>) -> Option<int>
    decreases members.len(),
{
    if members.len() == 0 {
        None
    } else if members[0].0@ == key {
        Some(0)
    } else {
        match member_index(members.drop_first(), key) {
            Some(i) => Some(i + 1),
            None => None,
        }
    }
}

pub proof fn lemma_member_index(members: Seq<(String, JsonValue)>, key: Seq<char>)
    ensures
        member_index(members, key) matches Some(i) ==> 0 <= i < members.len() && members[i].0@
            == key && forall|j: int| 0 <= j < i ==> members[j].0@ != key,
        member_index(members, key) is None ==> forall|j: int|
            0 <= j < members.len() ==> members[j].0@ != key,
    decreases members.len(),
{
    if members.len() > 0 && members[0].0@ != key {
        lemma_member_index(members.drop_first(), key);
        assert forall|j: int| 1 <= j < members.len() implies members[j] == members.drop_first()[j
            - 1] by {}
    }
}

/// `value.get(key)`: the member `key` of an object; nothing for other values.
pub open spec fn json_get(v: JsonValue, key: Seq<char>) -> Option<JsonValue> {
    match v {
        JsonValue::Object(members) => match member_index(members@, key) {
            Some(i) => Some(members@[i].1),
            None => None,
        },
        _ => None,
    }
}

/// `value.as_str()`.
pub open spec fn json_str(v: Option<JsonValue>) -> Option<Seq<char>> {
    match v {
        Some(JsonValue::Str(s)) => Some(s@),
        _ => None,
    }
}

/// `value.as_bool()`.
pub open spec fn json_bool(v: Option<JsonValue>) -> Option<bool> {
    match v {
        Some(JsonValue::Bool(b)) => Some(b),
        _ => None,
    }
}

/// `value.as_array()`.
pub open spec fn json_array(v: Option<JsonValue>) -> Option<Seq<JsonValue>> {
    match v {
        Some(JsonValue::Array(items)) => Some(items@),
        _ => None,
    }
}

/// `value.get(key)`.
pub fn json_member<'a>(v: &'a JsonValue, key: &str) -> (res: Option<&'a JsonValue>)
    ensures
        match res {
            Some(r) => json_get(*v, key@) == Some(*r),
            None => json_get(*v, key@) is None,
        },
{
    match v {
        JsonValue::Object(members) => {
            let mut i: usize = 0;
            while i < members.len()
                invariant
                    i <= members.len(),
                    *v == JsonValue::Object(*members),
                    forall|j: int| 0 <= j < i ==> members@[j].0@ != key@,
                decreases members.len() - i,
            {
                if str_eq(members[i].0.as_str(), key) {
                    proof {
                        lemma_member_index(members@, key@);
                        assert(members@[i as int].0@ == key@);
                        assert(member_index(members@, key@) == Some(i as int));
                        assert(*v == JsonValue::Object(*members));
                        assert(json_get(*v, key@) == Some(members@[i as int].1));
                    }
                    return Some(&members[i].1);
                }
                i += 1;
            }
            proof {
                lemma_member_index(members@, key@);
            }
            None
        },
        _ => None,
    }
}

/// `value.as_str()`, as an owned string.
pub fn json_as_str(v: Option<&JsonValue>) -> (res: Option<String>)
    ensures
        match res {
            Some(s) => json_str(opt_deref_json(v)) == Some(s@),
            None => json_str(opt_deref_json(v)) is None,
        },
{
    match v {
        Some(JsonValue::Str(s)) => Some(owned(s.as_str())),
        _ => None,
    }
}

pub open spec fn opt_deref_json(v: Option<&JsonValue>) -> Option<JsonValue> {
    match v {
        Some(r) => Some(*r),
        None => None,
    }
}

/// `value.as_bool()`.
pub fn json_as_bool(v: Option<&JsonValue>) -> (res: Option<bool>)
    ensures
        res == json_bool(opt_deref_json(v)),
{
    match v {
        Some(JsonValue::Bool(b)) => Some(*b),
        _ => None,
    }
}

/// `value.as_array()`.
pub fn json_as_array<'a>(v: Option<&'a JsonValue>) -> (res: Option<&'a Vec<JsonValue>>)
    ensures
        match res {
            Some(items) => json_array(opt_deref_json(v)) == Some(items@),
            None => json_array(opt_deref_json(v)) is None,
        },
{
    match v {
        Some(JsonValue::Array(items)) => Some(items),
        _ => None,
    }
}

/// A YAML value. A mapping keeps its entries in order; its keys are distinct.
#[derive(Debug)]
pub enum YamlValue {
    Null,
    Bool(bool),
    Number(String),
    Str(String),
    Sequence(Vec<YamlValue>),
    Mapping(Vec<(YamlValue, YamlValue)>),
    Tagged(String, Box<YamlValue>),
}

/// The value under any tags.
pub open spec fn untag(v: YamlValue) -> YamlValue
    decreases v,
{
    match v {
        YamlValue::Tagged(_, inner) => untag(*inner),
        _ => v,
    }
}

/// The key is exactly the (untagged) string `key`.
pub open spec fn is_str_key(k: YamlValue, key: Seq<char>) -> bool {
    k matches YamlValue::Str(s) && s@ == key
}

/// Index of the first entry whose key is the string `key`.
pub open spec fn entry_index(entries: Seq<(YamlValue, YamlValue)>, key: Seq<char>) -> Option<int>
    decreases entries.len(),
{
    if entries.len() == 0 {
        None
    } else if is_str_key(entries[0].0, key) {
        Some(0)
    } else {
        match entry_index(entries.drop_first(), key) {
            Some(i) => Some(i + 1),
            None => None,
        }
    }
}

pub proof fn lemma_entry_index(entries: Seq<(YamlValue, YamlValue)>, key: Seq<char>)
    ensures
        entry_index(entries, key) matches Some(i) ==> 0 <= i < entries.len() && is_str_key(
            entries[i].0,
            key,
        ) && forall|j: int| 0 <= j < i ==> !is_str_key(entries[j].0, key),
        entry_index(entries, key) is None ==> forall|j: int|
            0 <= j < entries.len() ==> !is_str_key(entries[j].0, key),
    decreases entries.len(),
{
    if entries.len() > 0 && !is_str_key(entries[0].0, key) {
        lemma_entry_index(entries.drop_first(), key);
        assert forall|j: int| 1 <= j < entries.len() implies entries[j] == entries.drop_first()[j
            - 1] by {}
    }
}

/// The entries of a mapping (`value.as_mapping()`, which looks under tags).
pub open spec fn yaml_mapping(v: YamlValue) -> Option<Seq<(YamlValue, YamlValue)>> {
    match untag(v) {
        YamlValue::Mapping(entries) => Some(entries@),
        _ => None,
    }
}

/// `value.as_sequence()`.
pub open spec fn yaml_sequence(v: YamlValue) -> Option<Seq<YamlValue>> {
    match untag(v) {
        YamlValue::Sequence(items) => Some(items@),
        _ => None,
    }
}

/// `value.as_str()`.
pub open spec fn yaml_str(v: YamlValue) -> Option<Seq<char>> {
    match untag(v) {
        YamlValue::Str(s) => Some(s@),
        _ => None,
    }
}

/// The value under the string key `key` of a mapping.
pub open spec fn yaml_get(v: YamlValue, key: Seq<char>) -> Option<YamlValue> {
    match yaml_mapping(v) {
        Some(entries) => match entry_index(entries, key) {
            Some(i) => Some(entries[i].1),
            None => None,
        },
        None => None,
    }
}

/// The value under any tags.
pub fn untagged(v: &YamlValue) -> (res: &YamlValue)
    ensures
        *res == untag(*v),
    decreases v,
{
    match v {
        YamlValue::Tagged(_, inner) => untagged(inner),
        _ => v,
    }
}

/// `value.as_mapping()`.
pub fn yaml_as_mapping(v: &YamlValue) -> (res: Option<&Vec<(YamlValue, YamlValue)>>)
    ensures
        match res {
            Some(entries) => yaml_mapping(*v) == Some(entries@),
            None => yaml_mapping(*v) is None,
        },
{
    match untagged(v) {
        YamlValue::Mapping(entries) => Some(entries),
        _ => None,
    }
}

/// `value.as_sequence()`.
pub fn yaml_as_sequence(v: &YamlValue) -> (res: Option<&Vec<YamlValue>>)
    ensures
        match res {
            Some(items) => yaml_sequence(*v) == Some(items@),
            None => yaml_sequence(*v) is None,
        },
{
    match untagged(v) {
        YamlValue::Sequence(items) => Some(items),
        _ => None,
    }
}

/// `value.as_str()`, as an owned string.
pub fn yaml_as_str(v: &YamlValue) -> (res: Option<String>)
    ensures
        match res {
            Some(s) => yaml_str(*v) == Some(s@),
            None => yaml_str(*v) is None,
        },
{
    match untagged(v) {
        YamlValue::Str(s) => Some(owned(s.as_str())),
        _ => None,
    }
}

/// The entry of a mapping under the string key `key`.
pub fn mapping_entry<'a>(entries: &'a Vec<(YamlValue, YamlValue)>, key: &str) -> (res: Option<
    &'a YamlValue,
>)
    ensures
        match res {
            Some(r) => entry_index(entries@, key@) matches Some(i) && entries@[i].1 == *r,
            None => entry_index(entries@, key@) is None,
        },
{
    let mut i: usize = 0;
    while i < entries.len()
        invariant
            i <= entries.len(),
            forall|j: int| 0 <= j < i ==> !is_str_key(entries@[j].0, key@),
        decreases entries.len() - i,
    {
        let found = match &entries[i].0 {
            YamlValue::Str(s) => str_eq(s.as_str(), key),
            _ => false,
        };
        if found {
            proof {
                lemma_entry_index(entries@, key@);
            }
            return Some(&entries[i].1);
        }
        i += 1;
    }
    proof {
        lemma_entry_index(entries@, key@);
    }
    None
}

/// `get_key(value, key)`: the value under the string key `key` of a mapping.
pub fn yaml_member<'a>(v: &'a YamlValue, key: &str) -> (res: Option<&'a YamlValue>)
    ensures
        match res {
            Some(r) => yaml_get(*v, key@) == Some(*r),
            None => yaml_get(*v, key@) is None,
        },
{
    match yaml_as_mapping(v) {
        Some(entries) => mapping_entry(entries, key),
        None => None,
    }
}

} // verus!
