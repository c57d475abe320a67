//! JSON documents as the compositor providers print them.
use vstd::prelude::*;
use crate::text::str_eq;

verus! {

broadcast use vstd::string::group_string_axioms;

/// A JSON value; a number keeps what `as_u64` reads of it.
#[derive(Debug)]
pub enum Json {
    Null,
    Bool(bool),
    Number(Option<u64>),
    Str(String),
    Array(Vec<Json>),
    Object(Vec<(String, Json)>),
}

#[verifier::external_type_specification]
#[verifier::external_body]
pub struct ExJsonValue(serde_json::Value);

/// The JSON document that `serde_json` reads from these bytes, if they hold one.
pub uninterp spec fn json_document(bytes: Seq<u8>) -> Option<Json>;

/// `serde_json::Value` as a [`Json`]: one variant for each, object entries in map order.
#[verifier::external_body]
fn json_from_value(v: &serde_json::Value) -> Json {
    match v {
        serde_json::Value::Null => Json::Null,
        serde_json::Value::Bool(b) => Json::Bool(*b),
        serde_json::Value::Number(n) => Json::Number(n.as_u64()),
        serde_json::Value::String(s) => Json::Str(s.clone()),
        serde_json::Value::Array(items) => Json::Array(items.iter().map(json_from_value).collect()),
        serde_json::Value::Object(map) => Json::Object(
            map.iter().map(|(k, x)| (k.clone(), json_from_value(x))).collect(),
        ),
    }
}

/// `serde_json::from_slice::<serde_json::Value>`: the document in `bytes`, or
/// `None` when they are not one JSON value.
///
/// Trusted: the result is `json_document` of the bytes; the JSON grammar is not restated.
#[verifier::external_body]
pub(crate) fn parse_json(bytes: &[u8]) -> (r: Option<Json>)
    ensures
        r == json_document(bytes@),
{
    match serde_json::from_slice::<serde_json::Value>(bytes) {
        Ok(v) => Some(json_from_value(&v)),
        Err(_) => None,
    }
}

/// Index of the first entry at index `i` or later whose key is `key`.
pub open spec fn entry_index_from(entries: Seq<(String, Json)>, key: Seq<char>, i: int) -> Option<int>
    decreases entries.len() - i,
{
    if i < 0 || i >= entries.len() {
        None
    } else if entries[i].0@ == key {
        Some(i)
    } else {
        entry_index_from(entries, key, i + 1)
    }
}

/// The member `key` of an object (`Value::get` with a string key).
pub open spec fn member(v: Json, key: Seq<char>) -> Option<Json> {
    match v {
        Json::Object(entries) => match entry_index_from(entries@, key, 0) {
            Some(k) => Some(entries@[k].1),
            None => None,
        },
        _ => None,
    }
}

/// The text of a string value (`Value::as_str`).
pub open spec fn text_of(v: Option<Json>) -> Option<Seq<char>> {
    match v {
        Some(Json::Str(s)) => Some(s@),
        _ => None,
    }
}

/// The value of a non-negative integer (`Value::as_u64`).
pub open spec fn u64_of(v: Option<Json>) -> Option<u64> {
    match v {
        Some(Json::Number(n)) => n,
        _ => None,
    }
}

/// The value of a boolean (`Value::as_bool`).
pub open spec fn bool_of(v: Option<Json>) -> Option<bool> {
    match v {
        Some(Json::Bool(b)) => Some(b),
        _ => None,
    }
}

pub proof fn lemma_entry_index_from(entries: Seq<(String, Json)>, key: Seq<char>, i: int)
    ensures
        entry_index_from(entries, key, i) matches Some(k) ==> 0 <= i <= k < entries.len()
            && entries[k].0@ == key,
    decreases entries.len() - i,
{
    if 0 <= i < entries.len() && entries[i].0@ != key {
        lemma_entry_index_from(entries, key, i + 1);
    }
}

impl Json {
    /// The member `key` of an object.
    pub fn get(&self, key: &str) -> (r: Option<&Json>)
        ensures
            r matches Some(x) ==> member(*self, key@) == Some(*x),
            r is None ==> member(*self, key@) is None,
    {
        match self {
            Json::Object(entries) => {
                let mut i: usize = 0;
                #[verifier::loop_isolation(false)]
                while i < entries.len()
                    invariant
                        i <= entries.len(),
                        entry_index_from(entries@, key@, 0) == entry_index_from(entries@, key@, i as int),
                    decreases entries.len() - i,
                {
                    if str_eq(entries[i].0.as_str(), key) {
                        return Some(&entries[i].1);
                    }
                    i = i + 1;
                }
                None
            },
            _ => None,
        }
    }

    /// The text of a string value.
    pub fn as_str(&self) -> (r: Option<&String>)
        ensures
            r matches Some(s) ==> text_of(Some(*self)) == Some(s@),
            r is None ==> text_of(Some(*self)) is None,
    {
        match self {
            Json::Str(s) => Some(s),
            _ => None,
        }
    }

    /// The value of a non-negative integer that fits in `u64`.
    pub fn as_u64(&self) -> (r: Option<u64>)
        ensures
            r == u64_of(Some(*self)),
    {
        match self {
            Json::Number(n) => *n,
            _ => None,
        }
    }

    /// The value of a boolean.
    pub fn as_bool(&self) -> (r: Option<bool>)
        ensures
            r == bool_of(Some(*self)),
    {
        match self {
            Json::Bool(b) => Some(*b),
            _ => None,
        }
    }
}


/// The node has `"focused": true`.
pub open spec fn is_focused_node(v: Json) -> bool {
    bool_of(member(v, "focused"@)) == Some(true)
}

/// The first focused node in a depth-first walk from `v` through the arrays
/// `nodes` and then `floating_nodes` of each node.
pub open spec fn focused_node(v: Json) -> Option<Json>
    decreases v, 0int,
{
    if is_focused_node(v) {
        Some(v)
    } else {
        match v {
            Json::Object(entries) => {
                let in_nodes = match entry_index_from(entries@, "nodes"@, 0) {
                    Some(k) => {
                        proof {
                            lemma_entry_index_from(entries@, "nodes"@, 0);
                            assert(decreases_to!(v => entries));
                            assert(decreases_to!(entries => entries@));
                            assert(decreases_to!(entries@ => entries@[k]));
                            assert(decreases_to!(entries@[k] => entries@[k].1));
                        }
                        match entries@[k].1 {
                            Json::Array(items) => {
                                proof {
                                    assert(decreases_to!(entries@[k].1 => items));
                                    assert(decreases_to!(items => items@));
                                }
                                focused_in(items@, 0)
                            },
                            _ => None,
                        }
                    },
                    None => None,
                };
                match in_nodes {
                    Some(n) => Some(n),
                    None => match entry_index_from(entries@, "floating_nodes"@, 0) {
                        Some(k) => {
                            proof {
                                lemma_entry_index_from(entries@, "floating_nodes"@, 0);
                                assert(decreases_to!(v => entries));
                                assert(decreases_to!(entries => entries@));
                                assert(decreases_to!(entries@ => entries@[k]));
                                assert(decreases_to!(entries@[k] => entries@[k].1));
                            }
                            match entries@[k].1 {
                                Json::Array(items) => {
                                    proof {
                                        assert(decreases_to!(entries@[k].1 => items));
                                        assert(decreases_to!(items => items@));
                                    }
                                    focused_in(items@, 0)
                                },
                                _ => None,
                            }
                        },
                        None => None,
                    },
                }
            },
            _ => None,
        }
    }
}

/// The first focused node found walking `items[i..]` in order.
pub open spec fn focused_in(items: Seq<Json>, i: int) -> Option<Json>
    decreases items, items.len() - i,
{
    if i < 0 || i >= items.len() {
        None
    } else {
        match focused_node(items[i]) {
            Some(n) => Some(n),
            None => focused_in(items, i + 1),
        }
    }
}


/// Index of the first entry whose key is `key`.
fn entry_index(entries: &Vec<(String, Json)>, key: &str) -> (r: Option<usize>)
    ensures
        r matches Some(k) ==> entry_index_from(entries@, key@, 0) == Some(k as int) && k
            < entries.len(),
        r is None ==> entry_index_from(entries@, key@, 0) is None,
{
    let mut i: usize = 0;
    while i < entries.len()
        invariant
            i <= entries.len(),
            entry_index_from(entries@, key@, 0) == entry_index_from(entries@, key@, i as int),
        decreases entries.len() - i,
    {
        if str_eq(entries[i].0.as_str(), key) {
            return Some(i);
        }
        i = i + 1;
    }
    None
}

/// The first focused node of a compositor tree (`"focused": true`), searching
/// depth-first through `nodes` and then `floating_nodes`.
pub fn find_focused_node(value: &Json) -> (r: Option<&Json>)
    ensures
        r matches Some(n) ==> focused_node(*value) == Some(*n),
        r is None ==> focused_node(*value) is None,
    decreases *value, 0int,
{
    let focused = match value.get("focused") {
        Some(f) => f.as_bool(),
        None => None,
    };
    if focused == Some(true) {
        return Some(value);
    }
    let entries = match value {
        Json::Object(entries) => entries,
        _ => return None,
    };
    let ghost in_nodes = match entry_index_from(entries@, "nodes"@, 0) {
        Some(k) => match entries@[k].1 {
            Json::Array(items) => focused_in(items@, 0),
            _ => None,
        },
        None => None,
    };
    match entry_index(entries, "nodes") {
        Some(k) => match &entries[k].1 {
            Json::Array(items) => {
                proof {
                    assert(decreases_to!(*value => entries));
                    assert(decreases_to!(entries => entries@));
                    assert(decreases_to!(entries@ => entries@[k as int]));
                    assert(decreases_to!(entries@[k as int] => entries@[k as int].1));
                    assert(decreases_to!(entries@[k as int].1 => *items));
                    assert(decreases_to!(*items => items@));
                }
                let mut j: usize = 0;
                #[verifier::loop_isolation(false)]
                while j < items.len()
                    invariant
                        j <= items.len(),
                        focused_in(items@, 0) == focused_in(items@, j as int),
                    decreases items.len() - j,
                {
                    proof {
                        assert(decreases_to!(items@ => items@[j as int]));
                    }
                    match find_focused_node(&items[j]) {
                        Some(n) => {
                            return Some(n);
                        },
                        None => {},
                    }
                    j = j + 1;
                }
            },
            _ => {},
        },
        None => {},
    }
    assert(in_nodes is None);
    match entry_index(entries, "floating_nodes") {
        Some(k) => match &entries[k].1 {
            Json::Array(items) => {
                proof {
                    assert(decreases_to!(*value => entries));
                    assert(decreases_to!(entries => entries@));
                    assert(decreases_to!(entries@ => entries@[k as int]));
                    assert(decreases_to!(entries@[k as int] => entries@[k as int].1));
                    assert(decreases_to!(entries@[k as int].1 => *items));
                    assert(decreases_to!(*items => items@));
                }
                let mut j: usize = 0;
                #[verifier::loop_isolation(false)]
                while j < items.len()
                    invariant
                        j <= items.len(),
                        focused_in(items@, 0) == focused_in(items@, j as int),
                    decreases items.len() - j,
                {
                    proof {
                        assert(decreases_to!(items@ => items@[j as int]));
                    }
                    match find_focused_node(&items[j]) {
                        Some(n) => {
                            return Some(n);
                        },
                        None => {},
                    }
                    j = j + 1;
                }
                None
            },
            _ => None,
        },
        None => None,
    }
}

} // verus!
