//! JSON documents as the container tools print them, held as plain values,
//! and the lookups that read them.

use vstd::prelude::*;

verus! {

/// A JSON value. Numbers keep the text that the JSON printer gives them and,
/// where they are integers in the range of `i64`, that integer. Arrays and
/// objects keep their compact JSON text as well; object entries come in the
/// order the parser's map walks them.
#[derive(Debug, PartialEq, Eq)]
pub enum JsonValue {
    Null,
    Bool(bool),
    Number { text: String, integer: Option<i64> },
    Str(String),
    Array { items: Vec<JsonValue>, text: String },
    Object { entries: Vec<(String, JsonValue)>, text: String },
}

/// The value stored under `key` in an object's entries (the first such entry).
pub open spec fn lookup(entries: Seq<(String, JsonValue)>, key: Seq<char>) -> Option<JsonValue>
    decreases entries.len(),
{
    if entries.len() == 0 {
        None
    } else if entries[0].0@ == key {
        Some(entries[0].1)
    } else {
        lookup(entries.drop_first(), key)
    }
}

/// `v[key]` for an object `v`; nothing for any other value.
pub open spec fn get(v: JsonValue, key: Seq<char>) -> Option<JsonValue> {
    match v {
        JsonValue::Object { entries, .. } => lookup(entries@, key),
        _ => None,
    }
}

/// The views of a list of key literals.
pub open spec fn key_views(keys: Seq<&str>) -> Seq<Seq<char>> {
    keys.map_values(|k: &str| k@)
}

/// The first of `keys` under which `entries` hold a non-null value.
pub open spec fn pick_in(entries: Seq<(String, JsonValue)>, keys: Seq<Seq<char>>) -> Option<JsonValue>
    decreases keys.len(),
{
    if keys.len() == 0 {
        None
    } else {
        match lookup(entries, keys[0]) {
            Some(x) => if x is Null {
                pick_in(entries, keys.drop_first())
            } else {
                Some(x)
            },
            None => pick_in(entries, keys.drop_first()),
        }
    }
}

/// The value under the first of `keys` present (and not null) in the object `v`.
pub open spec fn pick_value(v: JsonValue, keys: Seq<Seq<char>>) -> Option<JsonValue> {
    match v {
        JsonValue::Object { entries, .. } => pick_in(entries@, keys),
        _ => None,
    }
}

/// A value as text: a string as it is, anything else as JSON prints it.
pub open spec fn value_text(v: JsonValue) -> Seq<char> {
    match v {
        JsonValue::Null => "null"@,
        JsonValue::Bool(b) => if b { "true"@ } else { "false"@ },
        JsonValue::Number { text, .. } => text@,
        JsonValue::Str(s) => s@,
        JsonValue::Array { text, .. } => text@,
        JsonValue::Object { text, .. } => text@,
    }
}

/// The text of the value under the first present key, or the empty string.
pub open spec fn pick_text(v: JsonValue, keys: Seq<Seq<char>>) -> Seq<char> {
    match pick_value(v, keys) {
        Some(x) => value_text(x),
        None => Seq::empty(),
    }
}

/// The integer a value holds, as `Value::as_i64` gives it.
pub open spec fn as_int(v: JsonValue) -> Option<i64> {
    match v {
        JsonValue::Number { integer, .. } => integer,
        _ => None,
    }
}

/// The integer under the first present key, or 0.
pub open spec fn pick_int(v: JsonValue, keys: Seq<Seq<char>>) -> i64 {
    match pick_value(v, keys) {
        Some(x) => match as_int(x) {
            Some(i) => i,
            None => 0,
        },
        None => 0,
    }
}

/// The value stored under `key` in the entries.
pub fn lookup_exec<'a>(entries: &'a Vec<(String, JsonValue)>, key: &String) -> (r: Option<
    &'a JsonValue,
>)
    ensures
        match r {
            Some(x) => lookup(entries@, key@) == Some(*x),
            None => lookup(entries@, key@) is None,
        },
{
    let mut i: usize = 0;
    assert(entries@.subrange(0, entries@.len() as int) =~= entries@);
    while i < entries.len()
        invariant
            i <= entries@.len(),
            lookup(entries@, key@) == lookup(entries@.subrange(i as int, entries@.len() as int), key@),
        decreases entries@.len() - i,
    {
        let ghost rest = entries@.subrange(i as int, entries@.len() as int);
        assert(rest.drop_first() =~= entries@.subrange(i + 1, entries@.len() as int));
        if entries[i].0 == *key {
            return Some(&entries[i].1);
        }
        i = i + 1;
    }
    None
}

/// `v[key]`: the value stored under `key` if `v` is an object.
pub fn get_exec<'a>(v: &'a JsonValue, key: &str) -> (r: Option<&'a JsonValue>)
    ensures
        match r {
            Some(x) => get(*v, key@) == Some(*x),
            None => get(*v, key@) is None,
        },
{
    match v {
        JsonValue::Object { entries, .. } => {
            let k = String::from_str(key);
            lookup_exec(entries, &k)
        },
        _ => None,
    }
}

/// The value under the first of `keys` that the object `v` holds and that is not null.
pub fn pick<'a>(v: &'a JsonValue, keys: &[&str]) -> (r: Option<&'a JsonValue>)
    ensures
        match r {
            Some(x) => pick_value(*v, key_views(keys@)) == Some(*x),
            None => pick_value(*v, key_views(keys@)) is None,
        },
{
    match v {
        JsonValue::Object { entries, .. } => {
            let ghost all = key_views(keys@);
            assert(pick_value(*v, all) == pick_in(entries@, all));
            let mut i: usize = 0;
            assert(all.subrange(0, all.len() as int) =~= all);
            while i < keys.len()
                invariant
                    i <= keys@.len(),
                    all == key_views(keys@),
                    pick_value(*v, all) == pick_in(entries@, all),
                    pick_in(entries@, all) == pick_in(entries@, all.subrange(i as int, all.len() as int)),
                decreases keys@.len() - i,
            {
                let ghost rest = all.subrange(i as int, all.len() as int);
                assert(rest.drop_first() =~= all.subrange(i + 1, all.len() as int));
                assert(rest[0] == keys@[i as int]@);
                assert(rest.len() > 0);
                let k = String::from_str(keys[i]);
                assert(k@ == rest[0]);
                match lookup_exec(entries, &k) {
                    Some(x) => {
                        if !is_null(x) {
                            assert(pick_in(entries@, rest) == Some(*x));
                            return Some(x);
                        }
                    },
                    None => {},
                }
                i = i + 1;
            }
            None
        },
        _ => None,
    }
}

/// Whether `v` is JSON `null`.
pub fn is_null(v: &JsonValue) -> (r: bool)
    ensures
        r == (*v is Null),
{
    match v {
        JsonValue::Null => true,
        _ => false,
    }
}

/// A value as text: a string as it is, anything else as JSON prints it.
pub fn val_string(v: &JsonValue) -> (r: String)
    ensures
        r@ == value_text(*v),
{
    match v {
        JsonValue::Null => String::from_str("null"),
        JsonValue::Bool(b) => if *b {
            String::from_str("true")
        } else {
            String::from_str("false")
        },
        JsonValue::Number { text, .. } => text.clone(),
        JsonValue::Str(s) => s.clone(),
        JsonValue::Array { text, .. } => text.clone(),
        JsonValue::Object { text, .. } => text.clone(),
    }
}

/// The text under the first present key of `keys`, or the empty string.
pub fn pick_str(v: &JsonValue, keys: &[&str]) -> (r: String)
    ensures
        r@ == pick_text(*v, key_views(keys@)),
{
    match pick(v, keys) {
        Some(x) => val_string(x),
        None => String::new(),
    }
}

/// The integer under the first present key of `keys`, or 0.
pub fn pick_i64(v: &JsonValue, keys: &[&str]) -> (r: i64)
    ensures
        r == pick_int(*v, key_views(keys@)),
{
    match pick(v, keys) {
        Some(x) => match x {
            JsonValue::Number { integer, .. } => match integer {
                Some(i) => *i,
                None => 0,
            },
            _ => 0,
        },
        None => 0,
    }
}

} // verus!
