use vstd::prelude::*;

verus! {

/// A JSON value.
pub enum Json {
    Null,
    Bool(bool),
    /// A number, as its text.
    Number(String),
    Str(String),
    Array(Vec<Json>),
    Object(Vec<(String, Json)>),
}

#[verifier::external_type_specification]
#[verifier::external_body]
pub struct ExValue(serde_json::Value);

/// The JSON value that `text` holds, if it parses.
pub uninterp spec fn json_of(text: Seq<u8>) -> Option<Json>;

/// Relies on serde_json's `from_slice` into a `Value`, converted variant by
/// variant.
#[verifier::external_body]
pub fn parse_json(text: &[u8]) -> (r: Option<Json>)
    ensures
        r == json_of(text@),
{
    match serde_json::from_slice::<serde_json::Value>(text) {
        Ok(v) => Some(from_value(&v)),
        Err(_) => None,
    }
}

/// Relies on serde_json's `Value` variants: converts one for one, for
/// `parse_json`.
#[verifier::external_body]
fn from_value(v: &serde_json::Value) -> Json {
    match v {
        serde_json::Value::Null => Json::Null,
        serde_json::Value::Bool(b) => Json::Bool(*b),
        serde_json::Value::Number(n) => Json::Number(n.to_string()),
        serde_json::Value::String(s) => Json::Str(s.clone()),
        serde_json::Value::Array(a) => Json::Array(a.iter().map(from_value).collect()),
        serde_json::Value::Object(o) => Json::Object(o.iter().map(|(k, x)| (k.clone(), from_value(x))).collect()),
    }
}

/// The value of the first entry with this key.
pub open spec fn field_in(entries: Seq<(String, Json)>, key: Seq<char>) -> Option<Json>
    decreases entries.len(),
{
    if entries.len() == 0 {
        None
    } else if entries[0].0@ == key {
        Some(entries[0].1)
    } else {
        field_in(entries.drop_first(), key)
    }
}

/// The value at `key` of an object.
pub open spec fn json_field(doc: Json, key: Seq<char>) -> Option<Json> {
    match doc {
        Json::Object(entries) => field_in(entries@, key),
        _ => None,
    }
}

/// The string at `key` of an object.
pub open spec fn json_string_at(doc: Json, key: Seq<char>) -> Option<Seq<char>> {
    match json_field(doc, key) {
        Some(Json::Str(s)) => Some(s@),
        _ => None,
    }
}

/// Where the first entry with this key stands.
fn key_index(entries: &Vec<(String, Json)>, key: &str) -> (r: Option<usize>)
    ensures
        match r {
            Some(i) => i < entries@.len() && entries@[i as int].0@ == key@
                && field_in(entries@, key@) == Some(entries@[i as int].1),
            None => field_in(entries@, key@) is None,
        },
{
    let k = key.to_owned();
    let ghost es = entries@;
    assert(es.subrange(0, es.len() as int) == es);
    let mut i: usize = 0;
    while i < entries.len()
        invariant
            i <= entries.len(),
            es == entries@,
            k@ == key@,
            field_in(es, key@) == field_in(es.subrange(i as int, es.len() as int), key@),
        decreases entries.len() - i,
    {
        let ghost rest = es.subrange(i as int, es.len() as int);
        assert(rest[0] == es[i as int]);
        assert(rest.drop_first() == es.subrange(i + 1, es.len() as int));
        if entries[i].0 == k {
            return Some(i);
        }
        i = i + 1;
    }
    None
}

/// The string at `key` of the object `doc`.
pub fn string_field(doc: &Json, key: &str) -> (r: Option<String>)
    ensures
        r.deep_view() == json_string_at(*doc, key@),
{
    match doc {
        Json::Object(entries) => match key_index(entries, key) {
            Some(i) => match &entries[i].1 {
                Json::Str(s) => Some(s.clone()),
                _ => None,
            },
            None => None,
        },
        _ => None,
    }
}

/// Whether the value is a string.
pub open spec fn is_str(j: Option<Json>) -> bool {
    j matches Some(Json::Str(_))
}

/// The elements of the `data` of an event document: an object with string
/// `version`, `standard` and `event` and an array `data`, or the same four
/// as an array in that order. Anything else has none.
pub open spec fn event_items(doc: Json) -> Seq<Json> {
    match doc {
        Json::Object(entries) => if is_str(field_in(entries@, "version"@)) && is_str(field_in(entries@, "standard"@))
            && is_str(field_in(entries@, "event"@)) {
            match field_in(entries@, "data"@) {
                Some(Json::Array(items)) => items@,
                _ => Seq::empty(),
            }
        } else {
            Seq::empty()
        },
        Json::Array(xs) => if xs@.len() == 4 && xs@[0] is Str && xs@[1] is Str && xs@[2] is Str {
            match xs@[3] {
                Json::Array(items) => items@,
                _ => Seq::empty(),
            }
        } else {
            Seq::empty()
        },
        _ => Seq::empty(),
    }
}

fn is_string_field(entries: &Vec<(String, Json)>, key: &str) -> (r: bool)
    ensures
        r == is_str(field_in(entries@, key@)),
{
    match key_index(entries, key) {
        Some(i) => matches!(entries[i].1, Json::Str(_)),
        None => false,
    }
}

/// Takes the data elements out of an event document.
pub fn event_data(doc: Json) -> (r: Vec<Json>)
    ensures
        r@ == event_items(doc),
{
    match doc {
        Json::Object(entries) => {
            let mut entries = entries;
            let ok = is_string_field(&entries, "version") && is_string_field(&entries, "standard")
                && is_string_field(&entries, "event");
            if !ok {
                return Vec::new();
            }
            match key_index(&entries, "data") {
                Some(i) => {
                    let (_, v) = entries.remove(i);
                    match v {
                        Json::Array(items) => items,
                        _ => Vec::new(),
                    }
                },
                None => Vec::new(),
            }
        },
        Json::Array(xs) => {
            let mut xs = xs;
            if xs.len() == 4 && matches!(xs[0], Json::Str(_)) && matches!(xs[1], Json::Str(_)) && matches!(xs[2], Json::Str(_)) {
                match xs.pop() {
                    Some(Json::Array(items)) => items,
                    _ => Vec::new(),
                }
            } else {
                Vec::new()
            }
        },
        _ => Vec::new(),
    }
}

} // verus!
