//! A plain model of a parsed JSON document, and the trusted boundary to the
//! generic JSON parser that produces it.

use vstd::prelude::*;

verus! {

/// A parsed JSON value, as far as the chat-log document shape reads it.
///
/// Object entries keep the order and multiplicity the parser hands out; a
/// number's value is not kept, since no field of the chat-log shape is
/// numeric and a numeric field can only ever be a shape mismatch.
#[derive(Debug, PartialEq)]
pub enum Json {
    Null,
    Bool(bool),
    Num,
    Str(String),
    Arr(Vec<Json>),
    Obj(Vec<(String, Json)>),
}

/// The value of the first entry of `entries` whose key spells `key`, if any.
pub open spec fn obj_get(entries: Seq<(String, Json)>, key: Seq<char>) -> Option<Json>
    decreases entries.len(),
{
    if entries.len() == 0 {
        None
    } else if entries[0].0@ == key {
        Some(entries[0].1)
    } else {
        obj_get(entries.drop_first(), key)
    }
}

/// Look a key up among the entries of a JSON object: the first entry whose
/// key spells `key`, if any.
pub fn obj_lookup<'a>(entries: &'a Vec<(String, Json)>, key: &String) -> (r: Option<&'a Json>)
    ensures
        match r {
            Some(j) => obj_get(entries@, key@) == Some(*j),
            None => obj_get(entries@, key@) is None,
        },
{
    let mut i: usize = 0;
    proof {
        assert(entries@.skip(0) =~= entries@);
    }
    while i < entries.len()
        invariant
            0 <= i <= entries@.len(),
            obj_get(entries@, key@) == obj_get(entries@.skip(i as int), key@),
        decreases entries@.len() - i,
    {
        proof {
            assert(entries@.skip(i as int)[0] == entries@[i as int]);
            assert(entries@.skip(i as int).drop_first() =~= entries@.skip(i as int + 1));
        }
        if entries[i].0 == *key {
            return Some(&entries[i].1);
        }
        i = i + 1;
    }
    proof {
        assert(entries@.skip(i as int) =~= Seq::<(String, Json)>::empty());
    }
    None
}

/// Relies on serde_json::Value existing as a type; it is declared opaque
/// here, only to be carried from the parser into the conversion below.
#[verifier::external_type_specification]
#[verifier::external_body]
pub struct ExValue(serde_json::Value);

/// Relies on serde_json::Value: each variant of a parsed document is carried
/// over one for one, field by field. A number's value is dropped on purpose
/// (see `Json`).
#[verifier::external_body]
fn value_to_json(v: serde_json::Value) -> Json {
    match v {
        serde_json::Value::Null => Json::Null,
        serde_json::Value::Bool(b) => Json::Bool(b),
        serde_json::Value::Number(_) => Json::Num,
        serde_json::Value::String(s) => Json::Str(s),
        serde_json::Value::Array(a) => Json::Arr(a.into_iter().map(value_to_json).collect()),
        serde_json::Value::Object(m) => Json::Obj(
            m.into_iter().map(|(k, x)| (k, value_to_json(x))).collect(),
        ),
    }
}

/// The JSON document a text denotes, as `Json` holds it: `None` exactly for
/// texts that are not well-formed JSON. A function of the characters alone.
pub uninterp spec fn json_of(s: Seq<char>) -> Option<Json>;

/// Relies on serde_json::from_str: a well-formed JSON text parses to its one
/// document and any other text to an error, and which of the two, and the
/// document itself, depend on the characters of the text alone.
#[verifier::external_body]
pub(crate) fn parse_json(s: &str) -> (r: Option<Json>)
    ensures
        r == json_of(s@),
{
    match serde_json::from_str::<serde_json::Value>(s) {
        Ok(v) => Some(value_to_json(v)),
        Err(_) => None,
    }
}

} // verus!
