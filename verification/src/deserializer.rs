//! Structured deserialization: a generic JSON value tree and strict typed
//! accessors over it.
//!
//! The text is parsed by serde_json behind a trusted boundary and converted
//! into the library's own [`JsonValue`] tree; everything that reads the tree
//! is verified. The accessors never coerce: a string is only read from a
//! string node, an unsigned integer only from a non-negative integral
//! numeric node, an array only from an array node.

use vstd::prelude::*;
use crate::errors::Error;
use crate::strutil::{push_char, str_eq};

verus! {

/// A parsed JSON document.
///
/// A number carries the unsigned integer it denotes, where it denotes one
/// (mirroring serde_json's `as_u64`: non-negative integers within `u64`
/// only, no coercion), together with its textual form for diagnostics.
#[derive(Debug, PartialEq)]
pub enum JsonValue {
    Null,
    Bool(bool),
    Number { as_unsigned: Option<u64>, repr: String },
    Str(String),
    Array(Vec<JsonValue>),
    Object(Vec<(String, JsonValue)>),
}

/// serde_json's parsed document type, opaque to the verifier; values of it
/// only pass through the trusted conversion below.
#[verifier::external_type_specification]
#[verifier::external_body]
pub struct ExSerdeValue(serde_json::Value);

/// The JSON tree that strict JSON parsing yields for a text, or `None` where
/// the text is not valid JSON. The tree is a function of the text alone.
pub uninterp spec fn json_tree_of(s: Seq<char>) -> Option<JsonValue>;

/// Relies on `serde_json::from_str::<serde_json::Value>`: strict JSON
/// parsing with no repair, whose result depends on the text alone
/// (serde_json's object maps iterate in key order). The converted tree
/// mirrors the parsed document; `value_to_tree` carries each variant over
/// one to one.
#[verifier::external_body]
fn parse_json_text(raw: &str) -> (r: Option<JsonValue>)
    ensures
        r == json_tree_of(raw@),
{
    match serde_json::from_str::<serde_json::Value>(raw) {
        Ok(v) => Some(value_to_tree(&v)),
        Err(_) => None,
    }
}

/// Relies on serde_json's `Value` accessors: converts each variant of the
/// parsed document, one arm per variant, moving the fields over.
#[verifier::external_body]
fn value_to_tree(v: &serde_json::Value) -> JsonValue {
    match v {
        serde_json::Value::Null => JsonValue::Null,
        serde_json::Value::Bool(b) => JsonValue::Bool(*b),
        serde_json::Value::Number(n) => JsonValue::Number {
            as_unsigned: n.as_u64(),
            repr: n.to_string(),
        },
        serde_json::Value::String(s) => JsonValue::Str(s.clone()),
        serde_json::Value::Array(a) => JsonValue::Array(a.iter().map(value_to_tree).collect()),
        serde_json::Value::Object(m) => JsonValue::Object(
            m.iter().map(|(k, x)| (k.clone(), value_to_tree(x))).collect(),
        ),
    }
}

/// Parses a repaired payload text into a JSON tree; text that is not valid
/// JSON is a `MalformedPayload` carrying the context.
pub fn parse_json_string(raw_json: &String, context: &str) -> (r: Result<JsonValue, Error>)
    ensures
        match json_tree_of(raw_json@) {
            Some(t) => r == Ok::<JsonValue, Error>(t),
            None => match r {
                Err(e) => e matches Error::MalformedPayload { context: c } && c@ == context@,
                Ok(_) => false,
            },
        },
{
    match parse_json_text(raw_json.as_str()) {
        Some(t) => Ok(t),
        None => Err(Error::MalformedPayload { context: context.to_owned() }),
    }
}

/// A short textual form of a node, for diagnostics.
pub open spec fn spec_repr(v: JsonValue) -> Seq<char> {
    match v {
        JsonValue::Null => "null"@,
        JsonValue::Bool(b) => if b {
            "true"@
        } else {
            "false"@
        },
        JsonValue::Number { as_unsigned: _, repr } => repr@,
        JsonValue::Str(s) => seq!['"'] + s@ + seq!['"'],
        JsonValue::Array(_) => "[...]"@,
        JsonValue::Object(_) => "{...}"@,
    }
}

/// Renders a node for an error message.
pub fn repr_of(v: &JsonValue) -> (r: String)
    ensures
        r@ == spec_repr(*v),
{
    match v {
        JsonValue::Null => String::from_str("null"),
        JsonValue::Bool(b) => {
            if *b {
                String::from_str("true")
            } else {
                String::from_str("false")
            }
        },
        JsonValue::Number { as_unsigned: _, repr } => repr.clone(),
        JsonValue::Str(s) => {
            let mut r = String::new();
            push_char(&mut r, '"');
            r.append(s.as_str());
            push_char(&mut r, '"');
            proof {
                assert(r@ =~= spec_repr(*v));
            }
            r
        },
        JsonValue::Array(_) => String::from_str("[...]"),
        JsonValue::Object(_) => String::from_str("{...}"),
    }
}

/// The value under `field` in an object's pair list: the first pair with
/// that key.
pub open spec fn pairs_lookup(pairs: Seq<(String, JsonValue)>, field: Seq<char>) -> Option<
    JsonValue,
>
    decreases pairs.len(),
{
    if pairs.len() == 0 {
        None
    } else if pairs[0].0@ == field {
        Some(pairs[0].1)
    } else {
        pairs_lookup(pairs.skip(1), field)
    }
}

/// The value under `field`, where `v` is an object that has the field.
pub open spec fn spec_field(v: JsonValue, field: Seq<char>) -> Option<JsonValue> {
    match v {
        JsonValue::Object(pairs) => pairs_lookup(pairs@, field),
        _ => None,
    }
}

/// Looks `field` up in an object node; `None` where the node is no object
/// or has no such field.
pub fn get_field<'a>(v: &'a JsonValue, field: &str) -> (r: Option<&'a JsonValue>)
    ensures
        match r {
            Some(node) => spec_field(*v, field@) == Some(*node),
            None => spec_field(*v, field@) is None,
        },
{
    match v {
        JsonValue::Object(pairs) => {
            let n = pairs.len();
            let mut i: usize = 0;
            proof {
                assert(pairs@.skip(0) =~= pairs@);
            }
            while i < n
                invariant
                    i <= n,
                    n == pairs@.len(),
                    spec_field(*v, field@) == pairs_lookup(pairs@, field@),
                    forall|j: int| 0 <= j < i ==> pairs@[j].0@ != field@,
                    pairs_lookup(pairs@, field@) == pairs_lookup(pairs@.skip(i as int), field@),
                decreases n - i,
            {
                if str_eq(pairs[i].0.as_str(), field) {
                    proof {
                        assert(pairs@.skip(i as int)[0] == pairs@[i as int]);
                        assert(pairs@.skip(i as int).len() > 0);
                        assert(pairs@.skip(i as int)[0].0@ == field@);
                        assert(pairs_lookup(pairs@.skip(i as int), field@) == Some(
                            pairs@[i as int].1,
                        ));
                        assert(spec_field(*v, field@) == Some(pairs@[i as int].1));
                    }
                    return Some(&pairs[i].1);
                }
                i = i + 1;
                proof {
                    assert(pairs@.skip(i - 1).skip(1) =~= pairs@.skip(i as int));
                    assert(pairs@.skip(i - 1)[0] == pairs@[i - 1]);
                }
            }
            proof {
                assert(pairs@.skip(n as int) =~= Seq::<(String, JsonValue)>::empty());
            }
            None
        },
        _ => None,
    }
}

/// The string a strict as-string read yields for a node.
pub open spec fn spec_as_str(v: JsonValue) -> Option<Seq<char>> {
    match v {
        JsonValue::Str(s) => Some(s@),
        _ => None,
    }
}

/// Reads a string from a string node; every other node is a
/// `FieldTypeMismatch` naming the field, the node's text and the context.
pub fn deserialize_str(object: &JsonValue, field: &str, context: &str) -> (r: Result<
    String,
    Error,
>)
    ensures
        match spec_as_str(*object) {
            Some(sv) => r matches Ok(s) && s@ == sv,
            None => r matches Err(e) && field_type_error(e, field@, "string"@, *object, context@),
        },
{
    match object {
        JsonValue::Str(s) => Ok(s.clone()),
        _ => Err(
            Error::FieldTypeMismatch {
                field: field.to_owned(),
                expected_type: String::from_str("string"),
                actual: repr_of(object),
                context: context.to_owned(),
            },
        ),
    }
}

/// The error shape of a failed typed read: the right kind, naming the field,
/// the expected type, the offending node's text and the context.
pub open spec fn field_type_error(
    e: Error,
    field: Seq<char>,
    expected: Seq<char>,
    node: JsonValue,
    context: Seq<char>,
) -> bool {
    match e {
        Error::FieldTypeMismatch { field: f, expected_type: t, actual: a, context: c } => {
            &&& f@ == field
            &&& t@ == expected
            &&& a@ == spec_repr(node)
            &&& c@ == context
        },
        _ => false,
    }
}

/// The unsigned integer a strict as-unsigned read yields for a node.
pub open spec fn spec_as_u64(v: JsonValue) -> Option<u64> {
    match v {
        JsonValue::Number { as_unsigned, repr: _ } => as_unsigned,
        _ => None,
    }
}

/// Reads an unsigned integer from a non-negative integral numeric node;
/// every other node is a `FieldTypeMismatch`.
pub fn deserialize_u64(object: &JsonValue, field: &str, context: &str) -> (r: Result<u64, Error>)
    ensures
        match spec_as_u64(*object) {
            Some(n) => r == Ok::<u64, Error>(n),
            None => r matches Err(e) && field_type_error(e, field@, "u64"@, *object, context@),
        },
{
    match object {
        JsonValue::Number { as_unsigned: Some(n), repr: _ } => Ok(*n),
        _ => Err(
            Error::FieldTypeMismatch {
                field: field.to_owned(),
                expected_type: String::from_str("u64"),
                actual: repr_of(object),
                context: context.to_owned(),
            },
        ),
    }
}

/// The element list a strict as-array read yields for a node.
pub open spec fn spec_as_array(v: JsonValue) -> Option<Seq<JsonValue>> {
    match v {
        JsonValue::Array(a) => Some(a@),
        _ => None,
    }
}

/// Reads the elements of an array node; every other node is a
/// `FieldTypeMismatch`.
pub fn deserialize_array<'a>(object: &'a JsonValue, field: &str, context: &str) -> (r: Result<
    &'a Vec<JsonValue>,
    Error,
>)
    ensures
        match spec_as_array(*object) {
            Some(elems) => r matches Ok(a) && a@ == elems,
            None => r matches Err(e) && field_type_error(e, field@, "array"@, *object, context@),
        },
{
    match object {
        JsonValue::Array(a) => Ok(a),
        _ => Err(
            Error::FieldTypeMismatch {
                field: field.to_owned(),
                expected_type: String::from_str("array"),
                actual: repr_of(object),
                context: context.to_owned(),
            },
        ),
    }
}

} // verus!
