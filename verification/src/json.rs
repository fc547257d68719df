//! Trusted surface over `serde_json`: parsing inbound text into the
//! library's own JSON tree. This is the only place the library calls into
//! `serde_json`; everything that reads the tree afterwards is verified
//! against the named model of what the text parses to.

use vstd::prelude::*;
use crate::model::{rep, Json, JsonV};

verus! {

#[verifier::external_type_specification]
#[verifier::external_body]
pub struct ExValue(serde_json::Value);

/// Whether a piece of text is well-formed JSON, as `serde_json::from_str`
/// decides it from the text alone (its nesting limit included).
pub uninterp spec fn json_wellformed(s: Seq<char>) -> bool;

/// The tree a well-formed piece of text parses to. The parser is a function
/// of the text alone, so its result may be given a name.
pub uninterp spec fn json_model(s: Seq<char>) -> JsonV;

/// Relies on `serde_json::from_str::<Value>`: whether it succeeds, and the
/// value it yields, depend on the text alone, and it returns an error
/// rather than panicking. The parsed value is carried over into the
/// library's tree by the conversion below.
#[verifier::external_body]
pub fn parse_json_tree(text: &str) -> (r: Option<Json>)
    ensures
        r matches Some(j) ==> json_wellformed(text@) && rep(j) == json_model(text@),
        r is None ==> !json_wellformed(text@),
{
    serde_json::from_str::<serde_json::Value>(text).ok().map(|v| json_of_value(&v))
}

/// Relies on the shape of `serde_json::Value`: each variant is carried over
/// one for one, a number as its decimal text, an object field by field in
/// its own order.
#[verifier::external_body]
fn json_of_value(v: &serde_json::Value) -> (r: Json) {
    match v {
        serde_json::Value::Null => Json::Null,
        serde_json::Value::Bool(b) => Json::Bool(*b),
        serde_json::Value::Number(n) => Json::Num(n.to_string()),
        serde_json::Value::String(s) => Json::Str(s.clone()),
        serde_json::Value::Array(a) => Json::Arr(a.iter().map(json_of_value).collect()),
        serde_json::Value::Object(m) => Json::Obj(
            m.iter().map(|(k, x)| (k.clone(), json_of_value(x))).collect(),
        ),
    }
}

} // verus!
