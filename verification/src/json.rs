//! The JSON reader behind the sensor model.
//!
//! Reading JSON is left to `serde_json`. This module declares the few items of
//! that crate that the sensor parser touches and states, without proof, what
//! each of them returns. The statements are phrased over [`JsonNode`], a
//! mathematical picture of a JSON value that keeps what the parser looks at:
//! the text a value prints as, and the members of an object.

use vstd::prelude::*;

verus! {

/// What the sensor parser can see of a JSON value.
pub struct JsonNode {
    /// The compact text that the value serialises to.
    pub text: Seq<char>,
    /// The members of an object, in the order the object yields them; `None`
    /// for every other kind of value.
    pub members: Option<Seq<(Seq<char>, JsonNode)>>,
}

/// `serde_json::Value`, opaque to the verifier.
#[verifier::external_type_specification]
#[verifier::external_body]
pub struct ExJsonValue(serde_json::Value);

/// `serde_json::Map`, opaque to the verifier.
#[verifier::external_type_specification]
#[verifier::external_body]
#[verifier::reject_recursive_types(K)]
#[verifier::reject_recursive_types(V)]
pub struct ExJsonMap<K, V>(serde_json::Map<K, V>);

/// `serde_json::Error`, opaque to the verifier.
#[verifier::external_type_specification]
#[verifier::external_body]
pub struct ExJsonError(serde_json::Error);

/// The value that `serde_json::from_str` reads out of a text, or `None` where
/// it reports an error.
pub uninterp spec fn json_document(text: Seq<char>) -> Option<JsonNode>;

/// What a `serde_json::Value` holds.
pub uninterp spec fn json_node(value: serde_json::Value) -> JsonNode;

/// The entries of a `serde_json::Map`, in iteration order.
pub uninterp spec fn json_members(map: serde_json::Map<String, serde_json::Value>) -> Seq<
    (Seq<char>, JsonNode),
>;

/// Calls `serde_json::from_str` for a `Value`. Assumed of it: whether it
/// succeeds, and what value it yields, depends on the text alone. The
/// contract gives that outcome the name [`json_document`] and says no more
/// of it.
#[verifier::external_body]
pub(crate) fn read_value(text: &str) -> (result: Result<serde_json::Value, serde_json::Error>)
    ensures
        match result {
            Ok(value) => json_document(text@) == Some(json_node(value)),
            Err(_) => json_document(text@) is None,
        },
{
    serde_json::from_str::<serde_json::Value>(text)
}

/// Assumed of `serde_json::Value::as_object`, as its source shows: it
/// returns the map of a value that is an object, and `None` for any other
/// value.
pub assume_specification[ serde_json::Value::as_object ](value: &serde_json::Value) -> (result:
    Option<&serde_json::Map<String, serde_json::Value>>)
    ensures
        match result {
            Some(map) => json_node(*value).members == Some(json_members(*map)),
            None => json_node(*value).members is None,
        },
;

/// Collects what `serde_json::Map::iter` yields. Assumed of it, as the
/// source of the map shows: it yields every entry once, always in the same
/// order for the same map, and no key occurs twice in a map. In a build
/// with the default features of `serde_json` that order is the order of
/// the keys; the contract does not say so.
#[verifier::external_body]
pub(crate) fn map_entries<'a>(map: &'a serde_json::Map<String, serde_json::Value>) -> (result: Vec<
    (&'a String, &'a serde_json::Value),
>)
    ensures
        result@.len() == json_members(*map).len(),
        forall|i: int|
            0 <= i < result@.len() ==> (#[trigger] result@[i]).0@ == json_members(*map)[i].0
                && json_node(*result@[i].1) == json_members(*map)[i].1,
        forall|i: int, j: int|
            0 <= i < j < result@.len() ==> (#[trigger] json_members(*map)[i]).0 != (
            #[trigger] json_members(*map)[j]).0,
{
    map.iter().collect()
}

/// Formats a value through its `Display` impl, which prints compact JSON.
/// Assumed of it: the text depends on the value alone. The contract gives
/// it the name `text` in the value's [`JsonNode`] and says no more of it.
#[verifier::external_body]
pub(crate) fn value_text(value: &serde_json::Value) -> (result: String)
    ensures
        result@ == json_node(*value).text,
{
    value.to_string()
}

} // verus!
