//! The one call that this crate makes into `serde_json`.

use vstd::prelude::*;

verus! {

/// `serde_json::Error`, carried through and never looked into.
#[verifier::external_type_specification]
#[verifier::external_body]
pub struct ExJsonError(serde_json::Error);

/// The JSON text of an array of strings, as `serde_json::to_string` writes
/// it for a `Vec<String>`.
pub uninterp spec fn json_array_text(items: Seq<Seq<char>>) -> Seq<char>;

/// Serialises `items` with `serde_json::to_string`.
///
/// Not proved, and taken from the source of `serde_json`: that the call
/// succeeds on every vector of strings, since it writes into a byte vector,
/// which takes every write, and neither a vector nor a string chooses to
/// fail or holds a map; and that the text which comes back is
/// `json_array_text` of the items, that is, that it depends on nothing but
/// the strings and their order.
#[verifier::external_body]
pub(crate) fn to_json_array(items: &Vec<String>) -> (encoded: Result<String, serde_json::Error>)
    ensures
        encoded is Ok,
        encoded matches Ok(text) ==> text@ == json_array_text(items.deep_view()),
{
    serde_json::to_string(items)
}

} // verus!
