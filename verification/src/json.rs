//! JSON-pointer extraction from a response body.
//!
//! What a JSON document denotes, and what a JSON pointer designates inside
//! it, take pages to state; both depend on the text alone, so they are given
//! names here and the one function that computes them is trusted.

use vstd::prelude::*;

verus! {

/// Whether the text parses as a JSON document.
pub uninterp spec fn json_valid(body: Seq<char>) -> bool;

/// The value a JSON pointer designates in the document, rendered as text: a
/// JSON string as its content, any other value as its JSON representation;
/// nothing when the pointer matches nothing. Meaningful only when
/// [`json_valid`] holds of the body.
pub uninterp spec fn json_pointer_value(body: Seq<char>, pointer: Seq<char>) -> Option<Seq<char>>;

/// Outcome of a pointer extraction.
pub enum JsonExtract {
    /// The body is not valid JSON.
    NotJson,
    /// The body is JSON but the pointer designates nothing.
    Missing,
    /// The designated value, rendered as text.
    Found(String),
}

/// Relies on `serde_json::from_str`, `serde_json::Value::pointer`,
/// `serde_json::Value::as_str` and `serde_json::Value::to_string`: parses
/// the body, follows the pointer, and renders the designated value — a JSON
/// string as its content, anything else as its JSON text. The result depends
/// on the body and pointer alone.
#[verifier::external_body]
pub fn extract_json_pointer(body: &str, pointer: &str) -> (r: JsonExtract)
    ensures
        r is NotJson <==> !json_valid(body@),
        r is Missing <==> (json_valid(body@) && json_pointer_value(body@, pointer@) is None),
        r matches JsonExtract::Found(s) ==> json_valid(body@) && json_pointer_value(
            body@,
            pointer@,
        ) == Some(s@),
{
    match serde_json::from_str::<serde_json::Value>(body) {
        Err(_) => JsonExtract::NotJson,
        Ok(value) => match value.pointer(pointer) {
            None => JsonExtract::Missing,
            Some(v) => JsonExtract::Found(
                match v.as_str() {
                    Some(s) => s.to_string(),
                    None => v.to_string(),
                },
            ),
        },
    }
}

} // verus!
