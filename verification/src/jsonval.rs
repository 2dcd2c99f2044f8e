//! Trusted boundary to serde_json, used for the one place the loop's logic
//! parses JSON itself: a tool call's argument payload is parsed to a value
//! before being handed to the tool's executor.

use vstd::prelude::*;

verus! {

#[verifier::external_type_specification]
#[verifier::external_body]
pub struct ExValue(serde_json::Value);

#[verifier::external_type_specification]
#[verifier::external_body]
pub struct ExJsonError(serde_json::Error);

/// Whether serde_json accepts `s` as a JSON document.
pub uninterp spec fn json_parse_ok(s: Seq<char>) -> bool;

/// Relies on `serde_json::from_str::<Value>`: whether parsing succeeds is a
/// function of the text alone.
#[verifier::external_body]
pub fn parse_json_value(s: &str) -> (r: Result<serde_json::Value, serde_json::Error>)
    ensures
        r is Ok == json_parse_ok(s@),
{
    serde_json::from_str(s)
}

/// Relies on `serde_json::Error`'s `Display` impl for a human-readable
/// description; nothing is assumed about the text.
#[verifier::external_body]
pub fn json_error_text(e: &serde_json::Error) -> String {
    format!("{}", e)
}

} // verus!
