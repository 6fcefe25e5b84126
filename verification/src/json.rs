//! JSON documents the commands read from disk: the ownership proof handed
//! to a Bitcoin attestation and the saved scan baseline. Parsing is done by
//! `serde_json`.

use vstd::prelude::*;

verus! {

#[verifier::external_type_specification]
#[verifier::external_body]
pub struct ExJsonValue(serde_json::Value);

/// What `serde_json::from_str::<serde_json::Value>` makes of a text: the
/// parsed document, or the `Display` text of its error.
pub uninterp spec fn json_parse(text: Seq<char>) -> Result<serde_json::Value, Seq<char>>;

/// None where the text parses, else the text of the parse error.
pub open spec fn json_error(text: Seq<char>) -> Option<Seq<char>> {
    match json_parse(text) {
        Ok(_) => None,
        Err(m) => Some(m),
    }
}

/// `serde_json::from_str` into a `serde_json::Value`, its error given as
/// its `Display` text. Claimed: the result is `json_parse` of the text,
/// the same document (or the same error) for the same text.
#[verifier::external_body]
fn parse_json(text: &str) -> (r: Result<serde_json::Value, String>)
    ensures
        r matches Ok(v) ==> (json_parse(text@) matches Ok(w) && w == v),
        r matches Err(m) ==> (json_parse(text@) matches Err(e) && e == m@),
{
    serde_json::from_str::<serde_json::Value>(text).map_err(|e| e.to_string())
}

/// Parse the contents of an ownership-proof file: the document as
/// `serde_json` reads it, or its error where the contents are not JSON,
/// before anything is sent.
pub fn parse_ownership_proof(text: &str) -> (r: Result<serde_json::Value, String>)
    ensures
        r is Ok <==> json_error(text@) is None,
        r matches Err(m) ==> json_error(text@) == Some(m@),
        r matches Ok(v) ==> (json_parse(text@) matches Ok(w) && w == v),
{
    parse_json(text)
}

/// Parse the contents of the saved scan baseline: the document as
/// `serde_json` reads it, or its error.
pub fn parse_baseline(text: &str) -> (r: Result<serde_json::Value, String>)
    ensures
        r is Ok <==> json_error(text@) is None,
        r matches Err(m) ==> json_error(text@) == Some(m@),
        r matches Ok(v) ==> (json_parse(text@) matches Ok(w) && w == v),
{
    parse_json(text)
}

} // verus!
