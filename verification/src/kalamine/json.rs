//! The two shapes of JSON text that the symbols of a layout are written in:
//! one string, and a list of strings. Decoding is left to `serde_json`.

use vstd::prelude::*;

verus! {

/// The error of `serde_json`. The library only tells it from success.
#[verifier::external_type_specification]
#[verifier::external_body]
pub struct ExJsonError(serde_json::Error);

/// The string that a JSON text denotes when it is one JSON string, spaces
/// around it allowed, and `None` for every other text.
pub uninterp spec fn json_string_value(json: Seq<char>) -> Option<Seq<char>>;

/// The strings that a JSON text denotes when it is one JSON array of
/// strings, and `None` for every other text.
pub uninterp spec fn json_string_list_value(json: Seq<char>) -> Option<Seq<Seq<char>>>;

/// Calls `serde_json::from_str::<String>`. The contract only names what
/// comes back: the decoded string where the call succeeds, and no string
/// where it fails. Nothing is claimed about which texts decode to what.
#[verifier::external_body]
pub(crate) fn json_string(json: &str) -> (res: Result<String, serde_json::Error>)
    ensures
        match res {
            Ok(s) => json_string_value(json@) == Some(s@),
            Err(_) => json_string_value(json@) is None,
        },
{
    serde_json::from_str::<String>(json)
}

/// Calls `serde_json::from_str::<Vec<String>>`. The contract only names
/// what comes back: the decoded strings, in order, where the call succeeds,
/// and no list where it fails.
#[verifier::external_body]
pub(crate) fn json_string_list(json: &str) -> (res: Result<Vec<String>, serde_json::Error>)
    ensures
        match res {
            Ok(v) => json_string_list_value(json@) == Some(v.deep_view()),
            Err(_) => json_string_list_value(json@) is None,
        },
{
    serde_json::from_str::<Vec<String>>(json)
}

} // verus!
