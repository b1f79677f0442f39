//! Trusted boundary to serde_json for the small JSON payloads the
//! mirror protocol exchanges: an array of relative file paths.
use vstd::prelude::*;

verus! {

/// The JSON text serde_json writes for this list of names.
pub uninterp spec fn json_of_names(names: Seq<Seq<char>>) -> Seq<char>;

/// Relies on serde_json::to_string for `Vec<String>`: serialising a list
/// of strings into memory cannot fail, and the output text is a function
/// of the names alone.
#[verifier::external_body]
pub fn encode_name_list(names: &Vec<String>) -> (r: String)
    ensures
        r@ == json_of_names(names.deep_view()),
{
    match serde_json::to_string(names) {
        Ok(s) => s,
        Err(_) => String::new(),
    }
}

/// The list of names serde_json reads from the text, when the text is a
/// JSON array of strings: a function of the text alone.
pub uninterp spec fn names_of_json(text: Seq<char>) -> Option<Seq<Seq<char>>>;

/// Relies on serde_json::from_str for `Vec<String>`: the result depends on
/// the text alone.
#[verifier::external_body]
pub fn decode_name_list(text: &str) -> (r: Option<Vec<String>>)
    ensures
        r.deep_view() == names_of_json(text@),
{
    match serde_json::from_str::<Vec<String>>(text) {
        Ok(v) => Some(v),
        Err(_) => None,
    }
}

} // verus!
