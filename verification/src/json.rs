//! Writing values out as JSON.

use vstd::prelude::*;
use vstd::string::*;

verus! {

/// What `serde_json::to_string` makes of a list of strings: the JSON text of
/// the array, or nothing where it reports an error.
pub uninterp spec fn json_array_text(items: Seq<Seq<char>>) -> Option<Seq<char>>;

/// Calls `serde_json::to_string` on a list of strings. The result depends on
/// the strings alone: it is the text that `json_array_text` names, and `None`
/// where the call reports an error.
#[verifier::external_body]
pub(crate) fn to_json_array(items: &Vec<String>) -> (r: Option<String>)
    ensures
        r.deep_view() == json_array_text(items.deep_view()),
{
    serde_json::to_string(items).ok()
}

} // verus!
