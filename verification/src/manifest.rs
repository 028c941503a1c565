//! The manifest writer: the ordered relative paths as a pretty-printed JSON
//! array, produced by `serde_json`.
use vstd::prelude::*;
use crate::filter::views_of;

verus! {

/// The pretty-printed JSON array that `serde_json` produces for an ordered
/// list of strings, a function of the texts alone.
pub uninterp spec fn json_array_text(paths: Seq<Seq<char>>) -> Seq<char>;

/// Relies on `serde_json::to_string_pretty`: its output is a function of the
/// serialized value alone, and serializing a vector of strings cannot fail.
#[verifier::external_body]
pub(crate) fn manifest_json(paths: &Vec<String>) -> (r: String)
    ensures
        r@ == json_array_text(views_of(paths@)),
{
    match serde_json::to_string_pretty(paths) {
        Ok(s) => s,
        // unreachable for a vector of strings: serde_json fails only on
        // values whose serialization can err, and the ensures relies on the
        // call returning the serialized text
        Err(_) => String::new(),
    }
}

} // verus!
