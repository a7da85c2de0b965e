//! JSON string literals, as `serde_json` writes them, for the JSON texts this
//! crate assembles.
use vstd::prelude::*;

verus! {

/// The JSON text of the string `s`, quotes and escapes included, as
/// `serde_json` writes it.
pub uninterp spec fn json_quoted(s: Seq<char>) -> Seq<char>;

/// `serde_json::to_string` on a string slice: the JSON string literal for `s`.
/// Serializing a `str` cannot fail; the result is named by [`json_quoted`].
#[verifier::external_body]
pub(crate) fn json_string(s: &str) -> (r: String)
    ensures
        r@ == json_quoted(s@),
{
    serde_json::to_string(s).unwrap_or_default()
}

} // verus!
