//! Text transformations that outside code computes: HTML character
//! references (`html_escape`) and upper case (`str::to_uppercase`).
use vstd::prelude::*;

verus! {

/// What `html_escape::decode_html_entities` returns for a text.
pub uninterp spec fn html_entities_decoded(s: Seq<char>) -> Seq<char>;

/// `html_escape::decode_html_entities`: each named, decimal or hexadecimal
/// character reference that ends with `;` is replaced by what it stands for.
/// Claimed: the result depends on `s` alone (named `html_entities_decoded`),
/// and a text without `&` comes back unchanged (the search for a reference
/// starts at an `&`; without one the input is returned as it is).
#[verifier::external_body]
pub(crate) fn decode_html_entities(s: &str) -> (r: String)
    ensures
        r@ == html_entities_decoded(s@),
        !s@.contains('&') ==> r@ == s@,
{
    html_escape::decode_html_entities(s).into_owned()
}

/// What `str::to_uppercase` returns for a text.
pub uninterp spec fn uppercased(s: Seq<char>) -> Seq<char>;

/// `str::to_uppercase`: the text in upper case by the Unicode case tables.
/// Claimed: the result depends on `s` alone (named `uppercased`).
#[verifier::external_body]
pub(crate) fn to_uppercase(s: &str) -> (r: String)
    ensures
        r@ == uppercased(s@),
{
    s.to_uppercase()
}

} // verus!
