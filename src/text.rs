//! Normalisation of identifying text: usernames and emails are compared trimmed
//! and in lower case, other fields trimmed.

use vstd::prelude::*;

verus! {

/// `s` without its leading and trailing whitespace.
pub uninterp spec fn trimmed(s: Seq<char>) -> Seq<char>;

/// `s` in lower case.
pub uninterp spec fn lowercased(s: Seq<char>) -> Seq<char>;

/// Relies on `str::trim`: the text without leading and trailing Unicode
/// whitespace; it depends on the text alone.
#[verifier::external_body]
fn trim_text(s: &str) -> (r: String)
    ensures
        r@ == trimmed(s@),
{
    s.trim().to_string()
}

/// Relies on `str::to_lowercase`: the text in lower case; it depends on the text alone.
#[verifier::external_body]
fn lowercase_text(s: &str) -> (r: String)
    ensures
        r@ == lowercased(s@),
{
    s.to_lowercase()
}

/// A field as stored: trimmed.
pub fn trim(s: &str) -> (r: String)
    ensures
        r@ == trimmed(s@),
{
    trim_text(s)
}

/// An identifying field as stored: trimmed, then in lower case.
pub fn trim_lowercase(s: &str) -> (r: String)
    ensures
        r@ == lowercased(trimmed(s@)),
{
    let t = trim_text(s);
    lowercase_text(t.as_str())
}

} // verus!
