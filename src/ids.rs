use vstd::prelude::*;

verus! {

/// Whether a string is accepted as an absolute URL.
pub uninterp spec fn url_parses(s: Seq<char>) -> bool;

/// Relies on `uuid::Uuid::new_v4` and its `Display`: a random version-4
/// identifier in hyphenated lower-case form, 36 characters long.
#[verifier::external_body]
pub(crate) fn fresh_uuid() -> (r: String)
    ensures
        r@.len() == 36,
{
    uuid::Uuid::new_v4().to_string()
}

/// Relies on `url::Url::parse`: whether the text parses as a URL.
#[verifier::external_body]
pub(crate) fn parse_url_ok(s: &str) -> (r: bool)
    ensures
        r == url_parses(s@),
{
    url::Url::parse(s).is_ok()
}

/// A fresh identifier for a locally created draft.
pub fn new_draft_id() -> (r: String)
    ensures
        r@.len() == 36,
{
    fresh_uuid()
}

/// Whether an account's server address can be used to connect.
pub fn server_url_is_valid(s: &String) -> (r: bool)
    ensures
        r == url_parses(s@),
{
    parse_url_ok(s.as_str())
}

} // verus!
