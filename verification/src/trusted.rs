//! The few places where the library leans on outside code: slug
//! derivation, identifier parsing, and single-character pushes onto a
//! `String`.

use vstd::prelude::*;

verus! {

/// What `slug::slugify` returns for a given sequence of characters.
/// The result depends on the characters alone.
pub uninterp spec fn slug_of(s: Seq<char>) -> Seq<char>;

/// Relies on slug::slugify: derives a link- and filename-safe slug
/// from arbitrary text; the result is a function of the text alone.
#[verifier::external_body]
pub(crate) fn slugify(s: &str) -> (r: String)
    ensures
        r@ == slug_of(s@),
{
    slug::slugify(s)
}

/// What `uuid::Uuid::parse_str` accepts: `Some` of the 128-bit value
/// when the text is a well-formed identifier (hex digits, in any of the
/// accepted layouts), `None` otherwise. The result depends on the
/// characters alone.
pub uninterp spec fn uuid_of(s: Seq<char>) -> Option<u128>;

/// Relies on uuid::Uuid::parse_str: parses an identifier string, or
/// reports that it is malformed.
#[verifier::external_body]
pub(crate) fn parse_uuid(s: &str) -> (r: Option<u128>)
    ensures
        r == uuid_of(s@),
{
    match uuid::Uuid::parse_str(s) {
        Ok(u) => Some(u.as_u128()),
        Err(_) => None,
    }
}

/// Relies on String::push: appends exactly the one character.
#[verifier::external_body]
pub(crate) fn push_char(s: &mut String, c: char)
    ensures
        final(s)@ == old(s)@.push(c),
{
    s.push(c);
}

} // verus!
