//! Note identifiers: 128-bit values whose text form is the hyphenated
//! lower-case hex rendering of the uuid crate.

use vstd::prelude::*;

verus! {

/// The hyphenated text form the uuid crate prints for the 128-bit value `v`.
pub uninterp spec fn uuid_str_of(v: u128) -> Seq<char>;

/// What the uuid crate's parser accepts: `Some(v)` exactly when it reads `s`
/// as the id value `v`.
pub uninterp spec fn uuid_of(s: Seq<char>) -> Option<u128>;

/// A character that can appear in the hyphenated text form of an id.
pub open spec fn uuid_char(c: char) -> bool {
    c == '-' || ('0' <= c && c <= '9') || ('a' <= c && c <= 'f')
}

/// Relies on uuid::Uuid::new_v4 (read out with as_u128): a freshly drawn
/// random id; nothing is assumed of the value.
#[verifier::external_body]
pub fn uuid_generate() -> u128 {
    uuid::Uuid::new_v4().as_u128()
}

/// Relies on uuid::Uuid's Display (reached via from_u128 and to_string): the
/// hyphenated lower-case hex form, 36 characters with hyphens exactly at
/// positions 8, 13, 18 and 23, which uuid::Uuid::parse_str reads back to the
/// same value.
#[verifier::external_body]
pub fn uuid_format(v: u128) -> (r: String)
    ensures
        r@ == uuid_str_of(v),
        r@.len() == 36,
        forall|i: int| 0 <= i < 36 ==> uuid_char(#[trigger] r@[i]),
        forall|i: int|
            0 <= i < 36 ==> ((#[trigger] r@[i] == '-') <==> (i == 8 || i == 13 || i == 18
                || i == 23)),
        uuid_of(r@) == Some(v),
{
    uuid::Uuid::from_u128(v).to_string()
}

/// Relies on uuid::Uuid::parse_str (read out with as_u128): parses a uuid
/// text form, `None` on anything it does not accept.
#[verifier::external_body]
pub fn uuid_parse(s: &str) -> (r: Option<u128>)
    ensures
        r == uuid_of(s@),
{
    match uuid::Uuid::parse_str(s) {
        Ok(u) => Some(u.as_u128()),
        Err(_) => None,
    }
}

} // verus!
