//! The wall clock and fresh identifiers.
use vstd::prelude::*;

verus! {

/// `chrono::Utc::now()` rendered by `DateTime::to_rfc3339`: the current time. Nothing is
/// promised of the text, since it depends on when the call is made.
#[verifier::external_body]
pub(crate) fn current_time() -> (r: String) {
    chrono::Utc::now().to_rfc3339()
}

/// A lower-case hexadecimal digit.
pub open spec fn is_lower_hex(c: char) -> bool {
    ('0' <= c && c <= '9') || ('a' <= c && c <= 'f')
}

/// The hyphenated lower-case text of a random (version 4, RFC variant) UUID:
/// `xxxxxxxx-xxxx-4xxx-yxxx-xxxxxxxxxxxx` with `y` one of `8`, `9`, `a`, `b`.
pub open spec fn is_v4_uuid_text(s: Seq<char>) -> bool {
    &&& s.len() == 36
    &&& forall|i: int|
        0 <= i < 36 ==> if i == 8 || i == 13 || i == 18 || i == 23 {
            s[i] == '-'
        } else {
            is_lower_hex(#[trigger] s[i])
        }
    &&& s[14] == '4'
    &&& (s[19] == '8' || s[19] == '9' || s[19] == 'a' || s[19] == 'b')
}

/// `uuid::Uuid::new_v4()` rendered by `to_string`: a random identifier. The crate sets the
/// version and variant bits and renders a UUID hyphenated in lower case; which identifier comes
/// out is left open.
#[verifier::external_body]
pub(crate) fn new_record_id() -> (r: String)
    ensures
        is_v4_uuid_text(r@),
{
    uuid::Uuid::new_v4().to_string()
}

} // verus!
