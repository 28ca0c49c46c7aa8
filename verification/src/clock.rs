//! What depends on the moment: time stamps and fresh identifiers.

use vstd::prelude::*;

verus! {

/// Whether `c` is a hexadecimal digit in lower case.
pub open spec fn is_hex(c: char) -> bool {
    '0' <= c <= '9' || 'a' <= c <= 'f'
}

/// Whether `s` has the form of a version 7 UUID: 36 characters, hyphens behind 8, 12, 16 and 20
/// hexadecimal digits, and the digit 7 for the version.
pub open spec fn is_uuid_v7(s: Seq<char>) -> bool {
    &&& s.len() == 36
    &&& forall|i: int|
        0 <= i < 36 ==> if i == 8 || i == 13 || i == 18 || i == 23 {
            #[trigger] s[i] == '-'
        } else {
            is_hex(s[i])
        }
    &&& s[14] == '7'
}

/// `Uuid::now_v7` of uuid, as text: a fresh identifier. It depends on the time and on chance; of
/// every outcome only its form is stated.
#[verifier::external_body]
pub(crate) fn fresh_id() -> (r: String)
    ensures
        is_uuid_v7(r@),
{
    uuid::Uuid::now_v7().to_string()
}

/// Whether `s` ends like a time stamp in UTC.
pub open spec fn is_utc(s: Seq<char>) -> bool {
    s.len() > 6 && s.skip(s.len() - 6) == "+00:00"@
}

/// `Utc::now` of chrono, as RFC 3339 text: the present moment in UTC. Only the offset at the end
/// is the same every time.
#[verifier::external_body]
pub(crate) fn now_rfc3339() -> (r: String)
    ensures
        is_utc(r@),
{
    chrono::Utc::now().to_rfc3339()
}

} // verus!
