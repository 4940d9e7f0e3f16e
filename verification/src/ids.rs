//! Fresh identifiers for profiles and repositories.
use vstd::prelude::*;

verus! {

/// A lower-case hexadecimal digit.
pub open spec fn is_lower_hex(c: char) -> bool {
    ('0' <= c && c <= '9') || ('a' <= c && c <= 'f')
}

/// The hyphenated text form of a random (version 4) UUID: 36 characters,
/// lower-case hex digits with `-` at positions 8, 13, 18 and 23, the version
/// digit `4` at position 14 and a variant digit of `8`, `9`, `a` or `b` at
/// position 19.
pub open spec fn uuid_shaped(s: Seq<char>) -> bool {
    &&& s.len() == 36
    &&& forall|i: int|
        0 <= i < 36 ==> if i == 8 || i == 13 || i == 18 || i == 23 {
            #[trigger] s[i] == '-'
        } else {
            is_lower_hex(s[i])
        }
    &&& s[14] == '4'
    &&& (s[19] == '8' || s[19] == '9' || s[19] == 'a' || s[19] == 'b')
}

/// A fresh random identifier: `uuid::Uuid::new_v4()` in its `Display` form.
/// Its value is random, so the contract does not fix it; it states the shape
/// that the crate's formatter gives every UUID (`fmt.rs`, `format_hyphenated`,
/// lower-case) and the version and variant bits that `new_v4` sets
/// (`v4.rs`).
#[verifier::external_body]
pub(crate) fn new_id() -> (id: String)
    ensures
        uuid_shaped(id@),
{
    uuid::Uuid::new_v4().to_string()
}

} // verus!
