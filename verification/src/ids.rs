//! Random identifiers.

use vstd::prelude::*;

verus! {

/// Whether the character is a hexadecimal digit in lower case.
pub open spec fn hex_digit(c: char) -> bool {
    ('0' <= c && c <= '9') || ('a' <= c && c <= 'f')
}

/// Whether the text has the form of a UUID: five groups of hexadecimal digits in
/// lower case with hyphens between them.
pub open spec fn uuid_shaped(s: Seq<char>) -> bool {
    s.len() == 36 && forall|i: int|
        0 <= i < 36 ==> if i == 8 || i == 13 || i == 18 || i == 23 {
            #[trigger] s[i] == '-'
        } else {
            hex_digit(s[i])
        }
}

/// `Uuid::new_v4` and its `Display`: a random UUID in hyphenated lower-case form.
/// Which one it is rests on chance.
#[verifier::external_body]
pub(crate) fn new_uuid() -> (s: String)
    ensures
        uuid_shaped(s@),
{
    uuid::Uuid::new_v4().to_string()
}

} // verus!
