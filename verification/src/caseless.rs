//! ASCII case-insensitive string comparison, as used for the special-cased
//! "checked" attribute name.

use vstd::prelude::*;

verus! {

/// The ASCII lower-case image of a character: letters `A`..`Z` map to
/// `a`..`z`, every other character is unchanged.
pub open spec fn fold_ascii_char(c: char) -> char {
    if 'A' <= c && c <= 'Z' {
        ((c as u8) + 32) as char
    } else {
        c
    }
}

/// Two character sequences are equal up to ASCII case.
pub open spec fn ascii_caseless_eq(a: Seq<char>, b: Seq<char>) -> bool {
    &&& a.len() == b.len()
    &&& forall|i: int| 0 <= i < a.len() ==> fold_ascii_char(a[i]) == fold_ascii_char(b[i])
}

/// Relies on unicase::eq_ascii, which compares two strings for equality
/// ignoring ASCII case (it delegates to str::eq_ignore_ascii_case; bytes
/// outside the ASCII letters only compare equal to themselves).
#[verifier::external_body]
pub fn eq_ascii(left: &str, right: &str) -> (r: bool)
    ensures
        r == ascii_caseless_eq(left@, right@),
{
    unicase::eq_ascii(left, right)
}

} // verus!
