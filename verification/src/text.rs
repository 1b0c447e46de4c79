//! Character-level text helpers: numeric parsing, whitespace, and the
//! predicates on tag names.
//!
//! `parse_i64` and `char_is_whitespace` are trusted wrappers over std;
//! everything else is verified logic on character sequences.

use vstd::prelude::*;

verus! {

/// What `i64::from_str_radix` returns on the string in the given base: the
/// denoted value, or `None` when the string does not parse. A function of
/// the string and the base alone.
pub uninterp spec fn parsed_i64(s: Seq<char>, base: u32) -> Option<i64>;

/// Relies on `i64::from_str_radix`; the base must lie in 2..=36, outside
/// which that function panics.
#[verifier::external_body]
pub(crate) fn parse_i64(s: &str, base: u32) -> (r: Option<i64>)
    requires
        2 <= base <= 36,
    ensures
        r == parsed_i64(s@, base),
{
    i64::from_str_radix(s, base).ok()
}

/// The Unicode White_Space property, as `char::is_whitespace` decides it.
pub uninterp spec fn spec_is_whitespace(c: char) -> bool;

/// Relies on `char::is_whitespace`: a property of the character alone.
#[verifier::external_body]
pub(crate) fn char_is_whitespace(c: char) -> (r: bool)
    ensures
        r == spec_is_whitespace(c),
{
    c.is_whitespace()
}

/// Whether two string slices hold the same characters.
pub fn str_eq(a: &str, b: &str) -> (r: bool)
    ensures
        r == (a@ == b@),
{
    let n = a.unicode_len();
    if n != b.unicode_len() {
        proof {
            assert(a@ != b@);
        }
        return false;
    }
    for i in 0..n
        invariant
            n == a@.len(),
            n == b@.len(),
            forall|j: int| 0 <= j < i ==> a@[j] == b@[j],
    {
        if a.get_char(i) != b.get_char(i) {
            return false;
        }
    }
    proof {
        assert(a@ =~= b@);
    }
    true
}

/// Every character of `s` is `c` (vacuously true of the empty sequence).
pub open spec fn all_char(s: Seq<char>, c: char) -> bool {
    forall|i: int| 0 <= i < s.len() ==> s[i] == c
}

/// Whether every character of `s` is `c`.
pub fn str_all_char(s: &str, c: char) -> (r: bool)
    ensures
        r == all_char(s@, c),
{
    let n = s.unicode_len();
    for i in 0..n
        invariant
            n == s@.len(),
            forall|j: int| 0 <= j < i ==> s@[j] == c,
    {
        if s.get_char(i) != c {
            return false;
        }
    }
    true
}

} // verus!
