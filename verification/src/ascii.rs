//! ASCII case folding and the whitespace of attribute values.
use vstd::prelude::*;

verus! {

/// The ASCII lower-case form of a byte: `A`..=`Z` become `a`..=`z`, every
/// other byte stays as it is.
pub open spec fn ascii_lower(b: u8) -> u8 {
    if 0x41 <= b <= 0x5a {
        (b + 0x20) as u8
    } else {
        b
    }
}

/// The ASCII upper-case form of a byte: `a`..=`z` become `A`..=`Z`, every
/// other byte stays as it is.
pub open spec fn ascii_upper(b: u8) -> u8 {
    if 0x61 <= b <= 0x7a {
        (b - 0x20) as u8
    } else {
        b
    }
}

/// `u8::to_ascii_lowercase` of std, not proved here: it maps the ASCII
/// letters `A`..=`Z` to `a`..=`z` and leaves every other byte unchanged.
pub assume_specification[ u8::to_ascii_lowercase ](b: &u8) -> (r: u8)
    ensures
        r == ascii_lower(*b),
;

/// `u8::to_ascii_uppercase` of std, not proved here: it maps the ASCII
/// letters `a`..=`z` to `A`..=`Z` and leaves every other byte unchanged.
pub assume_specification[ u8::to_ascii_uppercase ](b: &u8) -> (r: u8)
    ensures
        r == ascii_upper(*b),
;

/// The bytes that separate the tokens of an attribute value: space, line
/// feed, carriage return, tab and form feed.
pub open spec fn attr_whitespace(b: u8) -> bool {
    b == 0x20 || b == 0x0a || b == 0x0d || b == 0x09 || b == 0x0c
}

/// Whether `b` is one of the five whitespace bytes of attribute values.
#[inline]
pub fn is_attr_whitespace(b: u8) -> (r: bool)
    ensures
        r == attr_whitespace(b),
{
    b == 0x20 || b == 0x0a || b == 0x0d || b == 0x09 || b == 0x0c
}

/// Exact equality of two byte strings.
pub fn bytes_equal(a: &[u8], b: &[u8]) -> (r: bool)
    ensures
        r == (a@ == b@),
{
    if a.len() != b.len() {
        return false;
    }
    let mut i: usize = 0;
    while i < a.len()
        invariant
            a@.len() == b@.len(),
            i <= a@.len(),
            forall|k: int| 0 <= k < i ==> a@[k] == b@[k],
        decreases a@.len() - i,
    {
        if a[i] != b[i] {
            return false;
        }
        i += 1;
    }
    assert(a@ =~= b@);
    true
}

/// A byte matches `first` without regard to ASCII case exactly when it is
/// the lower-case or the upper-case form of `first`.
pub proof fn lemma_fold_two_forms(x: u8, first: u8)
    ensures
        (ascii_lower(x) == ascii_lower(first)) == (x == ascii_lower(first) || x == ascii_upper(
            first,
        )),
{
}

} // verus!
