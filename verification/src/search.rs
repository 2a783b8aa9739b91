//! Substring search: find the needle's first byte with a fast byte search,
//! then compare what follows it.
use vstd::prelude::*;
use vstd::slice::slice_subrange;
use crate::ascii::lemma_fold_two_forms;
use crate::case::{byte_eq, bytes_eq, CaseSensitivity};

verus! {

/// `found` is the position of the first byte of `haystack` that is `n1` or
/// `n2`, or `None` where there is no such byte.
pub open spec fn is_first_of(haystack: Seq<u8>, n1: u8, n2: u8, found: Option<usize>) -> bool {
    match found {
        Some(i) => {
            &&& i < haystack.len()
            &&& (haystack[i as int] == n1 || haystack[i as int] == n2)
            &&& forall|k: int| 0 <= k < i ==> #[trigger] haystack[k] != n1 && haystack[k] != n2
        },
        None => forall|k: int|
            0 <= k < haystack.len() ==> #[trigger] haystack[k] != n1 && haystack[k] != n2,
    }
}

/// `memchr::memchr`, not proved here. Its documentation: the index of the
/// first occurrence of `needle` in `haystack`, less than the haystack's
/// length, or `None` if there is none.
pub assume_specification[ memchr::memchr ](needle: u8, haystack: &[u8]) -> (found: Option<usize>)
    ensures
        is_first_of(haystack@, needle, needle, found),
;

/// `memchr::memchr2`, not proved here. Its documentation: the index of the
/// first occurrence of one of the two needle bytes in `haystack`, less than
/// the haystack's length, or `None` if there is none.
pub assume_specification[ memchr::memchr2 ](needle1: u8, needle2: u8, haystack: &[u8]) -> (found:
    Option<usize>)
    ensures
        is_first_of(haystack@, needle1, needle2, found),
;

/// `needle` stands in `haystack` at position `p`, under the case rule.
pub open spec fn occurs_at(cs: CaseSensitivity, haystack: Seq<u8>, needle: Seq<u8>, p: int)
    -> bool {
    0 <= p && p + needle.len() <= haystack.len() && bytes_eq(
        cs,
        haystack.subrange(p, p + needle.len()),
        needle,
    )
}

/// A needle that is not empty stands somewhere in `haystack`. An empty
/// needle is contained in nothing.
pub open spec fn contains_bytes(cs: CaseSensitivity, haystack: Seq<u8>, needle: Seq<u8>)
    -> bool {
    needle.len() > 0 && exists|p: int| #[trigger] occurs_at(cs, haystack, needle, p)
}

/// An occurrence of a needle is a match of its first byte, followed by an
/// occurrence of the rest.
pub proof fn lemma_occurs_split(cs: CaseSensitivity, haystack: Seq<u8>, needle: Seq<u8>, p: int)
    requires
        needle.len() > 0,
        0 <= p,
        p + needle.len() <= haystack.len(),
    ensures
        occurs_at(cs, haystack, needle, p) == (byte_eq(cs, haystack[p], needle[0]) && bytes_eq(
            cs,
            haystack.subrange(p + 1, p + needle.len()),
            needle.subrange(1, needle.len() as int),
        )),
{
    let whole = haystack.subrange(p, p + needle.len());
    let tail = haystack.subrange(p + 1, p + needle.len());
    let rest = needle.subrange(1, needle.len() as int);
    if occurs_at(cs, haystack, needle, p) {
        assert(whole[0] == haystack[p]);
        assert(byte_eq(cs, whole[0], needle[0]));
        assert forall|i: int| 0 <= i < tail.len() implies byte_eq(cs, #[trigger] tail[i], rest[i]) by {
            assert(tail[i] == whole[i + 1]);
            assert(byte_eq(cs, whole[i + 1], needle[i + 1]));
        }
    }
    if byte_eq(cs, haystack[p], needle[0]) && bytes_eq(cs, tail, rest) {
        assert forall|i: int| 0 <= i < whole.len() implies byte_eq(
            cs,
            #[trigger] whole[i],
            needle[i],
        ) by {
            if i > 0 {
                assert(whole[i] == tail[i - 1]);
                assert(byte_eq(cs, tail[i - 1], rest[i - 1]));
            }
        }
    }
}

/// The position of the first byte of `haystack` that equals `first` under
/// the case rule: one byte is searched for under the exact rule, the two
/// case forms of `first` under the folding rule.
fn find_first_byte(cs: CaseSensitivity, first: u8, haystack: &[u8]) -> (found: Option<usize>)
    ensures
        match found {
            Some(i) => {
                &&& i < haystack@.len()
                &&& byte_eq(cs, haystack@[i as int], first)
                &&& forall|k: int| 0 <= k < i ==> !byte_eq(cs, #[trigger] haystack@[k], first)
            },
            None => forall|k: int|
                0 <= k < haystack@.len() ==> !byte_eq(cs, #[trigger] haystack@[k], first),
        },
{
    match cs {
        CaseSensitivity::CaseSensitive => memchr::memchr(first, haystack),
        CaseSensitivity::AsciiCaseInsensitive => {
            let lo = first.to_ascii_lowercase();
            let up = first.to_ascii_uppercase();
            let found = memchr::memchr2(lo, up, haystack);
            proof {
                assert forall|k: int| 0 <= k < haystack@.len() implies byte_eq(
                    cs,
                    #[trigger] haystack@[k],
                    first,
                ) == (haystack@[k] == lo || haystack@[k] == up) by {
                    lemma_fold_two_forms(haystack@[k], first);
                }
            }
            found
        },
    }
}

/// Whether `needle` occurs in `haystack` under the case rule. An empty
/// needle occurs nowhere.
pub fn contains_subslice(haystack: &[u8], needle: &[u8], cs: CaseSensitivity) -> (r: bool)
    ensures
        r == contains_bytes(cs, haystack@, needle@),
{
    let len = haystack.len();
    let needle_len = needle.len();
    if needle_len == 0 {
        return false;
    }
    let first = needle[0];
    let rest = slice_subrange(needle, 1, needle_len);
    let mut pos: usize = 0;
    loop
        invariant
            len == haystack@.len(),
            needle_len == needle@.len(),
            needle_len > 0,
            first == needle@[0],
            rest@ == needle@.subrange(1, needle_len as int),
            pos <= len,
            forall|p: int| 0 <= p < pos ==> !occurs_at(cs, haystack@, needle@, p),
        decreases len - pos,
    {
        let remaining = slice_subrange(haystack, pos, len);
        match find_first_byte(cs, first, remaining) {
            Some(offset) => {
                let at = pos + offset;
                proof {
                    assert(remaining@[offset as int] == haystack@[at as int]);
                    assert forall|p: int| pos <= p < at implies !occurs_at(
                        cs,
                        haystack@,
                        needle@,
                        p,
                    ) by {
                        assert(remaining@[p - pos] == haystack@[p]);
                        if p + needle_len <= len {
                            lemma_occurs_split(cs, haystack@, needle@, p);
                        }
                    }
                }
                if len - at < needle_len {
                    assert forall|p: int| !occurs_at(cs, haystack@, needle@, p) by {
                    }
                    return false;
                }
                let tail = slice_subrange(haystack, at + 1, at + needle_len);
                proof {
                    lemma_occurs_split(cs, haystack@, needle@, at as int);
                }
                if cs.eq_bytes(tail, rest) {
                    assert(occurs_at(cs, haystack@, needle@, at as int));
                    return true;
                }
                pos = at + 1;
            },
            None => {
                assert forall|p: int| !occurs_at(cs, haystack@, needle@, p) by {
                    if pos <= p && p + needle_len <= len {
                        assert(remaining@[p - pos] == haystack@[p]);
                        lemma_occurs_split(cs, haystack@, needle@, p);
                    }
                }
                return false;
            },
        }
    }
}

} // verus!
