//! Token lists: an attribute value split at separator bytes.
use vstd::prelude::*;
use vstd::slice::slice_subrange;
use crate::case::{bytes_eq, CaseSensitivity};

verus! {

/// `sep` holds, for each byte of `value`, an answer that `split_by` gives
/// on that byte.
pub open spec fn classifies<F: Fn(u8) -> bool>(split_by: F, value: Seq<u8>, sep: Seq<bool>)
    -> bool {
    sep.len() == value.len() && forall|i: int|
        0 <= i < value.len() ==> split_by.ensures((value[i],), #[trigger] sep[i])
}

/// No position from `i` up to `j` is a separator.
pub open spec fn unbroken(sep: Seq<bool>, i: int, j: int) -> bool {
    forall|k: int| i <= k < j ==> !#[trigger] sep[k]
}

/// The positions from `i` up to `j` are one token: it begins at the start
/// of the value or behind a separator, ends at a separator or at the end of
/// the value, and holds no separator. A token may be empty.
pub open spec fn is_token(sep: Seq<bool>, i: int, j: int) -> bool {
    &&& 0 <= i <= j <= sep.len()
    &&& (i == 0 || sep[i - 1])
    &&& (j == sep.len() || sep[j])
    &&& unbroken(sep, i, j)
}

/// Some token of `value`, split where `sep` says, equals `needle` in full
/// under the case rule.
pub open spec fn some_token_eq(
    cs: CaseSensitivity,
    value: Seq<u8>,
    sep: Seq<bool>,
    needle: Seq<u8>,
) -> bool {
    exists|i: int, j: int| #[trigger]
        is_token(sep, i, j) && bytes_eq(cs, value.subrange(i, j), needle)
}

/// A token that ends at a separator inside the classified part.
spec fn closed_token(sep: Seq<bool>, i: int, j: int) -> bool {
    &&& 0 <= i <= j < sep.len()
    &&& (i == 0 || sep[i - 1])
    &&& sep[j]
    &&& unbroken(sep, i, j)
}

/// Some closed token of the classified part equals `needle`.
spec fn some_closed_eq(cs: CaseSensitivity, value: Seq<u8>, sep: Seq<bool>, needle: Seq<u8>)
    -> bool {
    exists|i: int, j: int| #[trigger]
        closed_token(sep, i, j) && bytes_eq(cs, value.subrange(i, j), needle)
}

/// A token's start is fixed by its end: two unbroken runs that begin at a
/// token start and reach the same position begin at the same place.
proof fn lemma_start_unique(sep: Seq<bool>, i: int, start: int, j: int)
    requires
        0 <= i <= j <= sep.len(),
        0 <= start <= j,
        i == 0 || sep[i - 1],
        start == 0 || sep[start - 1],
        unbroken(sep, i, j),
        unbroken(sep, start, j),
    ensures
        i == start,
{
    if i < start {
        assert(!sep[start - 1]);
    }
    if start < i {
        assert(!sep[i - 1]);
    }
}

/// One more classified byte: the closed tokens are those that were closed
/// before and, where the new byte is a separator, the token that it ends.
proof fn lemma_extend(
    cs: CaseSensitivity,
    value: Seq<u8>,
    sep: Seq<bool>,
    flag: bool,
    needle: Seq<u8>,
    start: int,
)
    requires
        sep.len() < value.len(),
        0 <= start <= sep.len(),
        start == 0 || sep[start - 1],
        unbroken(sep, start, sep.len() as int),
    ensures
        some_closed_eq(cs, value, sep.push(flag), needle) == (some_closed_eq(
            cs,
            value,
            sep,
            needle,
        ) || (flag && bytes_eq(cs, value.subrange(start, sep.len() as int), needle))),
{
    let grown = sep.push(flag);
    let p = sep.len() as int;
    assert forall|i: int, j: int| closed_token(sep, i, j) implies closed_token(grown, i, j) by {
        assert(unbroken(grown, i, j)) by {
            assert forall|k: int| i <= k < j implies !#[trigger] grown[k] by {
                assert(grown[k] == sep[k]);
            }
        }
    }
    if some_closed_eq(cs, value, sep, needle) {
        let (i, j) = choose|i: int, j: int| #[trigger]
            closed_token(sep, i, j) && bytes_eq(cs, value.subrange(i, j), needle);
        assert(closed_token(grown, i, j));
    }
    if flag && bytes_eq(cs, value.subrange(start, p), needle) {
        assert(unbroken(grown, start, p)) by {
            assert forall|k: int| start <= k < p implies !#[trigger] grown[k] by {
                assert(grown[k] == sep[k]);
            }
        }
        assert(closed_token(grown, start, p));
    }
    if some_closed_eq(cs, value, grown, needle) {
        let (i, j) = choose|i: int, j: int| #[trigger]
            closed_token(grown, i, j) && bytes_eq(cs, value.subrange(i, j), needle);
        assert(unbroken(sep, i, if j < p { j } else { p })) by {
            assert forall|k: int| i <= k < j && k < p implies !#[trigger] sep[k] by {
                assert(grown[k] == sep[k]);
            }
        }
        if j < p {
            assert(grown[j] == sep[j]);
            if i > 0 {
                assert(grown[i - 1] == sep[i - 1]);
            }
            assert(closed_token(sep, i, j));
        } else {
            if i > 0 {
                assert(grown[i - 1] == sep[i - 1]);
            }
            lemma_start_unique(sep, i, start, p);
        }
    }
}

/// With every byte classified, the tokens are the closed ones and the last
/// one, which runs to the end of the value.
proof fn lemma_finish(
    cs: CaseSensitivity,
    value: Seq<u8>,
    sep: Seq<bool>,
    needle: Seq<u8>,
    start: int,
)
    requires
        sep.len() == value.len(),
        0 <= start <= sep.len(),
        start == 0 || sep[start - 1],
        unbroken(sep, start, sep.len() as int),
    ensures
        some_token_eq(cs, value, sep, needle) == (some_closed_eq(cs, value, sep, needle)
            || bytes_eq(cs, value.subrange(start, sep.len() as int), needle)),
{
    let len = sep.len() as int;
    if some_closed_eq(cs, value, sep, needle) {
        let (i, j) = choose|i: int, j: int| #[trigger]
            closed_token(sep, i, j) && bytes_eq(cs, value.subrange(i, j), needle);
        assert(is_token(sep, i, j));
    }
    if bytes_eq(cs, value.subrange(start, len), needle) {
        assert(is_token(sep, start, len));
    }
    if some_token_eq(cs, value, sep, needle) {
        let (i, j) = choose|i: int, j: int| #[trigger]
            is_token(sep, i, j) && bytes_eq(cs, value.subrange(i, j), needle);
        if j < len {
            assert(closed_token(sep, i, j));
        } else {
            lemma_start_unique(sep, i, start, len);
        }
    }
}

/// Splits `value` at the bytes that `split_by` accepts and says whether
/// some token equals `needle` in full under the case rule. Every byte of
/// `value` is handed to `split_by` once, in order.
pub fn any_token_eq<F: Fn(u8) -> bool>(
    value: &[u8],
    needle: &[u8],
    cs: CaseSensitivity,
    split_by: &F,
) -> (r: bool)
    requires
        forall|b: u8| split_by.requires((b,)),
    ensures
        exists|sep: Seq<bool>| #[trigger]
            classifies(*split_by, value@, sep) && r == some_token_eq(cs, value@, sep, needle@),
{
    let len = value.len();
    let ghost mut sep: Seq<bool> = Seq::empty();
    let mut start: usize = 0;
    let mut found = false;
    let mut p: usize = 0;
    while p < len
        invariant
            len == value@.len(),
            p <= len,
            start <= p,
            sep.len() == p,
            forall|i: int| 0 <= i < p ==> split_by.ensures((value@[i],), #[trigger] sep[i]),
            start == 0 || sep[start - 1],
            unbroken(sep, start as int, p as int),
            found == some_closed_eq(cs, value@, sep, needle@),
            forall|b: u8| split_by.requires((b,)),
        decreases len - p,
    {
        let is_sep = split_by(value[p]);
        proof {
            lemma_extend(cs, value@, sep, is_sep, needle@, start as int);
            let ghost before = sep;
            sep = sep.push(is_sep);
            assert forall|i: int| 0 <= i < p + 1 implies split_by.ensures(
                (value@[i],),
                #[trigger] sep[i],
            ) by {
                if i < p {
                    assert(sep[i] == before[i]);
                }
            }
            if !is_sep {
                assert forall|k: int| start <= k < p + 1 implies !#[trigger] sep[k] by {
                    if k < p {
                        assert(sep[k] == before[k]);
                    }
                }
            }
        }
        if is_sep {
            if !found {
                found = cs.eq_bytes(slice_subrange(value, start, p), needle);
            }
            start = p + 1;
        }
        p += 1;
    }
    proof {
        lemma_finish(cs, value@, sep, needle@, start as int);
    }
    if !found {
        found = cs.eq_bytes(slice_subrange(value, start, len), needle);
    }
    proof {
        assert(classifies(*split_by, value@, sep));
    }
    found
}

} // verus!
