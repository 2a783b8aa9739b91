use attr_matcher::ascii::bytes_equal;
use attr_matcher::search::contains_subslice;
use attr_matcher::tokens::any_token_eq;
use attr_matcher::{is_attr_whitespace, CaseSensitivity};

#[test]
fn bytes_equal_is_exact() {
    assert!(bytes_equal(b"", b""));
    assert!(bytes_equal(b"abc", b"abc"));
    assert!(!bytes_equal(b"abc", b"abd"));
    assert!(!bytes_equal(b"abc", b"ab"));
    assert!(!bytes_equal(b"ab", b"abc"));
    assert!(!bytes_equal(b"abc", b"Abc"));
}

#[test]
fn contains_subslice_finds_the_needle_anywhere() {
    let exact = CaseSensitivity::CaseSensitive;
    let fold = CaseSensitivity::AsciiCaseInsensitive;
    assert!(contains_subslice(b"Hello", b"ell", exact));
    assert!(contains_subslice(b"Hello", b"Hello", exact));
    assert!(contains_subslice(b"Hello", b"o", exact));
    assert!(!contains_subslice(b"Hello", b"", exact));
    assert!(!contains_subslice(b"", b"", fold));
    assert!(!contains_subslice(b"", b"a", exact));
    assert!(!contains_subslice(b"Hello", b"hello", exact));
    assert!(contains_subslice(b"Hello", b"hELLO", fold));
    assert!(contains_subslice(b"xxHxhello", b"HELLO", fold));
    assert!(!contains_subslice(b"Hell", b"Hello", fold));
    assert!(!contains_subslice(b"ab", b"abc", exact));
}

#[test]
fn contains_subslice_folds_letters_only() {
    let fold = CaseSensitivity::AsciiCaseInsensitive;
    assert!(!contains_subslice(b"a@b", b"a`b", fold));
    assert!(!contains_subslice(b"[", b"{", fold));
    assert!(contains_subslice(b"a[Z", b"[z", fold));
    assert!(contains_subslice(b"1-2", b"-2", fold));
}

#[test]
fn any_token_eq_compares_whole_tokens() {
    let exact = CaseSensitivity::CaseSensitive;
    let fold = CaseSensitivity::AsciiCaseInsensitive;
    assert!(any_token_eq(b"a b  c", b"b", exact, &is_attr_whitespace));
    assert!(any_token_eq(b"a b  c", b"c", exact, &is_attr_whitespace));
    assert!(any_token_eq(b"a b  c", b"", exact, &is_attr_whitespace));
    assert!(!any_token_eq(b"a b c", b"", exact, &is_attr_whitespace));
    assert!(!any_token_eq(b"a b  c", b"bc", exact, &is_attr_whitespace));
    assert!(!any_token_eq(b"a b  c", b"B", exact, &is_attr_whitespace));
    assert!(any_token_eq(b"a b  c", b"B", fold, &is_attr_whitespace));
    assert!(any_token_eq(b"a,b", b"a", exact, &|b: u8| b == b','));
    assert!(!any_token_eq(b"a,b", b"a", exact, &is_attr_whitespace));
    assert!(any_token_eq(b"", b"", exact, &is_attr_whitespace));
    assert!(any_token_eq(b"ab ", b"", exact, &is_attr_whitespace));
}
