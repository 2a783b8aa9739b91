//! Case sensitivity of attribute values, as the selector compiler records it
//! and as it applies to one element.
use vstd::prelude::*;
use selectors::attr::CaseSensitivity as Unconditional;
use selectors::attr::ParsedCaseSensitivity as Parsed;
use crate::ascii::ascii_lower;

verus! {

/// The case rule that a selector was compiled with. It may still depend on
/// the element that is matched.
#[derive(Clone, Copy, Debug, PartialEq, Eq, Structural)]
pub enum ParsedCaseSensitivity {
    /// The selector carries the flag `s`.
    ExplicitCaseSensitive,
    /// The selector carries the flag `i`.
    AsciiCaseInsensitive,
    /// No flag, and the attribute's values are case-sensitive in HTML.
    CaseSensitive,
    /// No flag, and the attribute's values are case-insensitive in HTML:
    /// folded on HTML elements, exact on foreign content.
    AsciiCaseInsensitiveIfInHtmlElementInHtmlDocument,
}

/// The case rule that applies to one element.
#[derive(Clone, Copy, Debug, PartialEq, Eq, Structural)]
pub enum CaseSensitivity {
    /// Values are compared byte for byte.
    CaseSensitive,
    /// Values are compared after ASCII case folding.
    AsciiCaseInsensitive,
}

/// The rule that `parsed` gives on an element that is, or is not, an HTML
/// element.
pub open spec fn unconditional(parsed: ParsedCaseSensitivity, is_html_element: bool)
    -> CaseSensitivity {
    match parsed {
        ParsedCaseSensitivity::AsciiCaseInsensitiveIfInHtmlElementInHtmlDocument => {
            if is_html_element {
                CaseSensitivity::AsciiCaseInsensitive
            } else {
                CaseSensitivity::CaseSensitive
            }
        },
        ParsedCaseSensitivity::CaseSensitive | ParsedCaseSensitivity::ExplicitCaseSensitive => {
            CaseSensitivity::CaseSensitive
        },
        ParsedCaseSensitivity::AsciiCaseInsensitive => CaseSensitivity::AsciiCaseInsensitive,
    }
}

/// Two bytes are equal under a case rule.
pub open spec fn byte_eq(cs: CaseSensitivity, x: u8, y: u8) -> bool {
    match cs {
        CaseSensitivity::CaseSensitive => x == y,
        CaseSensitivity::AsciiCaseInsensitive => ascii_lower(x) == ascii_lower(y),
    }
}

/// Two byte strings are equal under a case rule: they have one length and
/// are equal byte by byte.
pub open spec fn bytes_eq(cs: CaseSensitivity, a: Seq<u8>, b: Seq<u8>) -> bool {
    a.len() == b.len() && forall|i: int| 0 <= i < a.len() ==> byte_eq(cs, #[trigger] a[i], b[i])
}

impl ParsedCaseSensitivity {
    /// Calls `selectors::attr::ParsedCaseSensitivity::to_unconditional`, not
    /// proved here. Its source resolves the conditional rule to the folding
    /// one on an HTML element and to the exact one elsewhere, the two exact
    /// rules to the exact one, and the folding rule to itself.
    #[verifier::external_body]
    pub(crate) fn to_unconditional(self, is_html_element: bool) -> (r: CaseSensitivity)
        ensures
            r == unconditional(self, is_html_element),
    {
        let parsed = match self {
            Self::ExplicitCaseSensitive => Parsed::ExplicitCaseSensitive,
            Self::AsciiCaseInsensitive => Parsed::AsciiCaseInsensitive,
            Self::CaseSensitive => Parsed::CaseSensitive,
            Self::AsciiCaseInsensitiveIfInHtmlElementInHtmlDocument => {
                Parsed::AsciiCaseInsensitiveIfInHtmlElementInHtmlDocument
            },
        };
        match parsed.to_unconditional(is_html_element) {
            Unconditional::CaseSensitive => CaseSensitivity::CaseSensitive,
            Unconditional::AsciiCaseInsensitive => CaseSensitivity::AsciiCaseInsensitive,
        }
    }
}

impl CaseSensitivity {
    /// Calls `selectors::attr::CaseSensitivity::eq`, not proved here. Its
    /// source compares the two slices with `==` under the exact rule and
    /// with `eq_ignore_ascii_case` under the folding rule.
    #[verifier::external_body]
    pub(crate) fn eq_bytes(self, a: &[u8], b: &[u8]) -> (r: bool)
        ensures
            r == bytes_eq(self, a@, b@),
    {
        let rule = match self {
            Self::CaseSensitive => Unconditional::CaseSensitive,
            Self::AsciiCaseInsensitive => Unconditional::AsciiCaseInsensitive,
        };
        rule.eq(a, b)
    }
}

/// Under the exact rule, two byte strings are equal exactly when they are
/// the same sequence.
pub proof fn lemma_exact_is_identity(a: Seq<u8>, b: Seq<u8>)
    ensures
        bytes_eq(CaseSensitivity::CaseSensitive, a, b) == (a == b),
{
    if bytes_eq(CaseSensitivity::CaseSensitive, a, b) {
        assert(a =~= b);
    }
}

} // verus!
