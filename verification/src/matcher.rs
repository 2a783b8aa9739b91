//! The attribute matcher of one tag and the predicates it answers.
use vstd::prelude::*;
use vstd::slice::slice_subrange;
use lazycell::LazyCell;
use crate::ascii::{ascii_lower, attr_whitespace, bytes_equal, is_attr_whitespace};
use crate::case::{bytes_eq, unconditional, CaseSensitivity, ParsedCaseSensitivity};
use crate::memo::{cell_contents, cell_fill, cell_get, empty_cell};
use crate::names::{class_attr, class_name, id_attr, id_name};
use crate::search::{contains_bytes, contains_subslice};
use crate::tokens::{any_token_eq, classifies, some_token_eq};

verus! {

/// A byte range of the input buffer: from `start` up to `end`.
#[derive(Clone, Copy, Debug, PartialEq, Eq, Structural)]
pub struct Range {
    pub start: usize,
    pub end: usize,
}

/// Where one attribute's name and value stand in the input buffer.
#[derive(Clone, Copy, Debug, PartialEq, Eq, Structural)]
pub struct AttributeOutline {
    pub name: Range,
    pub value: Range,
}

/// One compiled attribute condition: the attribute's name in lower case, the
/// expected value as written, and the case rule for the value.
#[derive(Debug)]
pub struct CompiledAttributeExprOperand {
    pub name: Vec<u8>,
    pub value: Vec<u8>,
    pub case_sensitivity: ParsedCaseSensitivity,
}

/// What a matcher was made for: the input, the tag's attributes in document
/// order, and whether the tag is an HTML element.
pub struct Tag {
    pub input: Seq<u8>,
    pub attributes: Seq<AttributeOutline>,
    pub is_html_element: bool,
}

/// The range lies within a buffer of `len` bytes.
pub open spec fn in_bounds(range: Range, len: nat) -> bool {
    range.start <= range.end <= len
}

/// Every span of the table lies within the input.
pub open spec fn spans_in_bounds(input: Seq<u8>, attributes: Seq<AttributeOutline>) -> bool {
    forall|k: int|
        0 <= k < attributes.len() ==> in_bounds((#[trigger] attributes[k]).name, input.len())
            && in_bounds(attributes[k].value, input.len())
}

/// The bytes of the input that a range covers.
pub open spec fn bytes_at(input: Seq<u8>, range: Range) -> Seq<u8> {
    input.subrange(range.start as int, range.end as int)
}

/// An attribute name as written equals a name given in lower case: the two
/// have one length, and every byte of the first, folded to lower case, is
/// the byte of the second at its place.
pub open spec fn name_matches(written: Seq<u8>, lowercased: Seq<u8>) -> bool {
    written.len() == lowercased.len() && forall|i: int|
        0 <= i < written.len() ==> ascii_lower(#[trigger] written[i]) == lowercased[i]
}

/// The first attribute, in document order, whose name matches.
pub open spec fn find_first(input: Seq<u8>, attributes: Seq<AttributeOutline>, name: Seq<u8>)
    -> Option<AttributeOutline>
    decreases attributes.len(),
{
    if attributes.len() == 0 {
        None
    } else if name_matches(bytes_at(input, attributes[0].name), name) {
        Some(attributes[0])
    } else {
        find_first(input, attributes.drop_first(), name)
    }
}

/// The value range of the first attribute whose name matches.
pub open spec fn value_range(input: Seq<u8>, attributes: Seq<AttributeOutline>, name: Seq<u8>)
    -> Option<(usize, usize)> {
    match find_first(input, attributes, name) {
        Some(found) => Some((found.value.start, found.value.end)),
        None => None,
    }
}

/// The whitespace flags of a value: which of its bytes separate tokens.
pub open spec fn whitespace_flags(value: Seq<u8>) -> Seq<bool> {
    Seq::new(value.len(), |i: int| attr_whitespace(value[i]))
}

impl Tag {
    /// The value of the first attribute whose name matches, if there is one.
    pub open spec fn value(self, name: Seq<u8>) -> Option<Seq<u8>> {
        match find_first(self.input, self.attributes, name) {
            Some(found) => Some(bytes_at(self.input, found.value)),
            None => None,
        }
    }

    /// The case rule of an operand on this tag.
    pub open spec fn rule(self, operand: CompiledAttributeExprOperand) -> CaseSensitivity {
        unconditional(operand.case_sensitivity, self.is_html_element)
    }

    /// `[attr]`: the tag has an attribute of that name.
    pub open spec fn has_attribute(self, name: Seq<u8>) -> bool {
        find_first(self.input, self.attributes, name) is Some
    }

    /// `#id`: the `id` attribute's value is exactly `id`.
    pub open spec fn id_matches(self, id: Seq<u8>) -> bool {
        match self.value(id_name()) {
            Some(value) => value == id,
            None => false,
        }
    }

    /// `.class`: some whitespace-separated token of the `class` attribute's
    /// value is exactly `class`.
    pub open spec fn has_class(self, class: Seq<u8>) -> bool {
        match self.value(class_name()) {
            Some(value) => some_token_eq(
                CaseSensitivity::CaseSensitive,
                value,
                whitespace_flags(value),
                class,
            ),
            None => false,
        }
    }

    /// `[attr=value]`: the whole value equals the operand's value.
    pub open spec fn attr_eq(self, operand: CompiledAttributeExprOperand) -> bool {
        match self.value(operand.name@) {
            Some(value) => bytes_eq(self.rule(operand), value, operand.value@),
            None => false,
        }
    }

    /// `[attr~=value]` and its like: some token of the value, split where
    /// `sep` says, equals the operand's value.
    pub open spec fn matches_splitted_by(
        self,
        operand: CompiledAttributeExprOperand,
        sep: Seq<bool>,
    ) -> bool {
        match self.value(operand.name@) {
            Some(value) => some_token_eq(self.rule(operand), value, sep, operand.value@),
            None => false,
        }
    }

    /// `[attr^=value]`: the value begins with the operand's value.
    pub open spec fn has_attr_with_prefix(self, operand: CompiledAttributeExprOperand) -> bool {
        match self.value(operand.name@) {
            Some(value) => value.len() >= operand.value@.len() && bytes_eq(
                self.rule(operand),
                value.subrange(0, operand.value@.len() as int),
                operand.value@,
            ),
            None => false,
        }
    }

    /// `[attr$=value]`: the value ends with the operand's value.
    pub open spec fn has_attr_with_suffix(self, operand: CompiledAttributeExprOperand) -> bool {
        match self.value(operand.name@) {
            Some(value) => value.len() >= operand.value@.len() && bytes_eq(
                self.rule(operand),
                value.subrange(value.len() - operand.value@.len(), value.len() as int),
                operand.value@,
            ),
            None => false,
        }
    }

    /// `[attr*=value]`: the operand's value is not empty and occurs in the
    /// value.
    pub open spec fn has_attr_with_substring(self, operand: CompiledAttributeExprOperand)
        -> bool {
        match self.value(operand.name@) {
            Some(value) => contains_bytes(self.rule(operand), value, operand.value@),
            None => false,
        }
    }
}

/// Whether every span of the table lies within the input.
pub fn check_spans(input: &[u8], attributes: &[AttributeOutline]) -> (r: bool)
    ensures
        r == spans_in_bounds(input@, attributes@),
{
    let mut k: usize = 0;
    while k < attributes.len()
        invariant
            k <= attributes@.len(),
            forall|j: int|
                0 <= j < k ==> in_bounds((#[trigger] attributes@[j]).name, input@.len())
                    && in_bounds(attributes@[j].value, input@.len()),
        decreases attributes@.len() - k,
    {
        let a = attributes[k];
        if a.name.start > a.name.end || a.name.end > input.len() || a.value.start > a.value.end
            || a.value.end > input.len() {
            return false;
        }
        k += 1;
    }
    true
}

/// Whether an attribute name as written equals a name given in lower case.
fn name_eq(written: &[u8], lowercased: &[u8]) -> (r: bool)
    ensures
        r == name_matches(written@, lowercased@),
{
    if lowercased.len() != written.len() {
        return false;
    }
    let mut i: usize = 0;
    while i < written.len()
        invariant
            written@.len() == lowercased@.len(),
            i <= written@.len(),
            forall|j: int| 0 <= j < i ==> ascii_lower(#[trigger] written@[j]) == lowercased@[j],
        decreases written@.len() - i,
    {
        if written[i].to_ascii_lowercase() != lowercased[i] {
            return false;
        }
        i += 1;
    }
    true
}

/// Scans the table in document order for the first attribute whose name
/// matches.
fn find_attribute(input: &[u8], attributes: &[AttributeOutline], lowercased_name: &[u8]) -> (r:
    Option<AttributeOutline>)
    requires
        spans_in_bounds(input@, attributes@),
    ensures
        r == find_first(input@, attributes@, lowercased_name@),
{
    let count = attributes.len();
    let mut k: usize = 0;
    assert(attributes@.subrange(0, count as int) =~= attributes@);
    while k < count
        invariant
            count == attributes@.len(),
            k <= count,
            spans_in_bounds(input@, attributes@),
            find_first(input@, attributes@, lowercased_name@) == find_first(
                input@,
                attributes@.subrange(k as int, count as int),
                lowercased_name@,
            ),
        decreases count - k,
    {
        let a = attributes[k];
        let ghost rest = attributes@.subrange(k as int, count as int);
        assert(rest[0] == attributes@[k as int]);
        assert(rest.drop_first() =~= attributes@.subrange(k + 1, count as int));
        if name_eq(slice_subrange(input, a.name.start, a.name.end), lowercased_name) {
            return Some(a);
        }
        k += 1;
    }
    assert(attributes@.subrange(count as int, count as int).len() == 0);
    None
}

/// The remembered value of the attribute that `name_of` names: resolved on
/// the first call, read from the cell on every later one. The name is asked
/// for only when the attribute is resolved.
fn memoized_value<'i, N: Fn() -> Vec<u8>>(
    cell: &mut LazyCell<Option<(usize, usize)>>,
    input: &'i [u8],
    attributes: &[AttributeOutline],
    name_of: N,
    Ghost(name): Ghost<Seq<u8>>,
) -> (r: Option<&'i [u8]>)
    requires
        spans_in_bounds(input@, attributes@),
        name_of.requires(()),
        forall|given: Vec<u8>| name_of.ensures((), given) ==> given@ == name,
        cell_contents(*old(cell)) matches Some(held) ==> held == value_range(
            input@,
            attributes@,
            name,
        ),
    ensures
        cell_contents(*final(cell)) == Some(value_range(input@, attributes@, name)),
        cell_contents(*old(cell)) is Some ==> cell_contents(*final(cell)) == cell_contents(
            *old(cell),
        ),
        match r {
            Some(value) => find_first(input@, attributes@, name) matches Some(found)
                && value@ == bytes_at(input@, found.value),
            None => find_first(input@, attributes@, name) is None,
        },
{
    let range = match cell_get(cell) {
        Some(held) => held,
        None => {
            let given = name_of();
            let resolved = match find_attribute(input, attributes, given.as_slice()) {
                Some(found) => Some((found.value.start, found.value.end)),
                None => None,
            };
            cell_fill(cell, resolved);
            resolved
        },
    };
    proof {
        lemma_found_is_listed(input@, attributes@, name);
    }
    match range {
        Some((start, end)) => Some(slice_subrange(input, start, end)),
        None => None,
    }
}

/// What `find_first` finds is an entry of the table.
pub proof fn lemma_found_is_listed(
    input: Seq<u8>,
    attributes: Seq<AttributeOutline>,
    name: Seq<u8>,
)
    ensures
        find_first(input, attributes, name) matches Some(found) ==> attributes.contains(found),
    decreases attributes.len(),
{
    if attributes.len() > 0 {
        if name_matches(bytes_at(input, attributes[0].name), name) {
            assert(attributes[0] == attributes[0]);
        } else {
            lemma_found_is_listed(input, attributes.drop_first(), name);
            match find_first(input, attributes, name) {
                Some(found) => {
                    let tail = attributes.drop_first();
                    let k = choose|k: int| 0 <= k < tail.len() && tail[k] == found;
                    assert(attributes[k + 1] == found);
                },
                None => {},
            }
        }
    }
}

/// Evaluates the attribute conditions of selectors on one tag.
pub struct AttributeMatcher<'i> {
    input: &'i [u8],
    attributes: &'i [AttributeOutline],
    id: LazyCell<Option<(usize, usize)>>,
    class: LazyCell<Option<(usize, usize)>>,
    is_html_element: bool,
}

impl<'i> View for AttributeMatcher<'i> {
    type V = Tag;

    closed spec fn view(&self) -> Tag {
        Tag {
            input: self.input@,
            attributes: self.attributes@,
            is_html_element: self.is_html_element,
        }
    }
}

impl<'i> AttributeMatcher<'i> {
    /// The `id` attribute has been resolved and its value is remembered.
    pub closed spec fn id_resolved(&self) -> bool {
        cell_contents(self.id) is Some
    }

    /// The `class` attribute has been resolved and its value is remembered.
    pub closed spec fn class_resolved(&self) -> bool {
        cell_contents(self.class) is Some
    }

    /// The spans lie within the input, and what is remembered of `id` and
    /// `class` is what the table gives for them.
    pub closed spec fn wf(&self) -> bool {
        &&& spans_in_bounds(self.input@, self.attributes@)
        &&& cell_contents(self.id) matches Some(held) ==> held == value_range(
            self.input@,
            self.attributes@,
            id_name(),
        )
        &&& cell_contents(self.class) matches Some(held) ==> held == value_range(
            self.input@,
            self.attributes@,
            class_name(),
        )
    }

    /// A matcher for one tag, with nothing resolved yet.
    #[inline]
    pub fn new(input: &'i [u8], attributes: &'i [AttributeOutline], is_html_element: bool) -> (m:
        Self)
        requires
            spans_in_bounds(input@, attributes@),
        ensures
            m.wf(),
            m@ == (Tag { input: input@, attributes: attributes@, is_html_element }),
            !m.id_resolved(),
            !m.class_resolved(),
    {
        AttributeMatcher {
            input,
            attributes,
            id: empty_cell(),
            class: empty_cell(),
            is_html_element,
        }
    }

    #[inline]
    fn find(&self, lowercased_name: &[u8]) -> (r: Option<AttributeOutline>)
        requires
            self.wf(),
        ensures
            r == find_first(self@.input, self@.attributes, lowercased_name@),
    {
        find_attribute(self.input, self.attributes, lowercased_name)
    }

    #[inline]
    fn get_value(&self, lowercased_name: &[u8]) -> (r: Option<&'i [u8]>)
        requires
            self.wf(),
        ensures
            match r {
                Some(value) => self@.value(lowercased_name@) == Some(value@),
                None => self@.value(lowercased_name@) is None,
            },
    {
        proof {
            lemma_found_is_listed(self.input@, self.attributes@, lowercased_name@);
        }
        match self.find(lowercased_name) {
            Some(found) => Some(slice_subrange(self.input, found.value.start, found.value.end)),
            None => None,
        }
    }

    /// Resolves the attribute and hands its value to `matcher`. Without the
    /// attribute the answer is no, and `matcher` is not asked.
    #[inline]
    fn value_matches<F: Fn(&[u8]) -> bool>(&self, name: &[u8], matcher: F) -> (r: bool)
        requires
            self.wf(),
            forall|value: &[u8]| matcher.requires((value,)),
        ensures
            match self@.value(name@) {
                Some(value) => exists|actual: &[u8]|
                    actual@ == value && #[trigger] matcher.ensures((actual,), r),
                None => !r,
            },
    {
        match self.get_value(name) {
            Some(value) => matcher(value),
            None => false,
        }
    }

    /// `[attr]`: whether the tag has an attribute of that name.
    #[inline]
    pub fn has_attribute(&self, lowercased_name: &[u8]) -> (r: bool)
        requires
            self.wf(),
        ensures
            r == self@.has_attribute(lowercased_name@),
    {
        self.find(lowercased_name).is_some()
    }

    /// `#id`: whether the `id` attribute's value is exactly `id`. The first
    /// call resolves the attribute; the value is remembered from then on.
    #[inline]
    pub fn id_matches(&mut self, id: &[u8]) -> (r: bool)
        requires
            old(self).wf(),
        ensures
            r == old(self)@.id_matches(id@),
            final(self).wf(),
            final(self)@ == old(self)@,
            final(self).id_resolved(),
            final(self).class_resolved() == old(self).class_resolved(),
    {
        match memoized_value(
            &mut self.id,
            self.input,
            self.attributes,
            id_attr,
            Ghost(id_name()),
        ) {
            Some(actual_id) => bytes_equal(actual_id, id),
            None => false,
        }
    }

    /// `.class`: whether some whitespace-separated token of the `class`
    /// attribute's value is exactly `class_name`. The first call resolves
    /// the attribute; the value is remembered from then on.
    #[inline]
    pub fn has_class(&mut self, class_name: &[u8]) -> (r: bool)
        requires
            old(self).wf(),
        ensures
            r == old(self)@.has_class(class_name@),
            final(self).wf(),
            final(self)@ == old(self)@,
            final(self).class_resolved(),
            final(self).id_resolved() == old(self).id_resolved(),
    {
        match memoized_value(
            &mut self.class,
            self.input,
            self.attributes,
            class_attr,
            Ghost(crate::names::class_name()),
        ) {
            Some(class) => {
                let r = any_token_eq(
                    class,
                    class_name,
                    CaseSensitivity::CaseSensitive,
                    &is_attr_whitespace,
                );
                proof {
                    let sep = choose|sep: Seq<bool>| #[trigger]
                        classifies(is_attr_whitespace, class@, sep) && r == some_token_eq(
                            CaseSensitivity::CaseSensitive,
                            class@,
                            sep,
                            class_name@,
                        );
                    assert(sep =~= whitespace_flags(class@));
                }
                r
            },
            None => false,
        }
    }

    /// `[attr=value]`: whether the attribute's whole value equals the
    /// operand's value under the operand's case rule on this tag.
    #[inline]
    pub fn attr_eq(&self, operand: &CompiledAttributeExprOperand) -> (r: bool)
        requires
            self.wf(),
        ensures
            r == self@.attr_eq(*operand),
    {
        let case_sensitivity = operand.case_sensitivity.to_unconditional(self.is_html_element);
        let expected = operand.value.as_slice();
        let matcher = |actual_value: &[u8]| -> (r: bool)
            ensures
                r == bytes_eq(case_sensitivity, actual_value@, expected@),
            { case_sensitivity.eq_bytes(actual_value, expected) };
        self.value_matches(operand.name.as_slice(), matcher)
    }

    /// `[attr~=value]` and its like: whether some token of the attribute's
    /// value, split at the bytes that `split_by` accepts, equals the
    /// operand's value in full under the operand's case rule on this tag.
    #[inline]
    pub fn matches_splitted_by<F: Fn(u8) -> bool>(
        &self,
        operand: &CompiledAttributeExprOperand,
        split_by: F,
    ) -> (r: bool)
        requires
            self.wf(),
            forall|b: u8| split_by.requires((b,)),
        ensures
            match self@.value(operand.name@) {
                Some(value) => exists|sep: Seq<bool>| #[trigger]
                    classifies(split_by, value, sep) && r == self@.matches_splitted_by(
                        *operand,
                        sep,
                    ),
                None => !r,
            },
    {
        let case_sensitivity = operand.case_sensitivity.to_unconditional(self.is_html_element);
        let expected = operand.value.as_slice();
        let split = &split_by;
        let matcher = |actual_value: &[u8]| -> (r: bool)
            ensures
                exists|sep: Seq<bool>| #[trigger]
                    classifies(*split, actual_value@, sep) && r == some_token_eq(
                        case_sensitivity,
                        actual_value@,
                        sep,
                        expected@,
                    ),
            { any_token_eq(actual_value, expected, case_sensitivity, split) };
        let r = self.value_matches(operand.name.as_slice(), matcher);
        proof {
            match self@.value(operand.name@) {
                Some(value) => {
                    let sep = choose|sep: Seq<bool>| #[trigger]
                        classifies(split_by, value, sep) && r == some_token_eq(
                            case_sensitivity,
                            value,
                            sep,
                            expected@,
                        );
                    assert(classifies(split_by, value, sep) && r == self@.matches_splitted_by(
                        *operand,
                        sep,
                    ));
                },
                None => {},
            }
        }
        r
    }

    /// `[attr^=value]`: whether the attribute's value begins with the
    /// operand's value. An empty operand value is a prefix of every value.
    #[inline]
    pub fn has_attr_with_prefix(&self, operand: &CompiledAttributeExprOperand) -> (r: bool)
        requires
            self.wf(),
        ensures
            r == self@.has_attr_with_prefix(*operand),
    {
        let case_sensitivity = operand.case_sensitivity.to_unconditional(self.is_html_element);
        let prefix = operand.value.as_slice();
        let matcher = |actual_value: &[u8]| -> (r: bool)
            ensures
                r == (actual_value@.len() >= prefix@.len() && bytes_eq(
                    case_sensitivity,
                    actual_value@.subrange(0, prefix@.len() as int),
                    prefix@,
                )),
            {
                let prefix_len = prefix.len();
                actual_value.len() >= prefix_len && case_sensitivity.eq_bytes(
                    slice_subrange(actual_value, 0, prefix_len),
                    prefix,
                )
            };
        self.value_matches(operand.name.as_slice(), matcher)
    }

    /// `[attr$=value]`: whether the attribute's value ends with the
    /// operand's value. An empty operand value is a suffix of every value.
    #[inline]
    pub fn has_attr_with_suffix(&self, operand: &CompiledAttributeExprOperand) -> (r: bool)
        requires
            self.wf(),
        ensures
            r == self@.has_attr_with_suffix(*operand),
    {
        let case_sensitivity = operand.case_sensitivity.to_unconditional(self.is_html_element);
        let suffix = operand.value.as_slice();
        let matcher = |actual_value: &[u8]| -> (r: bool)
            ensures
                r == (actual_value@.len() >= suffix@.len() && bytes_eq(
                    case_sensitivity,
                    actual_value@.subrange(
                        actual_value@.len() - suffix@.len(),
                        actual_value@.len() as int,
                    ),
                    suffix@,
                )),
            {
                let suffix_len = suffix.len();
                let value_len = actual_value.len();
                value_len >= suffix_len && case_sensitivity.eq_bytes(
                    slice_subrange(actual_value, value_len - suffix_len, value_len),
                    suffix,
                )
            };
        self.value_matches(operand.name.as_slice(), matcher)
    }

    /// `[attr*=value]`: whether the operand's value occurs in the
    /// attribute's value. An empty operand value occurs in nothing.
    #[inline]
    pub fn has_attr_with_substring(&self, operand: &CompiledAttributeExprOperand) -> (r: bool)
        requires
            self.wf(),
        ensures
            r == self@.has_attr_with_substring(*operand),
    {
        let case_sensitivity = operand.case_sensitivity.to_unconditional(self.is_html_element);
        let needle = operand.value.as_slice();
        let matcher = |actual_value: &[u8]| -> (r: bool)
            ensures
                r == contains_bytes(case_sensitivity, actual_value@, needle@),
            { contains_subslice(actual_value, needle, case_sensitivity) };
        self.value_matches(operand.name.as_slice(), matcher)
    }
}

} // verus!
