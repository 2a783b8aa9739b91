//! What holds of the predicates on every tag.
use vstd::prelude::*;
use crate::case::{bytes_eq, lemma_exact_is_identity, CaseSensitivity};
use crate::matcher::{
    bytes_at, find_first, name_matches, whitespace_flags, AttributeOutline,
    CompiledAttributeExprOperand, Tag,
};
use crate::names::{class_name, id_name};
use crate::search::occurs_at;
use crate::tokens::is_token;

verus! {

/// The attribute at position `k` bears the name.
pub open spec fn named_at(input: Seq<u8>, attributes: Seq<AttributeOutline>, name: Seq<u8>, k: int)
    -> bool {
    0 <= k < attributes.len() && name_matches(bytes_at(input, attributes[k].name), name)
}

/// Some attribute of the table bears the name.
pub open spec fn is_named(input: Seq<u8>, attributes: Seq<AttributeOutline>, name: Seq<u8>)
    -> bool {
    exists|k: int| named_at(input, attributes, name, k)
}

/// The attribute at position `k` bears the name and none before it does.
pub open spec fn first_named_at(
    input: Seq<u8>,
    attributes: Seq<AttributeOutline>,
    name: Seq<u8>,
    k: int,
) -> bool {
    named_at(input, attributes, name, k) && forall|j: int|
        0 <= j < k ==> !named_at(input, attributes, name, j)
}

/// A lookup succeeds exactly when some attribute's name, folded to lower
/// case, is the name looked for; and it then finds the first such attribute
/// in document order, whatever attributes of the same name follow.
pub proof fn law_lookup_finds_first(
    input: Seq<u8>,
    attributes: Seq<AttributeOutline>,
    name: Seq<u8>,
)
    ensures
        find_first(input, attributes, name) is Some <==> is_named(input, attributes, name),
        forall|k: int|
            first_named_at(input, attributes, name, k) ==> find_first(input, attributes, name)
                == Some(attributes[k]),
    decreases attributes.len(),
{
    if attributes.len() > 0 {
        let tail = attributes.drop_first();
        law_lookup_finds_first(input, tail, name);
        if name_matches(bytes_at(input, attributes[0].name), name) {
            assert(named_at(input, attributes, name, 0));
            assert forall|k: int| first_named_at(input, attributes, name, k) implies k == 0 by {
                if k > 0 {
                    assert(!named_at(input, attributes, name, 0));
                }
            }
        } else {
            if is_named(input, tail, name) {
                let k = choose|k: int| named_at(input, tail, name, k);
                assert(named_at(input, attributes, name, k + 1));
            }
            if is_named(input, attributes, name) {
                let k = choose|k: int| named_at(input, attributes, name, k);
                assert(named_at(input, tail, name, k - 1));
            }
            assert forall|k: int| first_named_at(input, attributes, name, k) implies find_first(
                input,
                attributes,
                name,
            ) == Some(attributes[k]) by {
                assert(k > 0);
                assert forall|j: int| 0 <= j < k - 1 implies !named_at(input, tail, name, j) by {
                    assert(!named_at(input, attributes, name, j + 1));
                }
                assert(first_named_at(input, tail, name, k - 1));
            }
        }
    }
}

/// `[attr]` holds exactly when some attribute of the tag bears the name.
pub proof fn law_has_attribute(tag: Tag, name: Seq<u8>)
    ensures
        tag.has_attribute(name) == is_named(tag.input, tag.attributes, name),
{
    law_lookup_finds_first(tag.input, tag.attributes, name);
}

/// The predicates that read a value read that of the first attribute that
/// bears the name.
pub proof fn law_value_of_first(tag: Tag, name: Seq<u8>, k: int)
    requires
        first_named_at(tag.input, tag.attributes, name, k),
    ensures
        tag.value(name) == Some(bytes_at(tag.input, tag.attributes[k].value)),
{
    law_lookup_finds_first(tag.input, tag.attributes, name);
}

/// On a tag without an attribute of the operand's name, no condition on
/// that attribute holds, however the value would be split.
pub proof fn law_absent_attribute(tag: Tag, operand: CompiledAttributeExprOperand)
    requires
        !is_named(tag.input, tag.attributes, operand.name@),
    ensures
        !tag.has_attribute(operand.name@),
        !tag.attr_eq(operand),
        !tag.has_attr_with_prefix(operand),
        !tag.has_attr_with_suffix(operand),
        !tag.has_attr_with_substring(operand),
        forall|sep: Seq<bool>| !tag.matches_splitted_by(operand, sep),
{
    law_lookup_finds_first(tag.input, tag.attributes, operand.name@);
}

/// On a tag without an `id` attribute no id matches, and on a tag without a
/// `class` attribute no class is present.
pub proof fn law_absent_id_and_class(tag: Tag, wanted: Seq<u8>)
    ensures
        !is_named(tag.input, tag.attributes, id_name()) ==> !tag.id_matches(wanted),
        !is_named(tag.input, tag.attributes, class_name()) ==> !tag.has_class(wanted),
{
    law_lookup_finds_first(tag.input, tag.attributes, id_name());
    law_lookup_finds_first(tag.input, tag.attributes, class_name());
}

/// An empty operand value is a prefix and a suffix of the value of every
/// attribute that the tag has, and a substring of none.
pub proof fn law_empty_operand(tag: Tag, operand: CompiledAttributeExprOperand)
    requires
        operand.value@.len() == 0,
    ensures
        tag.has_attr_with_prefix(operand) == tag.has_attribute(operand.name@),
        tag.has_attr_with_suffix(operand) == tag.has_attribute(operand.name@),
        !tag.has_attr_with_substring(operand),
{
}

/// A class is present exactly when the `class` attribute has a token, cut
/// at whitespace, that is the class byte for byte.
pub proof fn law_class_is_exact_token(tag: Tag, class: Seq<u8>)
    ensures
        tag.has_class(class) == match tag.value(class_name()) {
            Some(value) => exists|i: int, j: int| #[trigger]
                is_token(whitespace_flags(value), i, j) && value.subrange(i, j) == class,
            None => false,
        },
{
    match tag.value(class_name()) {
        Some(value) => {
            assert forall|i: int, j: int|
                bytes_eq(CaseSensitivity::CaseSensitive, #[trigger] value.subrange(i, j), class)
                    == (value.subrange(i, j) == class) by {
                lemma_exact_is_identity(value.subrange(i, j), class);
            }
        },
        None => {},
    }
}

/// A value that holds the operand's value at its start, or at its end,
/// holds it as a substring, unless the operand's value is empty.
pub proof fn law_prefix_and_suffix_are_substrings(tag: Tag, operand: CompiledAttributeExprOperand)
    requires
        operand.value@.len() > 0,
    ensures
        tag.has_attr_with_prefix(operand) ==> tag.has_attr_with_substring(operand),
        tag.has_attr_with_suffix(operand) ==> tag.has_attr_with_substring(operand),
{
    match tag.value(operand.name@) {
        Some(value) => {
            let n = operand.value@.len() as int;
            if tag.has_attr_with_prefix(operand) {
                assert(occurs_at(tag.rule(operand), value, operand.value@, 0));
            }
            if tag.has_attr_with_suffix(operand) {
                assert(occurs_at(tag.rule(operand), value, operand.value@, value.len() - n));
            }
        },
        None => {},
    }
}

} // verus!
