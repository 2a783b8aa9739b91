use attr_matcher::{
    check_spans, is_attr_whitespace, AttributeMatcher, AttributeOutline,
    CompiledAttributeExprOperand, ParsedCaseSensitivity, Range,
};

/// Lays the attributes out as `name="value" ` one after another and records
/// where each name and value stands.
fn tag(attributes: &[(&str, &str)]) -> (Vec<u8>, Vec<AttributeOutline>) {
    let mut input = Vec::new();
    let mut table = Vec::new();
    for (name, value) in attributes {
        let name_start = input.len();
        input.extend_from_slice(name.as_bytes());
        let name_end = input.len();
        input.extend_from_slice(b"=\"");
        let value_start = input.len();
        input.extend_from_slice(value.as_bytes());
        let value_end = input.len();
        input.extend_from_slice(b"\" ");
        table.push(AttributeOutline {
            name: Range { start: name_start, end: name_end },
            value: Range { start: value_start, end: value_end },
        });
    }
    (input, table)
}

fn operand(name: &str, value: &str, case: ParsedCaseSensitivity) -> CompiledAttributeExprOperand {
    CompiledAttributeExprOperand {
        name: name.as_bytes().to_vec(),
        value: value.as_bytes().to_vec(),
        case_sensitivity: case,
    }
}

#[test]
fn whitespace_is_the_five_bytes() {
    for b in 0u8..=255 {
        let expected = b == b' ' || b == b'\n' || b == b'\r' || b == b'\t' || b == 0x0c;
        assert_eq!(is_attr_whitespace(b), expected, "byte {}", b);
    }
}

#[test]
fn has_attribute_folds_the_written_name() {
    let (input, table) = tag(&[("ID", "foo"), ("Data-X", "1"), ("class", "a")]);
    assert!(check_spans(&input, &table));
    let m = AttributeMatcher::new(&input, &table, true);
    assert!(m.has_attribute(b"id"));
    assert!(m.has_attribute(b"data-x"));
    assert!(m.has_attribute(b"class"));
    assert!(!m.has_attribute(b"data-y"));
    assert!(!m.has_attribute(b"data-"));
    assert!(!m.has_attribute(b"data-xx"));
    assert!(!m.has_attribute(b""));
}

#[test]
fn lookup_name_is_taken_as_lower_case() {
    let (input, table) = tag(&[("id", "foo")]);
    let m = AttributeMatcher::new(&input, &table, true);
    assert!(m.has_attribute(b"id"));
    assert!(!m.has_attribute(b"ID"));
}

#[test]
fn exact_name_lookup_succeeds() {
    let (input, table) = tag(&[("href", "x"), ("title", "y")]);
    let m = AttributeMatcher::new(&input, &table, true);
    assert!(m.has_attribute(b"href"));
    assert!(m.has_attribute(b"title"));
    assert!(!m.has_attribute(b"hrex"));
    assert!(!m.has_attribute(b"xref"));
}

#[test]
fn first_duplicate_wins() {
    let (input, table) = tag(&[("data-x", "first"), ("DATA-X", "second"), ("data-x", "third")]);
    let m = AttributeMatcher::new(&input, &table, true);
    let case = ParsedCaseSensitivity::CaseSensitive;
    assert!(m.attr_eq(&operand("data-x", "first", case)));
    assert!(!m.attr_eq(&operand("data-x", "second", case)));
    assert!(!m.attr_eq(&operand("data-x", "third", case)));
}

#[test]
fn first_duplicate_wins_for_id_and_class() {
    let (input, table) = tag(&[("id", "a"), ("id", "b"), ("class", "x"), ("class", "y")]);
    let mut m = AttributeMatcher::new(&input, &table, true);
    assert!(m.id_matches(b"a"));
    assert!(!m.id_matches(b"b"));
    assert!(m.has_class(b"x"));
    assert!(!m.has_class(b"y"));
}

#[test]
fn id_and_class_of_one_tag() {
    let (input, table) = tag(&[("id", "foo"), ("class", "a b  c")]);
    let mut m = AttributeMatcher::new(&input, &table, true);
    assert!(m.id_matches(b"foo"));
    assert!(!m.id_matches(b"FOO"));
    assert!(m.has_class(b"b"));
    assert!(!m.has_class(b"bc"));
    assert!(m.has_class(b"a"));
    assert!(m.has_class(b"c"));
}

#[test]
fn id_is_compared_in_full() {
    let (input, table) = tag(&[("id", "foo")]);
    let mut m = AttributeMatcher::new(&input, &table, true);
    assert!(!m.id_matches(b"fo"));
    assert!(!m.id_matches(b"fooo"));
    assert!(!m.id_matches(b""));
    assert!(!m.id_matches(b"fop"));
}

#[test]
fn id_is_exact_on_foreign_content_too() {
    let (input, table) = tag(&[("id", "foo")]);
    let mut m = AttributeMatcher::new(&input, &table, false);
    assert!(m.id_matches(b"foo"));
    assert!(!m.id_matches(b"Foo"));
}

#[test]
fn class_tokens_split_at_every_whitespace_byte() {
    let (input, table) = tag(&[("class", "a\tb\nc\rd\x0ce f")]);
    let mut m = AttributeMatcher::new(&input, &table, true);
    for name in [&b"a"[..], b"b", b"c", b"d", b"e", b"f"] {
        assert!(m.has_class(name));
    }
    assert!(!m.has_class(b"a\tb"));
    assert!(!m.has_class(b"A"));
    assert!(!m.has_class(b"g"));
}

#[test]
fn class_empty_tokens_are_tolerated() {
    let (input, table) = tag(&[("class", " a  b ")]);
    let mut m = AttributeMatcher::new(&input, &table, true);
    assert!(m.has_class(b"a"));
    assert!(m.has_class(b"b"));
    assert!(!m.has_class(b"a  b"));
    assert!(m.has_class(b""));
}

#[test]
fn class_of_empty_value() {
    let (input, table) = tag(&[("class", "")]);
    let mut m = AttributeMatcher::new(&input, &table, true);
    assert!(!m.has_class(b"a"));
    assert!(m.has_class(b""));
}

#[test]
fn repeated_calls_agree() {
    let (input, table) = tag(&[("class", "a b"), ("id", "foo")]);
    let mut m = AttributeMatcher::new(&input, &table, true);
    for _ in 0..4 {
        assert!(m.id_matches(b"foo"));
        assert!(!m.id_matches(b"bar"));
        assert!(m.has_class(b"a"));
        assert!(m.has_class(b"b"));
        assert!(!m.has_class(b"c"));
    }
    let (input, table) = tag(&[("title", "t")]);
    let mut m = AttributeMatcher::new(&input, &table, true);
    for _ in 0..4 {
        assert!(!m.id_matches(b"foo"));
        assert!(!m.has_class(b"a"));
    }
}

#[test]
fn attr_eq_compares_the_whole_value() {
    let (input, table) = tag(&[("data-x", "Hello")]);
    let m = AttributeMatcher::new(&input, &table, true);
    assert!(m.attr_eq(&operand("data-x", "Hello", ParsedCaseSensitivity::CaseSensitive)));
    assert!(!m.attr_eq(&operand("data-x", "hello", ParsedCaseSensitivity::CaseSensitive)));
    assert!(m.attr_eq(&operand("data-x", "hello", ParsedCaseSensitivity::AsciiCaseInsensitive)));
    assert!(!m.attr_eq(&operand("data-x", "hell", ParsedCaseSensitivity::AsciiCaseInsensitive)));
    assert!(!m.attr_eq(&operand("data-x", "helloo", ParsedCaseSensitivity::AsciiCaseInsensitive)));
}

#[test]
fn case_rule_on_html_and_foreign_elements() {
    let (input, table) = tag(&[("type", "Text")]);
    let html = AttributeMatcher::new(&input, &table, true);
    let foreign = AttributeMatcher::new(&input, &table, false);
    let conditional = ParsedCaseSensitivity::AsciiCaseInsensitiveIfInHtmlElementInHtmlDocument;
    assert!(html.attr_eq(&operand("type", "text", conditional)));
    assert!(!foreign.attr_eq(&operand("type", "text", conditional)));
    assert!(foreign.attr_eq(&operand("type", "Text", conditional)));
    for m in [&html, &foreign] {
        assert!(!m.attr_eq(&operand("type", "text", ParsedCaseSensitivity::ExplicitCaseSensitive)));
        assert!(m.attr_eq(&operand("type", "Text", ParsedCaseSensitivity::ExplicitCaseSensitive)));
        assert!(!m.attr_eq(&operand("type", "text", ParsedCaseSensitivity::CaseSensitive)));
        assert!(m.attr_eq(&operand("type", "TEXT", ParsedCaseSensitivity::AsciiCaseInsensitive)));
    }
}

#[test]
fn folding_is_ascii_only() {
    let (input, table) = tag(&[("data-x", "[a@`{")]);
    let m = AttributeMatcher::new(&input, &table, true);
    let fold = ParsedCaseSensitivity::AsciiCaseInsensitive;
    assert!(m.attr_eq(&operand("data-x", "[A@`{", fold)));
    assert!(!m.attr_eq(&operand("data-x", "{a@`[", fold)));
    assert!(!m.attr_eq(&operand("data-x", "[a`@{", fold)));
}

#[test]
fn prefix_of_a_value() {
    let (input, table) = tag(&[("data-x", "Hello")]);
    let m = AttributeMatcher::new(&input, &table, true);
    let case = ParsedCaseSensitivity::CaseSensitive;
    assert!(m.has_attr_with_prefix(&operand("data-x", "He", case)));
    assert!(!m.has_attr_with_prefix(&operand("data-x", "ell", case)));
    assert!(m.has_attr_with_prefix(&operand("data-x", "", case)));
    assert!(m.has_attr_with_prefix(&operand("data-x", "Hello", case)));
    assert!(!m.has_attr_with_prefix(&operand("data-x", "Hello!", case)));
    assert!(!m.has_attr_with_prefix(&operand("data-x", "he", case)));
    assert!(m.has_attr_with_prefix(&operand(
        "data-x",
        "hE",
        ParsedCaseSensitivity::AsciiCaseInsensitive
    )));
}

#[test]
fn suffix_of_a_value() {
    let (input, table) = tag(&[("data-x", "Hello")]);
    let m = AttributeMatcher::new(&input, &table, true);
    let case = ParsedCaseSensitivity::CaseSensitive;
    assert!(m.has_attr_with_suffix(&operand("data-x", "lo", case)));
    assert!(m.has_attr_with_suffix(&operand("data-x", "", case)));
    assert!(!m.has_attr_with_suffix(&operand("data-x", "ell", case)));
    assert!(m.has_attr_with_suffix(&operand("data-x", "Hello", case)));
    assert!(!m.has_attr_with_suffix(&operand("data-x", "xHello", case)));
    assert!(!m.has_attr_with_suffix(&operand("data-x", "LO", case)));
    assert!(m.has_attr_with_suffix(&operand(
        "data-x",
        "LO",
        ParsedCaseSensitivity::AsciiCaseInsensitive
    )));
}

#[test]
fn substring_of_a_value() {
    let (input, table) = tag(&[("data-x", "Hello")]);
    let m = AttributeMatcher::new(&input, &table, true);
    let case = ParsedCaseSensitivity::CaseSensitive;
    let fold = ParsedCaseSensitivity::AsciiCaseInsensitive;
    assert!(m.has_attr_with_substring(&operand("data-x", "ell", case)));
    assert!(!m.has_attr_with_substring(&operand("data-x", "", case)));
    assert!(!m.has_attr_with_substring(&operand("data-x", "", fold)));
    assert!(m.has_attr_with_substring(&operand("data-x", "ELL", fold)));
    assert!(!m.has_attr_with_substring(&operand("data-x", "ELL", case)));
}

#[test]
fn substring_at_every_place() {
    let (input, table) = tag(&[("data-x", "Hello")]);
    let m = AttributeMatcher::new(&input, &table, true);
    let case = ParsedCaseSensitivity::CaseSensitive;
    for needle in ["H", "He", "Hello", "e", "l", "ll", "llo", "lo", "o"] {
        assert!(m.has_attr_with_substring(&operand("data-x", needle, case)), "{}", needle);
    }
    for needle in ["h", "Helo", "Hello!", "lox", "oo", "lll", "x", "oH"] {
        assert!(!m.has_attr_with_substring(&operand("data-x", needle, case)), "{}", needle);
    }
}

#[test]
fn substring_goes_on_after_a_false_start() {
    let (input, table) = tag(&[("data-x", "aaabaaAB")]);
    let m = AttributeMatcher::new(&input, &table, true);
    let case = ParsedCaseSensitivity::CaseSensitive;
    let fold = ParsedCaseSensitivity::AsciiCaseInsensitive;
    assert!(m.has_attr_with_substring(&operand("data-x", "aab", case)));
    assert!(m.has_attr_with_substring(&operand("data-x", "aAB", case)));
    assert!(!m.has_attr_with_substring(&operand("data-x", "aabb", case)));
    assert!(m.has_attr_with_substring(&operand("data-x", "BAAA", fold)));
    assert!(!m.has_attr_with_substring(&operand("data-x", "baaa", case)));
    assert!(!m.has_attr_with_substring(&operand("data-x", "abab", fold)));
}

#[test]
fn substring_of_empty_value() {
    let (input, table) = tag(&[("data-x", "")]);
    let m = AttributeMatcher::new(&input, &table, true);
    let case = ParsedCaseSensitivity::CaseSensitive;
    assert!(!m.has_attr_with_substring(&operand("data-x", "a", case)));
    assert!(!m.has_attr_with_substring(&operand("data-x", "", case)));
    assert!(m.has_attr_with_prefix(&operand("data-x", "", case)));
    assert!(m.has_attr_with_suffix(&operand("data-x", "", case)));
    assert!(m.attr_eq(&operand("data-x", "", case)));
}

#[test]
fn tokens_split_by_whitespace() {
    let (input, table) = tag(&[("rel", "nofollow  NoOpener\tme")]);
    let m = AttributeMatcher::new(&input, &table, true);
    let case = ParsedCaseSensitivity::CaseSensitive;
    let fold = ParsedCaseSensitivity::AsciiCaseInsensitive;
    assert!(m.matches_splitted_by(&operand("rel", "nofollow", case), is_attr_whitespace));
    assert!(m.matches_splitted_by(&operand("rel", "me", case), is_attr_whitespace));
    assert!(!m.matches_splitted_by(&operand("rel", "noopener", case), is_attr_whitespace));
    assert!(m.matches_splitted_by(&operand("rel", "noopener", fold), is_attr_whitespace));
    assert!(!m.matches_splitted_by(&operand("rel", "no", case), is_attr_whitespace));
    assert!(!m.matches_splitted_by(&operand("rel", "follow", case), is_attr_whitespace));
    assert!(!m.matches_splitted_by(&operand("rel", "nofollow  NoOpener", case), is_attr_whitespace));
    assert!(m.matches_splitted_by(&operand("rel", "", case), is_attr_whitespace));
}

#[test]
fn tokens_split_by_another_separator() {
    let (input, table) = tag(&[("lang", "en-US-x")]);
    let m = AttributeMatcher::new(&input, &table, true);
    let case = ParsedCaseSensitivity::CaseSensitive;
    assert!(m.matches_splitted_by(&operand("lang", "en", case), |b| b == b'-'));
    assert!(m.matches_splitted_by(&operand("lang", "US", case), |b| b == b'-'));
    assert!(m.matches_splitted_by(&operand("lang", "x", case), |b| b == b'-'));
    assert!(!m.matches_splitted_by(&operand("lang", "us", case), |b| b == b'-'));
    assert!(!m.matches_splitted_by(&operand("lang", "en-US", case), |b| b == b'-'));
    assert!(!m.matches_splitted_by(&operand("lang", "", case), |b| b == b'-'));
    assert!(m.matches_splitted_by(&operand("lang", "en-US-x", case), |_| false));
    assert!(!m.matches_splitted_by(&operand("lang", "en", case), |_| false));
}

#[test]
fn absent_attribute_gives_false() {
    let (input, table) = tag(&[("title", "Hello")]);
    let mut m = AttributeMatcher::new(&input, &table, true);
    for case in [
        ParsedCaseSensitivity::CaseSensitive,
        ParsedCaseSensitivity::AsciiCaseInsensitive,
        ParsedCaseSensitivity::ExplicitCaseSensitive,
        ParsedCaseSensitivity::AsciiCaseInsensitiveIfInHtmlElementInHtmlDocument,
    ] {
        for value in ["", "Hello"] {
            let op = operand("data-x", value, case);
            assert!(!m.attr_eq(&op));
            assert!(!m.has_attr_with_prefix(&op));
            assert!(!m.has_attr_with_suffix(&op));
            assert!(!m.has_attr_with_substring(&op));
            assert!(!m.matches_splitted_by(&op, is_attr_whitespace));
        }
    }
    assert!(!m.has_attribute(b"data-x"));
    assert!(!m.id_matches(b"Hello"));
    assert!(!m.id_matches(b""));
    assert!(!m.has_class(b"Hello"));
    assert!(!m.has_class(b""));
}

#[test]
fn tag_without_attributes() {
    let input = b"<div>".to_vec();
    let table: Vec<AttributeOutline> = Vec::new();
    assert!(check_spans(&input, &table));
    let mut m = AttributeMatcher::new(&input, &table, true);
    assert!(!m.has_attribute(b"id"));
    assert!(!m.id_matches(b"x"));
    assert!(!m.has_class(b"x"));
    assert!(!m.attr_eq(&operand("id", "", ParsedCaseSensitivity::CaseSensitive)));
}

#[test]
fn spans_are_checked_against_the_input() {
    let input = b"id=x".to_vec();
    let good = [AttributeOutline {
        name: Range { start: 0, end: 2 },
        value: Range { start: 3, end: 4 },
    }];
    assert!(check_spans(&input, &good));
    let empty_at_end = [AttributeOutline {
        name: Range { start: 0, end: 2 },
        value: Range { start: 4, end: 4 },
    }];
    assert!(check_spans(&input, &empty_at_end));
    let past_end = [AttributeOutline {
        name: Range { start: 0, end: 2 },
        value: Range { start: 3, end: 5 },
    }];
    assert!(!check_spans(&input, &past_end));
    let reversed = [AttributeOutline {
        name: Range { start: 2, end: 0 },
        value: Range { start: 3, end: 4 },
    }];
    assert!(!check_spans(&input, &reversed));
    let second_bad = [good[0], past_end[0]];
    assert!(!check_spans(&input, &second_bad));
}
