//! Attribute predicates of a CSS selector engine, evaluated on the raw
//! attribute spans of one tag.
//!
//! A tag is given as an input buffer and a table of `(name, value)` byte
//! ranges into it. An [`AttributeMatcher`] answers, for that tag, the
//! conditions `[attr]`, `[attr=v]`, `[attr~=v]`, `[attr^=v]`, `[attr$=v]`,
//! `[attr*=v]`, `#id` and `.class`.
pub mod ascii;
pub mod case;
pub mod search;
pub mod tokens;
pub mod memo;
pub mod names;
pub mod matcher;
pub mod laws;

pub use ascii::is_attr_whitespace;
pub use case::{CaseSensitivity, ParsedCaseSensitivity};
pub use matcher::{
    check_spans, AttributeMatcher, AttributeOutline, CompiledAttributeExprOperand, Range,
};
