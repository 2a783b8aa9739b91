//! The names of the two attributes whose values a matcher remembers.
use vstd::prelude::*;
use vstd::string::StringSliceAdditionalSpecFns;
use vstd::string::is_ascii_spec_bytes;

verus! {

/// The bytes `id`.
pub open spec fn id_name() -> Seq<u8> {
    seq![0x69u8, 0x64u8]
}

/// The bytes `class`.
pub open spec fn class_name() -> Seq<u8> {
    seq![0x63u8, 0x6cu8, 0x61u8, 0x73u8, 0x73u8]
}

/// Calls `encoding_rs::Encoding::encode` on `encoding_rs::UTF_8`, not
/// proved here. Its source hands back the string's own bytes where the
/// output encoding is UTF-8.
#[verifier::external_body]
fn utf8_bytes(text: &str) -> (bytes: Vec<u8>)
    ensures
        bytes@ == text.spec_bytes(),
{
    encoding_rs::UTF_8.encode(text).0.into_owned()
}

/// The name of the `id` attribute, encoded as UTF-8.
pub(crate) fn id_attr() -> (name: Vec<u8>)
    ensures
        name@ == id_name(),
{
    broadcast use is_ascii_spec_bytes;

    let name = utf8_bytes("id");
    proof {
        reveal_strlit("id");
        assert("id".is_ascii());
        assert(name@ =~= id_name());
    }
    name
}

/// The name of the `class` attribute, encoded as UTF-8.
pub(crate) fn class_attr() -> (name: Vec<u8>)
    ensures
        name@ == class_name(),
{
    broadcast use is_ascii_spec_bytes;

    let name = utf8_bytes("class");
    proof {
        reveal_strlit("class");
        assert("class".is_ascii());
        assert(name@ =~= class_name());
    }
    name
}

} // verus!
