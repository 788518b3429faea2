//! Decoding a chunk payload into a tagged tree with `fastnbt`.

use vstd::prelude::*;
use fastnbt::Value;
use crate::tree::{Node, Tag};

verus! {

/// `fastnbt::Value`, a decoded tagged tree.
#[verifier::external_type_specification]
#[verifier::external_body]
pub struct ExValue(Value);

/// `fastnbt::error::Error`, read only for its message.
#[verifier::external_type_specification]
#[verifier::external_body]
pub struct ExDecodeError(fastnbt::error::Error);

/// What `fastnbt::from_bytes` finds in a payload: what the value that it
/// decodes to says, or `None` where it fails.
pub uninterp spec fn decoded(payload: Seq<u8>) -> Option<Node>;

/// What a `fastnbt::Value` says, apart from the order in which its hash
/// maps are walked.
pub uninterp spec fn value_says(value: Value) -> Node;

/// `fastnbt::from_bytes` with `fastnbt::Value` as its target. Whether it
/// succeeds, and what the value says, depends on the payload alone. The
/// decoder calls itself once for each level of nesting, so it needs as much
/// stack as the payload is deep.
#[verifier::external_body]
pub(crate) fn decode_value(payload: &[u8]) -> (r: Result<Value, fastnbt::error::Error>)
    ensures
        match r {
            Ok(value) => decoded(payload@) == Some(value_says(value)),
            Err(_) => decoded(payload@) is None,
        },
{
    fastnbt::from_bytes(payload)
}

/// Copies a `fastnbt::Value` into a tree, variant by variant. A double is
/// kept as its bits, a compound as the pairs of its hash map, and the kinds
/// that nothing reads become `Tag::Opaque`. The pairs come in the order in
/// which the map hands them out, which differs from run to run; no name
/// occurs twice in them, so what the tree says does not depend on it.
#[verifier::external_body]
pub(crate) fn tree_of(value: &Value) -> (tree: Tag)
    ensures
        tree@ == value_says(*value),
{
    match value {
        Value::Byte(v) => Tag::Byte(*v),
        Value::Short(v) => Tag::Short(*v),
        Value::Int(v) => Tag::Int(*v),
        Value::Long(v) => Tag::Long(*v),
        Value::Double(v) => Tag::Double(v.to_bits()),
        Value::String(v) => Tag::Text(v.clone()),
        Value::List(v) => Tag::List(v.iter().map(tree_of).collect()),
        Value::Compound(v) => Tag::Compound(v.iter().map(|(k, v)| (k.clone(), tree_of(v))).collect()),
        _ => Tag::Opaque,
    }
}

/// A `fastnbt::Value` as its `Debug` form prints it, one field to a line.
/// Nothing is claimed of the text.
#[verifier::external_body]
pub(crate) fn dump_text(value: &Value) -> (text: String) {
    format!("{:#?}", value)
}

/// The message of a `fastnbt::error::Error`, as its `Display` gives it.
#[verifier::external_body]
pub(crate) fn decode_error_text(error: &fastnbt::error::Error) -> (text: String) {
    error.to_string()
}

} // verus!
