//! What it is for the spans of a document to be spans of its buffer.

use crate::model::layout::Tables;
use crate::model::tree::Node;
use crate::model::value::{no_key, JsonValue, Kind, Slot};
use crate::token::{all_digits, ByteSpan, JsonNumber, QUOTE};
use vstd::prelude::*;

verus! {

/// The span is what stands between the two quotes of a string of the buffer.
pub open spec fn span_quoted(bytes: Seq<u8>, span: ByteSpan) -> bool {
    &&& 0 < span.offset
    &&& span.offset + span.len < bytes.len()
    &&& bytes[span.offset - 1] == QUOTE
    &&& bytes[span.offset + span.len] == QUOTE
}

/// The three digit runs of the number lie in the buffer, in their order,
/// and hold digits only; the integer part has at least one.
pub open spec fn number_in_buffer(bytes: Seq<u8>, n: JsonNumber) -> bool {
    &&& n.integer.len > 0
    &&& n.integer.offset + n.integer.len <= n.fraction.offset
    &&& n.fraction.offset + n.fraction.len <= n.exponent.offset
    &&& n.exponent.offset + n.exponent.len <= bytes.len()
    &&& all_digits(n.integer.of(bytes))
    &&& all_digits(n.fraction.of(bytes))
    &&& all_digits(n.exponent.of(bytes))
}

/// The spans of a slot of the table of kind `table` point into the buffer:
/// a key of the member table and a string value each at the content of a
/// string, a number at its digits. The element table has no keys.
pub open spec fn slot_in_buffer(bytes: Seq<u8>, table: Kind, slot: Slot) -> bool {
    &&& match table {
        Kind::Object => span_quoted(bytes, slot.key),
        Kind::Array => slot.key == no_key(),
    }
    &&& match slot.value {
        JsonValue::String(s) => span_quoted(bytes, s),
        JsonValue::Number(n) => number_in_buffer(bytes, n),
        _ => true,
    }
}

/// Every slot of both tables has its spans in the buffer.
pub open spec fn tables_in_buffer(bytes: Seq<u8>, tables: Tables) -> bool {
    &&& forall|i: int|
        0 <= i < tables.members.len() ==> slot_in_buffer(
            bytes,
            Kind::Object,
            #[trigger] tables.members[i],
        )
    &&& forall|i: int|
        0 <= i < tables.elements.len() ==> slot_in_buffer(
            bytes,
            Kind::Array,
            #[trigger] tables.elements[i],
        )
}

/// The same of a node below a parent of kind `parent`, and of all below it.
pub open spec fn node_in_buffer(bytes: Seq<u8>, parent: Kind, node: Node) -> bool
    decreases node,
{
    match node {
        Node::Leaf { key, value } => slot_in_buffer(bytes, parent, Slot { key, value })
            && !value.is_collection(),
        Node::Collection { key, kind, children } => {
            &&& slot_in_buffer(bytes, parent, Slot { key, value: JsonValue::Null })
            &&& forall|i: int|
                0 <= i < children.len() ==> node_in_buffer(bytes, kind, #[trigger] children[i])
        },
    }
}

} // verus!
