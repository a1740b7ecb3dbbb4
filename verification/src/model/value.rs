//! The values of a document and the slots that hold them.

use crate::token::{ByteSpan, JsonNumber};
use vstd::prelude::*;

verus! {

/// The two kinds of collection, which are also the two tables: the members
/// of all objects live in one, the elements of all arrays in the other.
#[derive(Clone, Copy, Debug, PartialEq, Eq, Structural)]
pub enum Kind {
    Object,
    Array,
}

/// A value of a document. A collection is a half-open range of slots in the
/// table of its kind; a string is a span of the input buffer.
#[derive(Clone, Copy, Debug, PartialEq, Eq, Structural)]
pub enum JsonValue {
    Object { start_index: usize, end_index: usize },
    Array { start_index: usize, end_index: usize },
    String(ByteSpan),
    Number(JsonNumber),
    Boolean(bool),
    Null,
}

impl JsonValue {
    /// The kind of a collection value; `None` for a scalar.
    pub open spec fn kind(self) -> Option<Kind> {
        match self {
            JsonValue::Object { .. } => Some(Kind::Object),
            JsonValue::Array { .. } => Some(Kind::Array),
            _ => None,
        }
    }

    pub open spec fn is_collection(self) -> bool {
        self.kind() is Some
    }

    /// Where the range of a collection value starts (0 for a scalar).
    pub open spec fn start(self) -> int {
        match self {
            JsonValue::Object { start_index, .. } => start_index as int,
            JsonValue::Array { start_index, .. } => start_index as int,
            _ => 0,
        }
    }

    /// Where the range of a collection value ends (0 for a scalar).
    pub open spec fn end(self) -> int {
        match self {
            JsonValue::Object { end_index, .. } => end_index as int,
            JsonValue::Array { end_index, .. } => end_index as int,
            _ => 0,
        }
    }

    /// The collection value of `kind` with range `[start, end)`.
    pub open spec fn collection(kind: Kind, start: int, end: int) -> JsonValue {
        match kind {
            Kind::Object => JsonValue::Object {
                start_index: start as usize,
                end_index: end as usize,
            },
            Kind::Array => JsonValue::Array { start_index: start as usize, end_index: end as usize },
        }
    }
}

/// One slot of a table: a key and a value. In the element table the key is
/// the empty span.
#[derive(Clone, Copy, Debug, PartialEq, Eq, Structural)]
pub struct Slot {
    pub key: ByteSpan,
    pub value: JsonValue,
}

/// The key of a slot that has none.
pub open spec fn no_key() -> ByteSpan {
    ByteSpan { offset: 0, len: 0 }
}

} // verus!
