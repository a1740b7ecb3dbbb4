//! The mathematical model of a document: its values, the tree that a buffer
//! denotes, the way that tree is laid out in the two flat tables, and what
//! the cursor gives on them.

pub mod cursor;
pub mod layout;
pub mod spans;
pub mod tree;
pub mod value;

pub use cursor::{
    cursor_rest, cursor_step, cursor_walk, position_behind, reads_as, steps_at, steps_through,
    Cursor,
};
pub use layout::{
    base_of, child_bases, child_slot, child_slots, descend_bases, element_slots, holds_at, layout,
    layout_node, node_value, ranges_follow_slots, slot_opens_behind, slots_below, slots_of,
    Document, Tables,
};
pub use spans::{node_in_buffer, number_in_buffer, slot_in_buffer, span_quoted, tables_in_buffer};
pub use tree::{
    descend, document_tree, entry_head, lemma_parse_children_advances, opened_kind, parse_children,
    scalar_of, Head, Node, Parsed,
};
pub use value::{no_key, JsonValue, Kind, Slot};
