//! What the cursor gives, step by step, and the trees that it can tell
//! from what lies deeper.

use crate::model::layout::{slots_below, Tables};
use crate::model::tree::Node;
use crate::model::value::{JsonValue, Kind, Slot};
use vstd::prelude::*;

verus! {

/// The cursor as a value: the collection it walks and where it stands.
pub struct Cursor {
    pub parent: JsonValue,
    pub position: int,
}

/// What one step of the cursor gives: the slot it stands on and the cursor
/// behind it, or `None` at the end of the collection (and on a cursor over a
/// scalar, or one that stands outside the table).
///
/// Behind a slot that holds a collection of the kind of the table, the
/// cursor stands at the end of that collection: all that lies below it is
/// passed over in one step. Behind any other slot it stands on the next;
/// the range of a collection of the other kind is a range of the other
/// table and says nothing of where this one goes on.
pub open spec fn cursor_step(tables: Tables, cursor: Cursor) -> Option<(Slot, Cursor)> {
    match cursor.parent.kind() {
        None => None,
        Some(kind) => {
            let table = tables.of(kind);
            if 0 <= cursor.position < cursor.parent.end() && cursor.position < table.len() {
                let slot = table[cursor.position];
                Some(
                    (
                        slot,
                        Cursor {
                            parent: cursor.parent,
                            position: position_behind(kind, cursor.position, slot),
                        },
                    ),
                )
            } else {
                None
            }
        },
    }
}

/// Where a cursor over the table of `kind` stands after the slot at `pos`.
pub open spec fn position_behind(kind: Kind, pos: int, slot: Slot) -> int {
    if slot.value.kind() == Some(kind) {
        slot.value.end()
    } else {
        pos + 1
    }
}

impl Node {
    /// No child of this collection that is a collection of the other kind
    /// has anything below it in the table of this collection's kind.
    ///
    /// This is what the cursor needs to tell the children of a collection
    /// from what lies deeper: an array found in an object is passed in one
    /// step of one slot, so a member of an object inside that array, which
    /// stands in the member table right behind, would be taken for the next
    /// member of the outer object.
    pub open spec fn keeps_apart(self) -> bool {
        match self {
            Node::Leaf { .. } => true,
            Node::Collection { kind, children, .. } => forall|i: int|
                0 <= i < children.len() ==> ((#[trigger] children[i]) matches Node::Collection {
                    kind: inner,
                    ..
                } ==> inner != kind ==> slots_below(children[i], kind) == 0),
        }
    }

    /// `keeps_apart` here and everywhere below.
    pub open spec fn keeps_apart_throughout(self) -> bool
        decreases self,
    {
        match self {
            Node::Leaf { .. } => true,
            Node::Collection { children, .. } => self.keeps_apart() && forall|i: int|
                0 <= i < children.len() ==> (#[trigger] children[i]).keeps_apart_throughout(),
        }
    }
}

/// All that a cursor gives, step by step, until it is at its end.
///
/// (In a document each step leaves the cursor behind where it stood and not
/// behind the end of its collection; the test on that is what makes this
/// definition well-founded.)
pub open spec fn cursor_walk(tables: Tables, cursor: Cursor) -> Seq<Slot>
    decreases cursor.parent.end() - cursor.position,
{
    match cursor_step(tables, cursor) {
        None => Seq::empty(),
        Some((slot, behind)) => if cursor.position < behind.position <= cursor.parent.end() {
            seq![slot] + cursor_walk(tables, behind)
        } else {
            seq![slot]
        },
    }
}

/// Where the cursor stands when it has given all that it gives.
pub open spec fn cursor_rest(tables: Tables, cursor: Cursor) -> Cursor
    decreases cursor.parent.end() - cursor.position,
{
    match cursor_step(tables, cursor) {
        None => cursor,
        Some((_, behind)) => if cursor.position < behind.position <= cursor.parent.end() {
            cursor_rest(tables, behind)
        } else {
            behind
        },
    }
}

/// Walking the collection `value` with the cursor, and each collection met
/// on the way with a cursor of its own, gives the keys and values of `node`
/// and of all below it, each once and in their order.
pub open spec fn reads_as(tables: Tables, value: JsonValue, node: Node) -> bool
    decreases node,
{
    match node {
        Node::Leaf { value: held, .. } => value == held,
        Node::Collection { kind, children, .. } => {
            let met = cursor_walk(tables, Cursor { parent: value, position: value.start() });
            &&& value.kind() == Some(kind)
            &&& met.len() == children.len()
            &&& forall|i: int|
                0 <= i < children.len() ==> (#[trigger] met[i]).key == children[i].key()
                    && reads_as(tables, met[i].value, children[i])
        },
    }
}

/// The number of steps that a cursor over the table of kind `table` takes on
/// its way through what `children`, the children of a collection of kind
/// `parent`, and all below them have laid out in that table.
pub open spec fn steps_through(parent: Kind, children: Seq<Node>, table: Kind) -> nat
    decreases children,
{
    if children.len() == 0 {
        0
    } else {
        steps_through(parent, children.drop_last(), table) + steps_at(
            parent,
            children.last(),
            table,
        )
    }
}

/// The number of those steps for one child and all below it: one for its
/// own slot, where that stands in the table; none for what lies below a
/// collection of the table's kind whose slot stands in the table, which is
/// passed over; and the steps through all that lies below any other
/// collection.
pub open spec fn steps_at(parent: Kind, node: Node, table: Kind) -> nat
    decreases node,
{
    match node {
        Node::Leaf { .. } => if parent == table {
            1
        } else {
            0
        },
        Node::Collection { kind, children, .. } => if parent == table {
            if kind == table {
                1
            } else {
                1 + steps_through(kind, children, table)
            }
        } else {
            steps_through(kind, children, table)
        },
    }
}

} // verus!
