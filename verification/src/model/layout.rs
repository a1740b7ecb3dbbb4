//! The layout of a tree in the two tables, and the document that it makes.

use crate::model::tree::{document_tree, Node};
use crate::model::value::{no_key, JsonValue, Kind, Slot};
use vstd::prelude::*;

verus! {

/// The two tables.
#[verifier::ext_equal]
pub struct Tables {
    pub members: Seq<Slot>,
    pub elements: Seq<Slot>,
}

impl Tables {
    pub open spec fn empty() -> Tables {
        Tables { members: Seq::empty(), elements: Seq::empty() }
    }

    /// The table with one slot in the table of `kind`.
    pub open spec fn single(kind: Kind, slot: Slot) -> Tables {
        match kind {
            Kind::Object => Tables { members: seq![slot], elements: Seq::empty() },
            Kind::Array => Tables { members: Seq::empty(), elements: seq![slot] },
        }
    }

    /// The table of `kind`.
    pub open spec fn of(self, kind: Kind) -> Seq<Slot> {
        match kind {
            Kind::Object => self.members,
            Kind::Array => self.elements,
        }
    }

    /// Both tables, each followed by the one of `more`.
    pub open spec fn append(self, more: Tables) -> Tables {
        Tables { members: self.members + more.members, elements: self.elements + more.elements }
    }
}

/// The slots that `children`, the children of a collection of kind `parent`,
/// add to the two tables when these hold `m` members and `e` elements.
///
/// The children follow each other in document order. A child takes one slot
/// in the table of its parent's kind; where it is a collection, all that
/// lies below it follows at once, before its next sibling, and its range
/// starts where the table of its own kind then ends.
pub open spec fn layout(parent: Kind, children: Seq<Node>, m: int, e: int) -> Tables
    decreases children,
{
    if children.len() == 0 {
        Tables::empty()
    } else {
        let front = layout(parent, children.drop_last(), m, e);
        front.append(
            layout_node(parent, children.last(), m + front.members.len(), e + front.elements.len()),
        )
    }
}

/// The value under which a node is held when the tables, its own slot
/// counted, hold `m` members and `e` elements.
pub open spec fn node_value(node: Node, m: int, e: int) -> JsonValue
    decreases node, 0nat,
{
    match node {
        Node::Leaf { value, .. } => value,
        Node::Collection { kind, children, .. } => {
            let start = match kind {
                Kind::Object => m,
                Kind::Array => e,
            };
            JsonValue::collection(kind, start, start + layout(kind, children, m, e).of(kind).len())
        },
    }
}

/// The slots that one child of a collection of kind `parent` adds: its own,
/// and then those of all that lies below it.
pub open spec fn layout_node(parent: Kind, node: Node, m: int, e: int) -> Tables
    decreases node, 1nat,
{
    let (m1, e1) = match parent {
        Kind::Object => (m + 1, e),
        Kind::Array => (m, e + 1),
    };
    let own = Tables::single(parent, Slot { key: node.key(), value: node_value(node, m1, e1) });
    match node {
        Node::Leaf { .. } => own,
        Node::Collection { kind, children, .. } => own.append(layout(kind, children, m1, e1)),
    }
}

/// A document as a value: the buffer, the value of the root and the tables.
#[verifier::ext_equal]
pub struct Document {
    pub bytes: Seq<u8>,
    pub root: JsonValue,
    pub tables: Tables,
}

impl Document {
    /// The document that lays out `tree`, read from `bytes`.
    pub open spec fn of(bytes: Seq<u8>, tree: Node) -> Document {
        Document {
            bytes,
            root: node_value(tree, 0, 0),
            tables: match tree {
                Node::Leaf { .. } => Tables::empty(),
                Node::Collection { kind, children, .. } => layout(kind, children, 0, 0),
            },
        }
    }

    /// The document is what its own buffer denotes, and its tables can be
    /// indexed by `usize`.
    pub open spec fn wf(self) -> bool {
        &&& self.bytes.len() <= usize::MAX
        &&& self.tables.members.len() <= usize::MAX
        &&& self.tables.elements.len() <= usize::MAX
        &&& document_tree(self.bytes) matches Ok(tree) && self == Document::of(self.bytes, tree)
    }

    /// The tree of a well-formed document.
    pub open spec fn tree(self) -> Node {
        document_tree(self.bytes)->Ok_0
    }
}

/// The slots that stand for the values of the element table.
pub open spec fn element_slots(values: Seq<JsonValue>) -> Seq<Slot> {
    Seq::new(values.len(), |i: int| Slot { key: no_key(), value: values[i] })
}

/// The position in the table of `kind` when the tables hold `m` members and
/// `e` elements.
pub open spec fn base_of(kind: Kind, m: int, e: int) -> int {
    match kind {
        Kind::Object => m,
        Kind::Array => e,
    }
}

/// The number of slots that `children`, the children of a collection of kind
/// `parent`, and all below them take in the table of kind `table`.
pub open spec fn slots_of(parent: Kind, children: Seq<Node>, table: Kind) -> nat
    decreases children,
{
    if children.len() == 0 {
        0
    } else {
        slots_of(parent, children.drop_last(), table) + (if parent == table {
            1nat
        } else {
            0nat
        }) + slots_below(children.last(), table)
    }
}

/// The number of slots that all below `node` takes in the table of kind
/// `table`; the slot of `node` itself is not counted.
pub open spec fn slots_below(node: Node, table: Kind) -> nat
    decreases node,
{
    match node {
        Node::Leaf { .. } => 0,
        Node::Collection { kind, children, .. } => slots_of(kind, children, table),
    }
}

/// The part `part` stands in `tables` where the tables held `m` members and
/// `e` elements.
pub open spec fn holds_at(tables: Tables, part: Tables, m: int, e: int) -> bool {
    &&& 0 <= m && m + part.members.len() <= tables.members.len()
    &&& 0 <= e && e + part.elements.len() <= tables.elements.len()
    &&& tables.members.subrange(m, m + part.members.len()) == part.members
    &&& tables.elements.subrange(e, e + part.elements.len()) == part.elements
}

/// What the tables hold behind the slot of child `i` of a collection of kind
/// `parent` whose children were laid out from `m` members and `e` elements:
/// the numbers of members and elements at which all below that child starts.
pub open spec fn child_bases(parent: Kind, children: Seq<Node>, m: int, e: int, i: int) -> (
    int,
    int,
) {
    let front = layout(parent, children.take(i), m, e);
    match parent {
        Kind::Object => (m + front.members.len() + 1, e + front.elements.len()),
        Kind::Array => (m + front.members.len(), e + front.elements.len() + 1),
    }
}

/// The slot of child `i`: its key, and its value as it is held there.
pub open spec fn child_slot(parent: Kind, children: Seq<Node>, m: int, e: int, i: int) -> Slot {
    let (m1, e1) = child_bases(parent, children, m, e, i);
    Slot { key: children[i].key(), value: node_value(children[i], m1, e1) }
}

/// The slots of all children, in their order.
pub open spec fn child_slots(parent: Kind, children: Seq<Node>, m: int, e: int) -> Seq<Slot> {
    Seq::new(children.len(), |i: int| child_slot(parent, children, m, e, i))
}

/// A slot of the table of `kind` at `index` that holds a collection of that
/// kind holds the range that starts right behind the slot and ends `at
/// most` at `limit`.
pub open spec fn slot_opens_behind(kind: Kind, slot: Slot, index: int, limit: int) -> bool {
    slot.value.kind() == Some(kind) ==> slot.value.start() == index + 1 && index + 1
        <= slot.value.end() <= limit
}

/// In both tables every collection that stands in the table of its own kind
/// starts right behind its slot and ends inside the table.
pub open spec fn ranges_follow_slots(tables: Tables) -> bool {
    &&& forall|i: int|
        0 <= i < tables.members.len() ==> slot_opens_behind(
            Kind::Object,
            #[trigger] tables.members[i],
            i,
            tables.members.len() as int,
        )
    &&& forall|i: int|
        0 <= i < tables.elements.len() ==> slot_opens_behind(
            Kind::Array,
            #[trigger] tables.elements[i],
            i,
            tables.elements.len() as int,
        )
}

/// The numbers of members and elements at which all below the node reached
/// by `path` starts, where all below `node` starts at `m` and `e`.
pub open spec fn descend_bases(node: Node, m: int, e: int, path: Seq<int>) -> (int, int)
    decreases path.len(),
{
    if path.len() == 0 {
        (m, e)
    } else {
        match node {
            Node::Leaf { .. } => (m, e),
            Node::Collection { kind, children, .. } => if 0 <= path[0] < children.len() {
                let (m1, e1) = child_bases(kind, children, m, e, path[0]);
                descend_bases(children[path[0]], m1, e1, path.skip(1))
            } else {
                (m, e)
            },
        }
    }
}

} // verus!
