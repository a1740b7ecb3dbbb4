//! What the cursor gives on a document: skip correctness and round-trip
//! shape, each with the documents of which it holds.

use crate::laws::layout::{
    lemma_child_held, lemma_holds_within, lemma_layout_concat, lemma_layout_len,
    lemma_layout_single, lemma_root_held,
};
use crate::model::{
    base_of, child_bases, child_slot, child_slots, cursor_rest, cursor_step, cursor_walk, descend,
    descend_bases, holds_at, layout, layout_node, no_key, node_value, position_behind, reads_as,
    slots_below, slots_of, steps_at, steps_through, Cursor, Document, JsonValue, Kind, Node, Slot,
    Tables,
};
use vstd::prelude::*;

verus! {

/// Where a step leaves the cursor behind where it stood, all that the
/// cursor gives is the slot of that step and then all that the cursor
/// behind it gives.
pub proof fn lemma_walk_step(tables: Tables, cursor: Cursor)
    requires
        cursor_step(tables, cursor) matches Some((_, behind)) && cursor.position < behind.position,
    ensures
        cursor_walk(tables, cursor) == seq![cursor_step(tables, cursor)->Some_0.0] + cursor_walk(
            tables,
            cursor_step(tables, cursor)->Some_0.1,
        ),
{
    let (slot, behind) = cursor_step(tables, cursor)->Some_0;
    if !(behind.position <= cursor.parent.end()) {
        assert(cursor_step(tables, behind) is None);
        assert(cursor_walk(tables, behind) =~= Seq::<Slot>::empty());
        assert(seq![slot] + cursor_walk(tables, behind) =~= seq![slot]);
    }
}

/// The layout of a run of children with a first child is that child's own
/// layout and then the layout of the others.
proof fn lemma_layout_first(parent: Kind, children: Seq<Node>, m: int, e: int)
    requires
        children.len() > 0,
    ensures
        ({
            let head = layout_node(parent, children[0], m, e);
            layout(parent, children, m, e) == head.append(
                layout(
                    parent,
                    children.skip(1),
                    m + head.members.len(),
                    e + head.elements.len(),
                ),
            )
        }),
{
    let first = children[0];
    let rest = children.skip(1);
    assert(children =~= seq![first] + rest);
    lemma_layout_concat(parent, seq![first], rest, m, e);
    lemma_layout_single(parent, first, m, e);
}

/// Behind the slot of a child the cursor stands behind all that the child
/// has laid out in the table of its parent's kind, where the child, if it is
/// a collection of the other kind, has nothing below it in that table.
proof fn lemma_behind_child(parent: Kind, node: Node, m: int, e: int, limit: int)
    requires
        0 <= m,
        0 <= e,
        node matches Node::Leaf { value, .. } ==> !value.is_collection(),
        node matches Node::Collection { kind, .. } ==> kind != parent ==> slots_below(node, parent)
            == 0,
        base_of(parent, m, e) + layout_node(parent, node, m, e).of(parent).len() <= limit
            <= usize::MAX,
    ensures
        ({
            let head = layout_node(parent, node, m, e);
            let slot = head.of(parent)[0];
            &&& head.of(parent).len() > 0
            &&& position_behind(parent, base_of(parent, m, e), slot) == base_of(parent, m, e)
                + head.of(parent).len()
        }),
{
    let (m1, e1) = match parent {
        Kind::Object => (m + 1, e),
        Kind::Array => (m, e + 1),
    };
    let own = Tables::single(parent, Slot { key: node.key(), value: node_value(node, m1, e1) });
    let head = layout_node(parent, node, m, e);
    assert(own.of(parent).len() == 1);
    match node {
        Node::Leaf { .. } => {
            assert(head == own);
        },
        Node::Collection { kind, children: below, .. } => {
            let inner = layout(kind, below, m1, e1);
            assert(head == own.append(inner));
            assert(head.of(parent) == own.of(parent) + inner.of(parent));
            assert(head.of(parent)[0] == own.of(parent)[0]);
            lemma_layout_len(kind, below, m1, e1, parent);
            let start = base_of(kind, m1, e1);
            let end = start + inner.of(kind).len();
            assert(head.of(parent)[0].value == JsonValue::collection(kind, start, end));
            if kind == parent {
                assert(0 <= end <= usize::MAX);
                assert(JsonValue::collection(kind, start, end).end() == end);
            }
        },
    }
}

/// The slots of the children behind the first are the slots of the others
/// laid out behind the first.
proof fn lemma_later_slots(parent: Kind, children: Seq<Node>, m: int, e: int, i: int)
    requires
        children.len() > 0,
        0 <= i < children.len() - 1,
    ensures
        ({
            let head = layout_node(parent, children[0], m, e);
            child_slot(
                parent,
                children.skip(1),
                m + head.members.len(),
                e + head.elements.len(),
                i,
            ) == child_slot(parent, children, m, e, i + 1)
        }),
{
    let first = children[0];
    let rest = children.skip(1);
    assert(children.take(i + 1) =~= seq![first] + rest.take(i));
    lemma_layout_concat(parent, seq![first], rest.take(i), m, e);
    lemma_layout_single(parent, first, m, e);
    assert(rest[i] == children[i + 1]);
}

/// The cursor over the children of a collection that stand in the tables
/// gives the slot of each child, in their order, and no other slot,
/// where no child of the other kind has anything below it in the table of
/// the collection's kind.
proof fn lemma_walk_children(
    tables: Tables,
    parent_value: JsonValue,
    parent: Kind,
    children: Seq<Node>,
    m: int,
    e: int,
)
    requires
        tables.members.len() <= usize::MAX,
        tables.elements.len() <= usize::MAX,
        holds_at(tables, layout(parent, children, m, e), m, e),
        parent_value.kind() == Some(parent),
        parent_value.end() == base_of(parent, m, e) + layout(parent, children, m, e).of(
            parent,
        ).len(),
        forall|i: int|
            0 <= i < children.len() ==> ((#[trigger] children[i]) matches Node::Leaf { value, .. }
                ==> !value.is_collection()),
        forall|i: int|
            0 <= i < children.len() ==> ((#[trigger] children[i]) matches Node::Collection {
                kind: inner,
                ..
            } ==> inner != parent ==> slots_below(children[i], parent) == 0),
    ensures
        cursor_walk(tables, Cursor { parent: parent_value, position: base_of(parent, m, e) })
            == child_slots(parent, children, m, e),
    decreases children.len(),
{
    let base = base_of(parent, m, e);
    let whole = layout(parent, children, m, e);
    let cursor = Cursor { parent: parent_value, position: base };
    if children.len() == 0 {
        assert(cursor_step(tables, cursor) is None);
        assert(cursor_walk(tables, cursor) =~= child_slots(parent, children, m, e));
    } else {
        let first = children[0];
        let rest = children.skip(1);
        let head = layout_node(parent, first, m, e);
        let mr = m + head.members.len();
        let er = e + head.elements.len();
        let tail = layout(parent, rest, mr, er);
        lemma_layout_first(parent, children, m, e);
        assert(whole.of(parent).len() == head.of(parent).len() + tail.of(parent).len());
        lemma_behind_child(parent, first, m, e, tables.of(parent).len() as int);
        let slot = head.of(parent)[0];
        let behind = base + head.of(parent).len();
        assert(tables.of(parent)[base] == slot) by {
            match parent {
                Kind::Object => {
                    assert(tables.members.subrange(m, m + whole.members.len())[0]
                        == whole.members[0]);
                },
                Kind::Array => {
                    assert(tables.elements.subrange(e, e + whole.elements.len())[0]
                        == whole.elements[0]);
                },
            }
        }
        assert(whole =~= head.append(tail).append(Tables::empty()));
        lemma_holds_within(tables, whole, m, e, head, tail, Tables::empty());
        assert(base_of(parent, mr, er) == behind);
        assert forall|i: int| 0 <= i < rest.len() implies ((#[trigger] rest[i]) matches Node::Leaf {
            value,
            ..
        } ==> !value.is_collection()) by {
            assert(rest[i] == children[i + 1]);
        }
        assert forall|i: int| 0 <= i < rest.len() implies ((
        #[trigger] rest[i]) matches Node::Collection { kind: inner, .. } ==> inner != parent
            ==> slots_below(rest[i], parent) == 0) by {
            assert(rest[i] == children[i + 1]);
        }
        lemma_walk_children(tables, parent_value, parent, rest, mr, er);
        let after = Cursor { parent: parent_value, position: behind };
        assert(cursor_step(tables, cursor) == Some((slot, after)));
        assert(cursor_walk(tables, cursor) == seq![slot] + cursor_walk(tables, after));
        assert(slot == child_slot(parent, children, m, e, 0)) by {
            assert(children.take(0) =~= Seq::<Node>::empty());
        }
        assert forall|i: int| 0 <= i < rest.len() implies child_slot(parent, rest, mr, er, i)
            == child_slot(parent, children, m, e, i + 1) by {
            lemma_later_slots(parent, children, m, e, i);
        }
        assert(seq![slot] + child_slots(parent, rest, mr, er) =~= child_slots(
            parent,
            children,
            m,
            e,
        ));
    }
}

/// Skip correctness. Where the children of a collection stand in the tables
/// and no child of the other kind has anything below it in the table of the
/// collection's kind, a cursor opened on the collection gives exactly the
/// slots of its children, in their order: as many steps as it has children,
/// and nothing that lies deeper.
pub proof fn lemma_cursor_gives_children(tables: Tables, node: Node, m: int, e: int)
    requires
        tables.members.len() <= usize::MAX,
        tables.elements.len() <= usize::MAX,
        node.valid(),
        node.keeps_apart(),
        node matches Node::Collection { kind, children, .. } && holds_at(
            tables,
            layout(kind, children, m, e),
            m,
            e,
        ),
    ensures
        ({
            let value = node_value(node, m, e);
            let met = cursor_walk(tables, Cursor { parent: value, position: value.start() });
            &&& value.kind() == Some(node->kind)
            &&& met == child_slots(node->kind, node->children, m, e)
            &&& met.len() == node->children.len()
        }),
{
    let kind = node->kind;
    let children = node->children;
    let value = node_value(node, m, e);
    assert forall|i: int| 0 <= i < children.len() implies ((
    #[trigger] children[i]) matches Node::Leaf { value, .. } ==> !value.is_collection()) by {
        assert(children[i].valid());
    }
    lemma_walk_children(tables, value, kind, children, m, e);
}

/// What a cursor over the table of kind `table` gives on its way through
/// all that one child of a collection of kind `parent` has laid out in that
/// table: `steps_at` slots, after which it stands behind all of it.
proof fn lemma_walk_node(
    tables: Tables,
    walked: JsonValue,
    parent: Kind,
    node: Node,
    m: int,
    e: int,
    table: Kind,
) -> (met: Seq<Slot>)
    requires
        tables.members.len() <= usize::MAX,
        tables.elements.len() <= usize::MAX,
        holds_at(tables, layout_node(parent, node, m, e), m, e),
        node.valid(),
        walked.kind() == Some(table),
        walked.end() >= base_of(table, m, e) + layout_node(parent, node, m, e).of(table).len(),
    ensures
        met.len() == steps_at(parent, node, table),
        cursor_walk(tables, Cursor { parent: walked, position: base_of(table, m, e) }) == met
            + cursor_walk(
            tables,
            Cursor {
                parent: walked,
                position: base_of(table, m, e) + layout_node(parent, node, m, e).of(table).len(),
            },
        ),
        cursor_rest(tables, Cursor { parent: walked, position: base_of(table, m, e) })
            == cursor_rest(
            tables,
            Cursor {
                parent: walked,
                position: base_of(table, m, e) + layout_node(parent, node, m, e).of(table).len(),
            },
        ),
    decreases node, 0nat,
{
    let base = base_of(table, m, e);
    let whole = layout_node(parent, node, m, e);
    let (m1, e1) = match parent {
        Kind::Object => (m + 1, e),
        Kind::Array => (m, e + 1),
    };
    let slot = Slot { key: node.key(), value: node_value(node, m1, e1) };
    let own = Tables::single(parent, slot);
    let cursor = Cursor { parent: walked, position: base };
    let inner = match node {
        Node::Leaf { .. } => Tables::empty(),
        Node::Collection { kind, children, .. } => layout(kind, children, m1, e1),
    };
    assert(whole =~= own.append(inner));
    assert(whole =~= Tables::empty().append(own).append(inner));
    assert(whole =~= own.append(inner).append(Tables::empty()));
    lemma_holds_within(tables, whole, m, e, own, inner, Tables::empty());
    lemma_holds_within(tables, whole, m, e, Tables::empty(), own, inner);
    assert(whole.of(table).len() == own.of(table).len() + inner.of(table).len());
    let below: Seq<Slot> = match node {
        Node::Leaf { .. } => Seq::empty(),
        Node::Collection { kind, children, .. } => {
            if parent == table && kind == table {
                Seq::empty()
            } else {
                assert forall|i: int| 0 <= i < children.len() implies (
                #[trigger] children[i]).valid() by {}
                lemma_walk_through(tables, walked, kind, children, m1, e1, table)
            }
        },
    };
    if parent == table {
        assert(own.of(table) =~= seq![slot]);
        assert(tables.of(table)[base] == slot) by {
            match table {
                Kind::Object => {
                    assert(tables.members.subrange(m, m + own.members.len())[0] == own.members[0]);
                },
                Kind::Array => {
                    assert(tables.elements.subrange(e, e + own.elements.len())[0]
                        == own.elements[0]);
                },
            }
        }
        let behind = position_behind(table, base, slot);
        match node {
            Node::Leaf { .. } => {
                assert(behind == base + 1);
            },
            Node::Collection { kind, children, .. } => {
                let start = base_of(kind, m1, e1);
                assert(slot.value == JsonValue::collection(
                    kind,
                    start,
                    start + inner.of(kind).len(),
                ));
                if kind == table {
                    assert(0 <= start + inner.of(kind).len() <= usize::MAX);
                    assert(behind == base + 1 + inner.of(table).len());
                } else {
                    assert(behind == base + 1);
                }
            },
        }
        let after = Cursor { parent: walked, position: behind };
        assert(cursor_step(tables, cursor) == Some((slot, after)));
        lemma_walk_step(tables, cursor);
        assert(cursor_rest(tables, cursor) == cursor_rest(tables, after));
        assert(base_of(table, m1, e1) == base + 1);
        let met = seq![slot] + below;
        assert(cursor_walk(tables, cursor) =~= met + cursor_walk(
            tables,
            Cursor { parent: walked, position: base + whole.of(table).len() },
        ));
        met
    } else {
        assert(own.of(table).len() == 0);
        assert(base_of(table, m1, e1) == base);
        below
    }
}

/// The same for all the children of a collection: `steps_through` slots.
proof fn lemma_walk_through(
    tables: Tables,
    walked: JsonValue,
    parent: Kind,
    children: Seq<Node>,
    m: int,
    e: int,
    table: Kind,
) -> (met: Seq<Slot>)
    requires
        tables.members.len() <= usize::MAX,
        tables.elements.len() <= usize::MAX,
        holds_at(tables, layout(parent, children, m, e), m, e),
        forall|i: int| 0 <= i < children.len() ==> (#[trigger] children[i]).valid(),
        walked.kind() == Some(table),
        walked.end() >= base_of(table, m, e) + layout(parent, children, m, e).of(table).len(),
    ensures
        met.len() == steps_through(parent, children, table),
        cursor_walk(tables, Cursor { parent: walked, position: base_of(table, m, e) }) == met
            + cursor_walk(
            tables,
            Cursor {
                parent: walked,
                position: base_of(table, m, e) + layout(parent, children, m, e).of(table).len(),
            },
        ),
        cursor_rest(tables, Cursor { parent: walked, position: base_of(table, m, e) })
            == cursor_rest(
            tables,
            Cursor {
                parent: walked,
                position: base_of(table, m, e) + layout(parent, children, m, e).of(table).len(),
            },
        ),
    decreases children, 1nat,
{
    let base = base_of(table, m, e);
    if children.len() == 0 {
        let met = Seq::<Slot>::empty();
        assert(cursor_walk(tables, Cursor { parent: walked, position: base }) =~= met
            + cursor_walk(tables, Cursor { parent: walked, position: base }));
        met
    } else {
        let front = children.drop_last();
        let last = children.last();
        let lf = layout(parent, front, m, e);
        let mf = m + lf.members.len();
        let ef = e + lf.elements.len();
        let ll = layout_node(parent, last, mf, ef);
        let whole = layout(parent, children, m, e);
        assert(whole == lf.append(ll));
        assert(whole =~= Tables::empty().append(lf).append(ll));
        assert(whole =~= lf.append(ll).append(Tables::empty()));
        lemma_holds_within(tables, whole, m, e, Tables::empty(), lf, ll);
        lemma_holds_within(tables, whole, m, e, lf, ll, Tables::empty());
        assert(whole.of(table).len() == lf.of(table).len() + ll.of(table).len());
        assert forall|i: int| 0 <= i < front.len() implies (#[trigger] front[i]).valid() by {
            assert(front[i] == children[i]);
        }
        assert(last.valid());
        let met_front = lemma_walk_through(tables, walked, parent, front, m, e, table);
        assert(base_of(table, mf, ef) == base + lf.of(table).len());
        let met_last = lemma_walk_node(tables, walked, parent, last, mf, ef, table);
        let met = met_front + met_last;
        assert(cursor_walk(tables, Cursor { parent: walked, position: base }) =~= met
            + cursor_walk(
            tables,
            Cursor { parent: walked, position: base + whole.of(table).len() },
        ));
        met
    }
}

/// A cursor takes no step through what is laid out in its table exactly
/// where nothing is laid out there.
pub proof fn lemma_no_steps_no_slots(parent: Kind, children: Seq<Node>, table: Kind)
    ensures
        steps_through(parent, children, table) == 0 <==> slots_of(parent, children, table) == 0,
        steps_through(parent, children, table) <= slots_of(parent, children, table),
    decreases children,
{
    if children.len() > 0 {
        let front = children.drop_last();
        let last = children.last();
        lemma_no_steps_no_slots(parent, front, table);
        let own = if parent == table { 1nat } else { 0nat };
        assert(steps_through(parent, children, table) == steps_through(parent, front, table)
            + steps_at(parent, last, table));
        assert(slots_of(parent, children, table) == slots_of(parent, front, table) + own
            + slots_below(last, table));
        match last {
            Node::Leaf { .. } => {
                assert(steps_at(parent, last, table) == own);
                assert(slots_below(last, table) == 0);
            },
            Node::Collection { kind, children: below, .. } => {
                lemma_no_steps_no_slots(kind, below, table);
                assert(slots_below(last, table) == slots_of(kind, below, table));
                assert(steps_at(parent, last, table) <= own + steps_through(kind, below, table));
                assert(steps_at(parent, last, table) >= own);
                assert(parent != table ==> steps_at(parent, last, table) == steps_through(
                    kind,
                    below,
                    table,
                ));
            },
        }
    } else {
        assert(steps_through(parent, children, table) == 0);
        assert(slots_of(parent, children, table) == 0);
    }
}

/// A cursor over a collection takes at least one step for each child, and
/// exactly one for each where the collection keeps its children apart.
pub proof fn lemma_steps_of_children(kind: Kind, children: Seq<Node>)
    ensures
        steps_through(kind, children, kind) >= children.len(),
        steps_through(kind, children, kind) == children.len() <==> (Node::Collection {
            key: no_key(),
            kind,
            children,
        }).keeps_apart(),
    decreases children.len(),
{
    let node = Node::Collection { key: no_key(), kind, children };
    if children.len() > 0 {
        let front = children.drop_last();
        let last = children.last();
        let shorter = Node::Collection { key: no_key(), kind, children: front };
        lemma_steps_of_children(kind, front);
        assert(steps_through(kind, children, kind) == steps_through(kind, front, kind) + steps_at(
            kind,
            last,
            kind,
        ));
        match last {
            Node::Leaf { .. } => {
                assert(steps_at(kind, last, kind) == 1);
            },
            Node::Collection { kind: inner, children: below, .. } => {
                lemma_no_steps_no_slots(inner, below, kind);
                assert(slots_below(last, kind) == slots_of(inner, below, kind));
                if inner == kind {
                    assert(steps_at(kind, last, kind) == 1);
                } else {
                    assert(steps_at(kind, last, kind) == 1 + steps_through(inner, below, kind));
                }
            },
        }
        assert(steps_at(kind, last, kind) >= 1);
        assert(steps_at(kind, last, kind) == 1 <==> (last matches Node::Collection {
            kind: inner,
            ..
        } ==> inner != kind ==> slots_below(last, kind) == 0));
        if shorter.keeps_apart() && (last matches Node::Collection { kind: inner, .. } ==> inner
            != kind ==> slots_below(last, kind) == 0) {
            assert forall|i: int| 0 <= i < children.len() implies ((
            #[trigger] children[i]) matches Node::Collection { kind: inner, .. } ==> inner != kind
                ==> slots_below(children[i], kind) == 0) by {
                if i < front.len() {
                    assert(front[i] == children[i]);
                }
            }
        }
        if node.keeps_apart() {
            assert forall|i: int| 0 <= i < front.len() implies ((
            #[trigger] front[i]) matches Node::Collection { kind: inner, .. } ==> inner != kind
                ==> slots_below(front[i], kind) == 0) by {
                assert(front[i] == children[i]);
            }
            assert(children[children.len() - 1] == last);
        }
    } else {
        assert(steps_through(kind, children, kind) == 0);
    }
}

/// Skip correctness, both ways. A cursor opened on a collection whose
/// children stand in the tables takes as many steps as the collection has
/// children exactly where no child of the other kind has anything below it
/// in the table of the collection's kind; else it takes more.
pub proof fn lemma_cursor_counts_children(tables: Tables, node: Node, m: int, e: int)
    requires
        tables.members.len() <= usize::MAX,
        tables.elements.len() <= usize::MAX,
        node.valid(),
        node matches Node::Collection { kind, children, .. } && holds_at(
            tables,
            layout(kind, children, m, e),
            m,
            e,
        ),
    ensures
        ({
            let value = node_value(node, m, e);
            let met = cursor_walk(tables, Cursor { parent: value, position: value.start() });
            &&& met.len() == steps_through(node->kind, node->children, node->kind)
            &&& met.len() >= node->children.len()
            &&& met.len() == node->children.len() <==> node.keeps_apart()
        }),
{
    let kind = node->kind;
    let children = node->children;
    let value = node_value(node, m, e);
    let base = base_of(kind, m, e);
    let end = base + layout(kind, children, m, e).of(kind).len();
    assert(value == JsonValue::collection(kind, base, end));
    assert(0 <= base <= end <= usize::MAX);
    let met = lemma_walk_through(tables, value, kind, children, m, e, kind);
    let at_end = Cursor { parent: value, position: end };
    assert(cursor_step(tables, at_end) is None);
    assert(cursor_walk(tables, at_end) =~= Seq::<Slot>::empty());
    assert(met + cursor_walk(tables, at_end) =~= met);
    lemma_steps_of_children(kind, children);
    assert(node.keeps_apart() == (Node::Collection {
        key: no_key(),
        kind,
        children,
    }).keeps_apart());
}

/// All that lies below `node`, whose children stand in the tables, reads
/// back as `node` where `keeps_apart` holds throughout.
proof fn lemma_reads_back(tables: Tables, node: Node, m: int, e: int)
    requires
        tables.members.len() <= usize::MAX,
        tables.elements.len() <= usize::MAX,
        node.valid(),
        node.keeps_apart_throughout(),
        node matches Node::Collection { kind, children, .. } ==> holds_at(
            tables,
            layout(kind, children, m, e),
            m,
            e,
        ),
    ensures
        reads_as(tables, node_value(node, m, e), node),
    decreases node,
{
    match node {
        Node::Leaf { .. } => {},
        Node::Collection { kind, children, .. } => {
            lemma_cursor_gives_children(tables, node, m, e);
            let value = node_value(node, m, e);
            let met = cursor_walk(tables, Cursor { parent: value, position: value.start() });
            assert forall|i: int| 0 <= i < children.len() implies (#[trigger] met[i]).key
                == children[i].key() && reads_as(tables, met[i].value, children[i]) by {
                let (m1, e1) = child_bases(kind, children, m, e, i);
                assert(met[i] == child_slot(kind, children, m, e, i));
                lemma_child_held(tables, kind, children, m, e, i);
                assert(children[i].valid());
                assert(children[i].keeps_apart_throughout());
                lemma_reads_back(tables, children[i], m1, e1);
            }
        },
    }
}

/// Round-trip shape. Walking the root of a document with the cursor, and
/// each collection met on the way with a cursor of its own, gives every key
/// and value of the tree that the buffer denotes, each once and in the order
/// of the buffer, where no collection of the tree has a child of the other
/// kind with anything below it in the collection's own table.
pub proof fn lemma_round_trip(doc: Document)
    requires
        doc.wf(),
        doc.tree().keeps_apart_throughout(),
    ensures
        reads_as(doc.tables, doc.root, doc.tree()),
{
    lemma_root_held(doc);
    lemma_reads_back(doc.tables, doc.tree(), 0, 0);
}

/// What reads back as `node` keeps its children apart throughout.
proof fn lemma_read_back_kept_apart(tables: Tables, node: Node, m: int, e: int)
    requires
        tables.members.len() <= usize::MAX,
        tables.elements.len() <= usize::MAX,
        node.valid(),
        node matches Node::Collection { kind, children, .. } ==> holds_at(
            tables,
            layout(kind, children, m, e),
            m,
            e,
        ),
        reads_as(tables, node_value(node, m, e), node),
    ensures
        node.keeps_apart_throughout(),
    decreases node,
{
    match node {
        Node::Leaf { .. } => {},
        Node::Collection { kind, children, .. } => {
            lemma_cursor_counts_children(tables, node, m, e);
            lemma_cursor_gives_children(tables, node, m, e);
            let value = node_value(node, m, e);
            let met = cursor_walk(tables, Cursor { parent: value, position: value.start() });
            assert forall|i: int| 0 <= i < children.len() implies (
            #[trigger] children[i]).keeps_apart_throughout() by {
                let (m1, e1) = child_bases(kind, children, m, e, i);
                assert(met[i] == child_slot(kind, children, m, e, i));
                assert(reads_as(tables, met[i].value, children[i]));
                lemma_child_held(tables, kind, children, m, e, i);
                assert(children[i].valid());
                lemma_read_back_kept_apart(tables, children[i], m1, e1);
            }
        },
    }
}

/// Round-trip shape, both ways. Walking the root of a document with the
/// cursor, and each collection met on the way with a cursor of its own,
/// gives every key and value of the tree that the buffer denotes, each once
/// and in the order of the buffer, exactly where no collection of the tree
/// has a child of the other kind with anything below it in the collection's
/// own table.
pub proof fn lemma_round_trip_exactly_when_kept_apart(doc: Document)
    requires
        doc.wf(),
    ensures
        reads_as(doc.tables, doc.root, doc.tree()) <==> doc.tree().keeps_apart_throughout(),
{
    lemma_root_held(doc);
    if doc.tree().keeps_apart_throughout() {
        lemma_round_trip(doc);
    }
    if reads_as(doc.tables, doc.root, doc.tree()) {
        lemma_read_back_kept_apart(doc.tables, doc.tree(), 0, 0);
    }
}

/// Every node of a tree whose children stand in the tables holds scalars at
/// its leaves and, where it is a collection, has its children standing in
/// the tables.
pub proof fn lemma_descendant_held(tables: Tables, node: Node, m: int, e: int, path: Seq<int>)
    requires
        node.valid(),
        node matches Node::Collection { kind, children, .. } ==> holds_at(
            tables,
            layout(kind, children, m, e),
            m,
            e,
        ),
        descend(node, path) is Some,
    ensures
        ({
            let reached = descend(node, path)->Some_0;
            let (mr, er) = descend_bases(node, m, e, path);
            &&& reached.valid()
            &&& reached matches Node::Collection { kind, children, .. } ==> holds_at(
                tables,
                layout(kind, children, mr, er),
                mr,
                er,
            )
        }),
    decreases path.len(),
{
    if path.len() > 0 {
        match node {
            Node::Leaf { .. } => {},
            Node::Collection { kind, children, .. } => {
                let i = path[0];
                let (m1, e1) = child_bases(kind, children, m, e, i);
                lemma_child_held(tables, kind, children, m, e, i);
                assert(children[i].valid());
                lemma_descendant_held(tables, children[i], m1, e1, path.skip(1));
            },
        }
    }
}

/// The cursor has two states. A cursor opened on the value of any
/// collection of a document stands, when it has given all that it gives,
/// at the end of that collection; by the contract of a step it has moved
/// forward with each step before.
pub proof fn lemma_every_cursor_ends_at_end(doc: Document, path: Seq<int>)
    requires
        doc.wf(),
        descend(doc.tree(), path) matches Some(node) && node is Collection,
    ensures
        ({
            let node = descend(doc.tree(), path)->Some_0;
            let (m, e) = descend_bases(doc.tree(), 0, 0, path);
            let value = node_value(node, m, e);
            let opened = Cursor { parent: value, position: value.start() };
            &&& value.start() <= value.end()
            &&& cursor_rest(doc.tables, opened) == (Cursor { parent: value, position: value.end() })
            &&& cursor_step(doc.tables, cursor_rest(doc.tables, opened)) is None
        }),
{
    lemma_root_held(doc);
    lemma_descendant_held(doc.tables, doc.tree(), 0, 0, path);
    let node = descend(doc.tree(), path)->Some_0;
    let (m, e) = descend_bases(doc.tree(), 0, 0, path);
    let kind = node->kind;
    let children = node->children;
    let value = node_value(node, m, e);
    let base = base_of(kind, m, e);
    let end = base + layout(kind, children, m, e).of(kind).len();
    assert(value == JsonValue::collection(kind, base, end));
    assert(0 <= base <= end <= usize::MAX);
    let met = lemma_walk_through(doc.tables, value, kind, children, m, e, kind);
    let at_end = Cursor { parent: value, position: end };
    assert(cursor_step(doc.tables, at_end) is None);
}

/// Skip correctness for every collection of a document. A cursor opened on
/// the value of any collection of the tree takes as many steps as that
/// collection has children exactly where the collection keeps its children
/// apart, and gives exactly the slots of the children then; else it takes
/// more steps.
pub proof fn lemma_every_cursor_counts_children(doc: Document, path: Seq<int>)
    requires
        doc.wf(),
        descend(doc.tree(), path) matches Some(node) && node is Collection,
    ensures
        ({
            let node = descend(doc.tree(), path)->Some_0;
            let (m, e) = descend_bases(doc.tree(), 0, 0, path);
            let value = node_value(node, m, e);
            let met = cursor_walk(doc.tables, Cursor { parent: value, position: value.start() });
            &&& holds_at(doc.tables, layout(node->kind, node->children, m, e), m, e)
            &&& met.len() >= node->children.len()
            &&& met.len() == node->children.len() <==> node.keeps_apart()
            &&& node.keeps_apart() ==> met == child_slots(node->kind, node->children, m, e)
        }),
{
    lemma_root_held(doc);
    lemma_descendant_held(doc.tables, doc.tree(), 0, 0, path);
    let node = descend(doc.tree(), path)->Some_0;
    let (m, e) = descend_bases(doc.tree(), 0, 0, path);
    lemma_cursor_counts_children(doc.tables, node, m, e);
    if node.keeps_apart() {
        lemma_cursor_gives_children(doc.tables, node, m, e);
    }
}

} // verus!
