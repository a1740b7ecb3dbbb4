//! The layout of a tree in the two tables: how layouts compose, where each
//! child stands, and that every range follows its slot.

use crate::laws::spans::{lemma_children_in_buffer, lemma_in_buffer_valid};
use crate::model::{
    base_of, child_bases, child_slot, holds_at, layout, layout_node, node_value, opened_kind,
    ranges_follow_slots, slot_opens_behind, slots_below, slots_of, Document, JsonValue, Kind, Node,
    Slot, Tables,
};
use crate::token::{lemma_scan_token_advances, scan_token};
use vstd::prelude::*;

verus! {

/// Laying out one run of children behind another is laying out both as one.
pub proof fn lemma_layout_concat(parent: Kind, a: Seq<Node>, b: Seq<Node>, m: int, e: int)
    ensures
        layout(parent, a + b, m, e) == layout(parent, a, m, e).append(
            layout(
                parent,
                b,
                m + layout(parent, a, m, e).members.len(),
                e + layout(parent, a, m, e).elements.len(),
            ),
        ),
    decreases b.len(),
{
    let la = layout(parent, a, m, e);
    let mb = m + la.members.len();
    let eb = e + la.elements.len();
    if b.len() == 0 {
        assert(a + b =~= a);
        assert(la.append(layout(parent, b, mb, eb)) =~= la);
    } else {
        let front = b.drop_last();
        assert((a + b).drop_last() =~= a + front);
        assert((a + b).last() == b.last());
        lemma_layout_concat(parent, a, front, m, e);
        let lf = layout(parent, front, mb, eb);
        let last = layout_node(
            parent,
            b.last(),
            mb + lf.members.len(),
            eb + lf.elements.len(),
        );
        assert(layout(parent, a + b, m, e) == la.append(lf).append(last));
        assert(layout(parent, b, mb, eb) == lf.append(last));
        assert(la.append(lf).append(last) =~= la.append(lf.append(last)));
    }
}

/// One child alone is laid out as that child.
pub proof fn lemma_layout_single(parent: Kind, node: Node, m: int, e: int)
    ensures
        layout(parent, seq![node], m, e) == layout_node(parent, node, m, e),
{
    let one = seq![node];
    assert(one.drop_last() =~= Seq::<Node>::empty());
    assert(layout(parent, one.drop_last(), m, e) == Tables::empty());
    assert(Tables::empty().append(layout_node(parent, node, m, e)) =~= layout_node(
        parent,
        node,
        m,
        e,
    ));
}

/// The number of slots that a layout takes in a table does not depend on
/// where it is laid out: it is the count of `slots_of`.
pub proof fn lemma_layout_len(parent: Kind, children: Seq<Node>, m: int, e: int, table: Kind)
    ensures
        layout(parent, children, m, e).of(table).len() == slots_of(parent, children, table),
    decreases children,
{
    if children.len() > 0 {
        let front = layout(parent, children.drop_last(), m, e);
        lemma_layout_len(parent, children.drop_last(), m, e, table);
        let mf = m + front.members.len();
        let ef = e + front.elements.len();
        let (m1, e1) = match parent {
            Kind::Object => (mf + 1, ef),
            Kind::Array => (mf, ef + 1),
        };
        let node = children.last();
        let own = Tables::single(parent, Slot { key: node.key(), value: node_value(node, m1, e1) });
        let added = layout_node(parent, node, mf, ef);
        assert(own.of(table).len() == if parent == table { 1nat } else { 0nat });
        match node {
            Node::Leaf { .. } => {
                assert(added == own);
            },
            Node::Collection { kind, children: below, .. } => {
                lemma_layout_len(kind, below, m1, e1, table);
                let inner = layout(kind, below, m1, e1);
                assert(added == own.append(inner));
                assert(added.of(table).len() == own.of(table).len() + inner.of(table).len());
            },
        }
        assert(layout(parent, children, m, e) == front.append(added));
        assert(front.append(added).of(table).len() == front.of(table).len() + added.of(
            table,
        ).len());
        assert(added.of(table).len() == own.of(table).len() + slots_below(node, table));
    }
}

/// A part of a part of the tables is a part of the tables.
pub proof fn lemma_holds_within(
    tables: Tables,
    whole: Tables,
    m: int,
    e: int,
    before: Tables,
    part: Tables,
    after: Tables,
)
    requires
        holds_at(tables, whole, m, e),
        whole == before.append(part).append(after),
    ensures
        holds_at(tables, part, m + before.members.len(), e + before.elements.len()),
{
    let pm = m + before.members.len();
    let pe = e + before.elements.len();
    assert(tables.members.subrange(pm, pm + part.members.len()) =~= part.members) by {
        assert forall|i: int| 0 <= i < part.members.len() implies tables.members[pm + i]
            == part.members[i] by {
            assert(tables.members.subrange(m, m + whole.members.len())[before.members.len() + i]
                == whole.members[before.members.len() + i]);
        }
    }
    assert(tables.elements.subrange(pe, pe + part.elements.len()) =~= part.elements) by {
        assert forall|i: int| 0 <= i < part.elements.len() implies tables.elements[pe + i]
            == part.elements[i] by {
            assert(tables.elements.subrange(e, e + whole.elements.len())[before.elements.len()
                + i] == whole.elements[before.elements.len() + i]);
        }
    }
}

/// Where the children of a collection stand in the tables, each child has
/// its slot at its place in the table of the collection's kind, and all
/// that lies below a child that is a collection stands in the tables too.
pub proof fn lemma_child_held(
    tables: Tables,
    parent: Kind,
    children: Seq<Node>,
    m: int,
    e: int,
    i: int,
)
    requires
        holds_at(tables, layout(parent, children, m, e), m, e),
        0 <= i < children.len(),
    ensures
        ({
            let front = layout(parent, children.take(i), m, e);
            let index = base_of(parent, m, e) + front.of(parent).len();
            let (m1, e1) = child_bases(parent, children, m, e, i);
            &&& 0 <= index < tables.of(parent).len()
            &&& index < base_of(parent, m, e) + layout(parent, children, m, e).of(parent).len()
            &&& tables.of(parent)[index] == child_slot(parent, children, m, e, i)
            &&& children[i] matches Node::Collection { kind, children: below, .. } ==> holds_at(
                tables,
                layout(kind, below, m1, e1),
                m1,
                e1,
            )
        }),
{
    let whole = layout(parent, children, m, e);
    let a = children.take(i);
    let node = children[i];
    let c = children.skip(i + 1);
    assert(children =~= a + seq![node] + c);
    let front = layout(parent, a, m, e);
    let mf = m + front.members.len();
    let ef = e + front.elements.len();
    lemma_layout_concat(parent, a + seq![node], c, m, e);
    lemma_layout_concat(parent, a, seq![node], m, e);
    lemma_layout_single(parent, node, mf, ef);
    let mid = layout_node(parent, node, mf, ef);
    let rest = layout(parent, c, mf + mid.members.len(), ef + mid.elements.len());
    assert(whole == front.append(mid).append(rest));
    lemma_holds_within(tables, whole, m, e, front, mid, rest);
    let (m1, e1) = child_bases(parent, children, m, e, i);
    let own = Tables::single(parent, Slot { key: node.key(), value: node_value(node, m1, e1) });
    let index = base_of(parent, m, e) + front.of(parent).len();
    assert(mid.of(parent)[0] == own.of(parent)[0]);
    assert(tables.members.subrange(mf, mf + mid.members.len()) == mid.members);
    assert(tables.elements.subrange(ef, ef + mid.elements.len()) == mid.elements);
    match parent {
        Kind::Object => {
            assert(tables.members.subrange(mf, mf + mid.members.len())[0] == tables.members[mf]);
        },
        Kind::Array => {
            assert(tables.elements.subrange(ef, ef + mid.elements.len())[0]
                == tables.elements[ef]);
        },
    }
    match node {
        Node::Leaf { .. } => {},
        Node::Collection { kind, children: below, .. } => {
            let inner = layout(kind, below, m1, e1);
            assert(mid == own.append(inner));
            assert(mid =~= own.append(inner).append(Tables::empty()));
            lemma_holds_within(tables, mid, mf, ef, own, inner, Tables::empty());
        },
    }
}

/// The tree of a document holds scalars at its leaves, and the children of
/// its root stand in the tables from their start.
pub proof fn lemma_root_held(doc: Document)
    requires
        doc.wf(),
    ensures
        doc.tree().valid(),
        doc.tree() matches Node::Collection { kind, children, .. } && holds_at(
            doc.tables,
            layout(kind, children, 0, 0),
            0,
            0,
        ),
        doc.root == node_value(doc.tree(), 0, 0),
{
    let first = scan_token(doc.bytes, 0);
    lemma_scan_token_advances(doc.bytes, 0);
    let kind = opened_kind(first.result->Ok_0)->Some_0;
    lemma_children_in_buffer(doc.bytes, first.next, kind, Seq::empty());
    lemma_in_buffer_valid(doc.bytes, Kind::Array, doc.tree());
    let part = layout(kind, doc.tree()->children, 0, 0);
    assert(doc.tables.members.subrange(0, part.members.len() as int) =~= part.members);
    assert(doc.tables.elements.subrange(0, part.elements.len() as int) =~= part.elements);
}

/// The same of a part of the tables whose slots stand at `m` and `e` and
/// behind, with the ends of the two tables given.
spec fn part_follows(part: Tables, m: int, e: int, m_end: int, e_end: int) -> bool {
    &&& forall|i: int|
        0 <= i < part.members.len() ==> slot_opens_behind(
            Kind::Object,
            #[trigger] part.members[i],
            m + i,
            m_end,
        )
    &&& forall|i: int|
        0 <= i < part.elements.len() ==> slot_opens_behind(
            Kind::Array,
            #[trigger] part.elements[i],
            e + i,
            e_end,
        )
}

proof fn lemma_append_follows(
    first: Tables,
    second: Tables,
    m: int,
    e: int,
    m_end: int,
    e_end: int,
)
    requires
        part_follows(first, m, e, m_end, e_end),
        part_follows(second, m + first.members.len(), e + first.elements.len(), m_end, e_end),
    ensures
        part_follows(first.append(second), m, e, m_end, e_end),
{
    let both = first.append(second);
    assert forall|i: int| 0 <= i < both.members.len() implies slot_opens_behind(
        Kind::Object,
        #[trigger] both.members[i],
        m + i,
        m_end,
    ) by {
        if i >= first.members.len() {
            assert(both.members[i] == second.members[i - first.members.len()]);
        } else {
            assert(both.members[i] == first.members[i]);
        }
    }
    assert forall|i: int| 0 <= i < both.elements.len() implies slot_opens_behind(
        Kind::Array,
        #[trigger] both.elements[i],
        e + i,
        e_end,
    ) by {
        if i >= first.elements.len() {
            assert(both.elements[i] == second.elements[i - first.elements.len()]);
        } else {
            assert(both.elements[i] == first.elements[i]);
        }
    }
}

/// The slots of a layout follow the rule, with the ends of the layout for
/// the ends of the tables.
proof fn lemma_layout_follows(parent: Kind, children: Seq<Node>, m: int, e: int)
    requires
        0 <= m,
        0 <= e,
        m + layout(parent, children, m, e).members.len() <= usize::MAX,
        e + layout(parent, children, m, e).elements.len() <= usize::MAX,
        forall|i: int| 0 <= i < children.len() ==> (#[trigger] children[i]).valid(),
    ensures
        part_follows(
            layout(parent, children, m, e),
            m,
            e,
            m + layout(parent, children, m, e).members.len(),
            e + layout(parent, children, m, e).elements.len(),
        ),
    decreases children,
{
    if children.len() > 0 {
        let whole = layout(parent, children, m, e);
        let m_end = m + whole.members.len();
        let e_end = e + whole.elements.len();
        let front = layout(parent, children.drop_last(), m, e);
        let node = children.last();
        let mf = m + front.members.len();
        let ef = e + front.elements.len();
        let added = layout_node(parent, node, mf, ef);
        assert(whole == front.append(added));
        assert forall|i: int| 0 <= i < children.drop_last().len() implies (
        #[trigger] children.drop_last()[i]).valid() by {
            assert(children.drop_last()[i] == children[i]);
        }
        lemma_layout_follows(parent, children.drop_last(), m, e);
        assert(part_follows(front, m, e, m_end, e_end));
        assert(node.valid());
        let (m1, e1) = match parent {
            Kind::Object => (mf + 1, ef),
            Kind::Array => (mf, ef + 1),
        };
        let own = Tables::single(parent, Slot { key: node.key(), value: node_value(node, m1, e1) });
        match node {
            Node::Leaf { value, .. } => {
                assert(added == own);
                assert(part_follows(own, mf, ef, m_end, e_end));
            },
            Node::Collection { kind, children: below, .. } => {
                let inner = layout(kind, below, m1, e1);
                assert(added == own.append(inner));
                lemma_layout_follows(kind, below, m1, e1);
                assert(part_follows(inner, m1, e1, m_end, e_end));
                let start = base_of(kind, m1, e1);
                assert(node_value(node, m1, e1) == JsonValue::collection(
                    kind,
                    start,
                    start + inner.of(kind).len(),
                ));
                assert(part_follows(own, mf, ef, m_end, e_end));
                lemma_append_follows(own, inner, mf, ef, m_end, e_end);
            },
        }
        lemma_append_follows(front, added, m, e, m_end, e_end);
    }
}

/// In a document every collection that stands in the table of its own kind
/// starts right behind its slot and ends inside the table: a step of the
/// cursor always leaves it behind where it stood.
pub proof fn lemma_ranges_follow_slots(doc: Document)
    requires
        doc.wf(),
    ensures
        ranges_follow_slots(doc.tables),
{
    let tree = doc.tree();
    lemma_root_held(doc);
    lemma_layout_follows(tree->kind, tree->children, 0, 0);
}

} // verus!
