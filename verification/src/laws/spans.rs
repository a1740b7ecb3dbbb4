//! Zero-copy identity: every span that a document holds is a span of its own
//! buffer.

use crate::model::{
    entry_head, layout, layout_node, node_in_buffer, node_value, opened_kind, parse_children,
    scalar_of, slot_in_buffer, tables_in_buffer, Document, Head, Kind, Node, Slot, Tables,
};
use crate::token::{lemma_scan_token_advances, lemma_scan_token_spans, scan_token};
use vstd::prelude::*;

verus! {

/// Every node that the grammar reads has its spans in the buffer.
pub proof fn lemma_children_in_buffer(bytes: Seq<u8>, pos: int, kind: Kind, before: Seq<Node>)
    requires
        0 <= pos,
        bytes.len() <= usize::MAX,
        forall|i: int| 0 <= i < before.len() ==> node_in_buffer(bytes, kind, #[trigger] before[i]),
    ensures
        parse_children(bytes, pos, kind, before) matches Ok(parsed) ==> forall|i: int|
            0 <= i < parsed.children.len() ==> node_in_buffer(
                bytes,
                kind,
                #[trigger] parsed.children[i],
            ),
    decreases bytes.len() - pos,
{
    lemma_scan_token_advances(bytes, pos);
    lemma_scan_token_spans(bytes, pos);
    let first = scan_token(bytes, pos);
    if first.result is Ok {
        lemma_scan_token_advances(bytes, first.next);
        lemma_scan_token_spans(bytes, first.next);
    }
    match entry_head(bytes, pos, kind) {
        Ok(Head::Entry { key, token, next }) => {
            if pos < next <= bytes.len() {
                match opened_kind(token) {
                    None => {
                        let node = Node::Leaf { key, value: scalar_of(token) };
                        assert(node_in_buffer(bytes, kind, node));
                        lemma_children_in_buffer(bytes, next, kind, before.push(node));
                    },
                    Some(inner_kind) => {
                        lemma_children_in_buffer(bytes, next, inner_kind, Seq::empty());
                        match parse_children(bytes, next, inner_kind, Seq::empty()) {
                            Ok(inner) => {
                                if next < inner.next <= bytes.len() {
                                    let node = Node::Collection {
                                        key,
                                        kind: inner_kind,
                                        children: inner.children,
                                    };
                                    assert(node_in_buffer(bytes, kind, node));
                                    lemma_children_in_buffer(
                                        bytes,
                                        inner.next,
                                        kind,
                                        before.push(node),
                                    );
                                }
                            },
                            Err(_) => {},
                        }
                    },
                }
            }
        },
        _ => {},
    }
}

/// Two tables with their spans in the buffer, one behind the other, have
/// their spans in the buffer.
proof fn lemma_append_in_buffer(bytes: Seq<u8>, first: Tables, second: Tables)
    requires
        tables_in_buffer(bytes, first),
        tables_in_buffer(bytes, second),
    ensures
        tables_in_buffer(bytes, first.append(second)),
{
    let both = first.append(second);
    assert forall|i: int| 0 <= i < both.members.len() implies slot_in_buffer(
        bytes,
        Kind::Object,
        #[trigger] both.members[i],
    ) by {
        if i >= first.members.len() {
            assert(both.members[i] == second.members[i - first.members.len()]);
        }
    }
    assert forall|i: int| 0 <= i < both.elements.len() implies slot_in_buffer(
        bytes,
        Kind::Array,
        #[trigger] both.elements[i],
    ) by {
        if i >= first.elements.len() {
            assert(both.elements[i] == second.elements[i - first.elements.len()]);
        }
    }
}

/// The slots that nodes with their spans in the buffer add to the tables
/// have their spans in the buffer.
pub proof fn lemma_layout_in_buffer(
    bytes: Seq<u8>,
    parent: Kind,
    children: Seq<Node>,
    m: int,
    e: int,
)
    requires
        forall|i: int|
            0 <= i < children.len() ==> node_in_buffer(bytes, parent, #[trigger] children[i]),
    ensures
        tables_in_buffer(bytes, layout(parent, children, m, e)),
    decreases children,
{
    if children.len() > 0 {
        let front = layout(parent, children.drop_last(), m, e);
        lemma_layout_in_buffer(bytes, parent, children.drop_last(), m, e);
        let node = children.last();
        let mf = m + front.members.len();
        let ef = e + front.elements.len();
        let (m1, e1) = match parent {
            Kind::Object => (mf + 1, ef),
            Kind::Array => (mf, ef + 1),
        };
        assert(node_in_buffer(bytes, parent, node));
        let own = Tables::single(
            parent,
            Slot { key: node.key(), value: node_value(node, m1, e1) },
        );
        assert(tables_in_buffer(bytes, own));
        match node {
            Node::Leaf { .. } => {},
            Node::Collection { kind, children: below, .. } => {
                lemma_layout_in_buffer(bytes, kind, below, m1, e1);
                lemma_append_in_buffer(bytes, own, layout(kind, below, m1, e1));
            },
        }
        lemma_append_in_buffer(bytes, front, layout_node(parent, node, mf, ef));
    }
}

/// The spans of a document are spans of its own buffer: every key of the
/// member table and every string value is the content of a string of the
/// buffer, between its two quotes, and every number is three runs of digits
/// of the buffer. The element table holds no keys.
pub proof fn lemma_spans_in_buffer(doc: Document)
    requires
        doc.wf(),
    ensures
        tables_in_buffer(doc.bytes, doc.tables),
{
    let first = scan_token(doc.bytes, 0);
    lemma_scan_token_advances(doc.bytes, 0);
    let kind = opened_kind(first.result->Ok_0)->Some_0;
    lemma_children_in_buffer(doc.bytes, first.next, kind, Seq::empty());
    let children = parse_children(doc.bytes, first.next, kind, Seq::empty())->Ok_0.children;
    lemma_layout_in_buffer(doc.bytes, kind, children, 0, 0);
}

/// A node with its spans in the buffer holds scalars at its leaves.
pub proof fn lemma_in_buffer_valid(bytes: Seq<u8>, parent: Kind, node: Node)
    requires
        node_in_buffer(bytes, parent, node),
    ensures
        node.valid(),
    decreases node,
{
    match node {
        Node::Leaf { .. } => {},
        Node::Collection { kind, children, .. } => {
            assert forall|i: int| 0 <= i < children.len() implies (#[trigger] children[i]).valid() by {
                lemma_in_buffer_valid(bytes, kind, children[i]);
            }
        },
    }
}

} // verus!
