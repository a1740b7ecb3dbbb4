//! The parser, which fills the two tables in one pass over the buffer, and
//! the cursor, which walks the direct children of one collection.

use crate::laws::layout::lemma_ranges_follow_slots;
use crate::laws::spans::lemma_spans_in_buffer;
use crate::model::{
    cursor_step, document_tree, element_slots, entry_head, layout, layout_node,
    lemma_parse_children_advances, no_key, node_value, opened_kind, parse_children, scalar_of,
    slot_in_buffer, Cursor, Document, Head, JsonValue, Kind, Node, Slot, Tables,
};
use crate::token::{
    all_digits, decimal_value, is_digit, lemma_decimal_value_grows, lemma_scan_token_advances,
    parse_token, scan_token, ByteSpan, JsonError, JsonNumber, JsonToken, DIGIT_NINE, DIGIT_ZERO,
};
use vstd::prelude::*;
use vstd::slice::slice_subrange;

verus! {

/// The two tables while they are being filled.
struct Arena {
    members: Vec<Slot>,
    elements: Vec<JsonValue>,
}

impl Arena {
    spec fn tables(&self) -> Tables {
        Tables { members: self.members@, elements: element_slots(self.elements@) }
    }

    fn new() -> (r: Arena)
        ensures
            r.tables() == Tables::empty(),
    {
        let r = Arena { members: Vec::new(), elements: Vec::new() };
        assert(r.tables().elements =~= Seq::empty());
        r
    }

    fn len(&self, kind: Kind) -> (r: usize)
        ensures
            r == self.tables().of(kind).len(),
    {
        match kind {
            Kind::Object => self.members.len(),
            Kind::Array => self.elements.len(),
        }
    }

    /// Appends one slot to the table of `kind`.
    fn push(&mut self, kind: Kind, key: ByteSpan, value: JsonValue)
        requires
            kind is Array ==> key == no_key(),
        ensures
            final(self).tables() == old(self).tables().append(
                Tables::single(kind, Slot { key, value }),
            ),
    {
        match kind {
            Kind::Object => {
                self.members.push(Slot { key, value });
            },
            Kind::Array => {
                self.elements.push(value);
            },
        }
        assert(self.tables().members =~= old(self).tables().append(
            Tables::single(kind, Slot { key, value }),
        ).members);
        assert(self.tables().elements =~= old(self).tables().append(
            Tables::single(kind, Slot { key, value }),
        ).elements);
    }

    /// Gives the slot `index` of the table of `kind` another value.
    fn set_value(&mut self, kind: Kind, index: usize, value: JsonValue)
        requires
            index < old(self).tables().of(kind).len(),
        ensures
            final(self).tables().of(kind) == old(self).tables().of(kind).update(
                index as int,
                Slot { key: old(self).tables().of(kind)[index as int].key, value },
            ),
            kind is Object ==> final(self).tables().elements == old(self).tables().elements,
            kind is Array ==> final(self).tables().members == old(self).tables().members,
    {
        match kind {
            Kind::Object => {
                let key = self.members[index].key;
                self.members.set(index, Slot { key, value });
            },
            Kind::Array => {
                self.elements.set(index, value);
                assert(self.tables().elements =~= old(self).tables().elements.update(
                    index as int,
                    Slot { key: no_key(), value },
                ));
            },
        }
    }
}

fn make_collection(kind: Kind, start: usize, end: usize) -> (r: JsonValue)
    ensures
        r == JsonValue::collection(kind, start as int, end as int),
{
    match kind {
        Kind::Object => JsonValue::Object { start_index: start, end_index: end },
        Kind::Array => JsonValue::Array { start_index: start, end_index: end },
    }
}

fn scalar_value(token: JsonToken) -> (r: JsonValue)
    ensures
        r == scalar_of(token),
{
    match token {
        JsonToken::String(s) => JsonValue::String(s),
        JsonToken::Number(n) => JsonValue::Number(n),
        JsonToken::Boolean(b) => JsonValue::Boolean(b),
        _ => JsonValue::Null,
    }
}

fn collection_opened(token: JsonToken) -> (r: Option<Kind>)
    ensures
        r == opened_kind(token),
{
    match token {
        JsonToken::ObjectStart => Some(Kind::Object),
        JsonToken::ArrayStart => Some(Kind::Array),
        _ => None,
    }
}

/// Reads what stands at the head of the rest of a collection of `kind`:
/// `None` for its closing token, else the key and the first token of the
/// value of one more entry.
fn read_head(bytes: &[u8], parsing_index: &mut usize, kind: Kind) -> (r: Result<
    Option<(ByteSpan, JsonToken)>,
    JsonError,
>)
    ensures
        match entry_head(bytes@, *old(parsing_index) as int, kind) {
            Err(e) => r == Err::<Option<(ByteSpan, JsonToken)>, JsonError>(e),
            Ok(Head::Close { next }) => r == Ok::<Option<(ByteSpan, JsonToken)>, JsonError>(None)
                && *final(parsing_index) == next,
            Ok(Head::Entry { key, token, next }) => r == Ok::<
                Option<(ByteSpan, JsonToken)>,
                JsonError,
            >(Some((key, token))) && *final(parsing_index) == next,
        },
{
    let first = parse_token(bytes, parsing_index);
    match kind {
        Kind::Object => match first {
            Err(e) => Err(e),
            Ok(JsonToken::ObjectTerminate) => Ok(None),
            Ok(JsonToken::String(key)) => {
                let second = parse_token(bytes, parsing_index);
                match second {
                    Err(e) => Err(e),
                    Ok(JsonToken::ObjectTerminate) => Err(JsonError::ValueMissingAtObjectEnd),
                    Ok(JsonToken::ArrayTerminate) => Err(JsonError::ValueMissingAtArrayEnd),
                    Ok(token) => Ok(Some((key, token))),
                }
            },
            Ok(_) => Err(JsonError::ExpectedKey),
        },
        Kind::Array => match first {
            Err(e) => Err(e),
            Ok(JsonToken::ArrayTerminate) => Ok(None),
            Ok(JsonToken::ObjectTerminate) => Err(JsonError::ObjectEndInArray),
            Ok(token) => Ok(Some((ByteSpan { offset: 0, len: 0 }, token))),
        },
    }
}

/// The tables after the slot of a scalar child was appended are the tables
/// with that child laid out behind its elder siblings.
proof fn lemma_leaf_appended(
    tables0: Tables,
    kind: Kind,
    before: Seq<Node>,
    key: ByteSpan,
    value: JsonValue,
    now: Tables,
)
    requires
        now == tables0.append(
            layout(kind, before, tables0.members.len() as int, tables0.elements.len() as int),
        ).append(Tables::single(kind, Slot { key, value })),
    ensures
        now == tables0.append(
            layout(
                kind,
                before.push(Node::Leaf { key, value }),
                tables0.members.len() as int,
                tables0.elements.len() as int,
            ),
        ),
{
    let m0 = tables0.members.len() as int;
    let e0 = tables0.elements.len() as int;
    let node = Node::Leaf { key, value };
    let front = layout(kind, before, m0, e0);
    assert(before.push(node).drop_last() =~= before);
    assert(layout_node(kind, node, m0 + front.members.len(), e0 + front.elements.len())
        == Tables::single(kind, Slot { key, value }));
    let whole = tables0.append(layout(kind, before.push(node), m0, e0));
    assert(now.members =~= whole.members);
    assert(now.elements =~= whole.elements);
}

/// The tables after a child that is a collection was read (its slot
/// appended, all below it appended behind, and the slot then given the
/// range that came back) are the tables with that child laid out behind its
/// elder siblings.
proof fn lemma_collection_appended(
    tables0: Tables,
    kind: Kind,
    before: Seq<Node>,
    key: ByteSpan,
    inner_kind: Kind,
    children: Seq<Node>,
    value: JsonValue,
    now: Tables,
)
    requires
        ({
            let front = layout(
                kind,
                before,
                tables0.members.len() as int,
                tables0.elements.len() as int,
            );
            let reserved = tables0.append(front).append(
                Tables::single(kind, Slot { key, value: JsonValue::Null }),
            );
            let below = layout(
                inner_kind,
                children,
                reserved.members.len() as int,
                reserved.elements.len() as int,
            );
            let filled = reserved.append(below);
            &&& value == JsonValue::collection(
                inner_kind,
                reserved.of(inner_kind).len() as int,
                (reserved.of(inner_kind).len() + below.of(inner_kind).len()) as int,
            )
            &&& now.of(kind) == filled.of(kind).update(
                tables0.append(front).of(kind).len() as int,
                Slot { key, value },
            )
            &&& kind is Object ==> now.elements == filled.elements
            &&& kind is Array ==> now.members == filled.members
        }),
    ensures
        now == tables0.append(
            layout(
                kind,
                before.push(Node::Collection { key, kind: inner_kind, children }),
                tables0.members.len() as int,
                tables0.elements.len() as int,
            ),
        ),
{
    let m0 = tables0.members.len() as int;
    let e0 = tables0.elements.len() as int;
    let node = Node::Collection { key, kind: inner_kind, children };
    let front = layout(kind, before, m0, e0);
    let reserved = tables0.append(front).append(
        Tables::single(kind, Slot { key, value: JsonValue::Null }),
    );
    let m1 = reserved.members.len() as int;
    let e1 = reserved.elements.len() as int;
    let below = layout(inner_kind, children, m1, e1);
    assert(before.push(node).drop_last() =~= before);
    assert(value == node_value(node, m1, e1));
    assert(layout_node(kind, node, m0 + front.members.len(), e0 + front.elements.len())
        == Tables::single(kind, Slot { key, value }).append(below));
    let whole = tables0.append(layout(kind, before.push(node), m0, e0));
    assert(now.members =~= whole.members);
    assert(now.elements =~= whole.elements);
}

/// Reads the children of a collection of `kind` whose opening token has just
/// been read, up to its closing token, and appends their slots to the tables.
///
/// For a child that is itself a collection, its own slot is appended first
/// with a value to be replaced, then all that lies below it is read, and
/// then the slot gets the range that came back.
fn parse_collection(bytes: &[u8], arena: &mut Arena, parsing_index: &mut usize, kind: Kind) -> (r:
    Result<JsonValue, JsonError>)
    ensures
        match parse_children(bytes@, *old(parsing_index) as int, kind, Seq::empty()) {
            Err(e) => r == Err::<JsonValue, JsonError>(e),
            Ok(parsed) => {
                let added = layout(
                    kind,
                    parsed.children,
                    old(arena).tables().members.len() as int,
                    old(arena).tables().elements.len() as int,
                );
                &&& final(arena).tables() == old(arena).tables().append(added)
                &&& r == Ok::<JsonValue, JsonError>(
                    JsonValue::collection(
                        kind,
                        old(arena).tables().of(kind).len() as int,
                        (old(arena).tables().of(kind).len() + added.of(kind).len()) as int,
                    ),
                )
                &&& *final(parsing_index) == parsed.next
            },
        },
    decreases bytes.len() - *old(parsing_index),
{
    let ghost begin = *parsing_index as int;
    let ghost tables0 = arena.tables();
    let ghost m0 = arena.tables().members.len() as int;
    let ghost e0 = arena.tables().elements.len() as int;
    let ghost mut before: Seq<Node> = Seq::empty();
    let start = arena.len(kind);
    assert(tables0.append(layout(kind, before, m0, e0)) =~= tables0);
    loop
        invariant
            begin <= *parsing_index,
            begin == *old(parsing_index),
            tables0 == old(arena).tables(),
            m0 == tables0.members.len(),
            e0 == tables0.elements.len(),
            start == tables0.of(kind).len(),
            parse_children(bytes@, begin, kind, Seq::empty()) == parse_children(
                bytes@,
                *parsing_index as int,
                kind,
                before,
            ),
            arena.tables() == tables0.append(layout(kind, before, m0, e0)),
        decreases bytes.len() - *parsing_index,
    {
        let ghost pos = *parsing_index as int;
        proof {
            lemma_scan_token_advances(bytes@, pos);
            if scan_token(bytes@, pos).result is Ok {
                lemma_scan_token_advances(bytes@, scan_token(bytes@, pos).next);
            }
        }
        match read_head(bytes, parsing_index, kind) {
            Err(e) => {
                return Err(e);
            },
            Ok(None) => {
                return Ok(make_collection(kind, start, arena.len(kind)));
            },
            Ok(Some((key, token))) => {
                let ghost next = *parsing_index as int;
                match collection_opened(token) {
                    None => {
                        let value = scalar_value(token);
                        arena.push(kind, key, value);
                        proof {
                            lemma_leaf_appended(tables0, kind, before, key, value, arena.tables());
                            before = before.push(Node::Leaf { key, value });
                        }
                    },
                    Some(inner_kind) => {
                        let index = arena.len(kind);
                        arena.push(kind, key, JsonValue::Null);
                        proof {
                            lemma_parse_children_advances(
                                bytes@,
                                next,
                                inner_kind,
                                Seq::empty(),
                            );
                        }
                        match parse_collection(bytes, arena, parsing_index, inner_kind) {
                            Err(e) => {
                                return Err(e);
                            },
                            Ok(value) => {
                                arena.set_value(kind, index, value);
                                proof {
                                    let inner = parse_children(
                                        bytes@,
                                        next,
                                        inner_kind,
                                        Seq::empty(),
                                    )->Ok_0;
                                    lemma_collection_appended(
                                        tables0,
                                        kind,
                                        before,
                                        key,
                                        inner_kind,
                                        inner.children,
                                        value,
                                        arena.tables(),
                                    );
                                    before = before.push(
                                        Node::Collection {
                                            key,
                                            kind: inner_kind,
                                            children: inner.children,
                                        },
                                    );
                                }
                            },
                        }
                    },
                }
            },
        }
    }
}

/// A parsed document: the buffer it was read from, the two tables and the
/// value of the root. It is made by `parse_json_bytes` and never changes.
pub struct Json<'a> {
    bytes: &'a [u8],
    root: JsonValue,
    object_members: Vec<Slot>,
    array_elements: Vec<JsonValue>,
}

impl<'a> View for Json<'a> {
    type V = Document;

    closed spec fn view(&self) -> Document {
        Document {
            bytes: self.bytes@,
            root: self.root,
            tables: Tables {
                members: self.object_members@,
                elements: element_slots(self.array_elements@),
            },
        }
    }
}

/// A cursor over the direct children of one collection of a document.
#[derive(Clone, Copy, Debug)]
pub struct JsonContext {
    parent: JsonValue,
    child_index: usize,
}

impl View for JsonContext {
    type V = Cursor;

    closed spec fn view(&self) -> Cursor {
        Cursor { parent: self.parent, position: self.child_index as int }
    }
}

/// Parses a buffer into a document.
///
/// The result is the document of the tree that the buffer denotes, and the
/// error that `document_tree` gives where it denotes none.
pub fn parse_json_bytes<'a>(json_bytes: &'a [u8]) -> (r: Result<Json<'a>, JsonError>)
    ensures
        match document_tree(json_bytes@) {
            Err(e) => r matches Err(x) && x == e,
            Ok(tree) => r matches Ok(json) && json@ == Document::of(json_bytes@, tree)
                && json@.wf(),
        },
{
    let mut arena = Arena::new();
    let mut parsing_index: usize = 0;
    match parse_token(json_bytes, &mut parsing_index) {
        Err(e) => Err(e),
        Ok(token) => match collection_opened(token) {
            None => Err(JsonError::RootNotCollection),
            Some(kind) => match parse_collection(json_bytes, &mut arena, &mut parsing_index, kind) {
                Err(e) => Err(e),
                Ok(root) => {
                    proof {
                        let tree = document_tree(json_bytes@)->Ok_0;
                        assert(arena.tables() =~= Document::of(json_bytes@, tree).tables);
                        assert(arena.members@.len() == arena.members.len());
                        assert(arena.elements@.len() == arena.elements.len());
                        assert(json_bytes@.len() == json_bytes.len());
                    }
                    let json = Json {
                        bytes: json_bytes,
                        root,
                        object_members: arena.members,
                        array_elements: arena.elements,
                    };
                    proof {
                        let tree = document_tree(json_bytes@)->Ok_0;
                        assert(json@.tables =~= Document::of(json_bytes@, tree).tables);
                        assert(json@ =~= Document::of(json_bytes@, tree));
                    }
                    Ok(json)
                },
            },
        },
    }
}

impl<'a> Json<'a> {
    #[verifier::type_invariant]
    spec fn well_formed(&self) -> bool {
        self@.wf()
    }

    /// The cursor over the root collection, at its first child.
    pub fn get_root_context(&self) -> (context: JsonContext)
        ensures
            self@.wf(),
            context@ == (Cursor { parent: self@.root, position: self@.root.start() }),
    {
        proof {
            use_type_invariant(self);
        }
        let child_index = match self.root {
            JsonValue::Object { start_index, .. } => start_index,
            JsonValue::Array { start_index, .. } => start_index,
            _ => 0,
        };
        JsonContext { parent: self.root, child_index }
    }

    /// The cursor over a collection value, at its first child; `None` for a
    /// value that is no collection.
    pub fn open_collection(&self, element: &JsonValue) -> (context: Option<JsonContext>)
        ensures
            self@.wf(),
            match context {
                Some(c) => element.is_collection() && c@ == (Cursor {
                    parent: *element,
                    position: element.start(),
                }),
                None => !element.is_collection(),
            },
    {
        proof {
            use_type_invariant(self);
        }
        match element {
            JsonValue::Object { start_index, .. } => Some(
                JsonContext { parent: *element, child_index: *start_index },
            ),
            JsonValue::Array { start_index, .. } => Some(
                JsonContext { parent: *element, child_index: *start_index },
            ),
            _ => None,
        }
    }

    /// One step of the cursor: the key and the value of the child it stands
    /// on, after which it stands behind that child and all that lies below
    /// it; or `None` at the end of the collection, where it stays.
    ///
    /// The key is the bytes of the buffer that the key's span covers,
    /// empty for an element of an array.
    pub fn get_next_element(&self, context: &mut JsonContext) -> (r: Option<(&[u8], &JsonValue)>)
        ensures
            self@.wf(),
            match cursor_step(self@.tables, old(context)@) {
                None => r is None && final(context)@ == old(context)@,
                Some((slot, behind)) => {
                    &&& r matches Some((key, value))
                    &&& key@ == slot.key.of(self@.bytes)
                    &&& *value == slot.value
                    &&& final(context)@ == behind
                    &&& old(context)@.position < behind.position
                },
            },
    {
        proof {
            use_type_invariant(self);
            lemma_spans_in_buffer(self@);
            lemma_ranges_follow_slots(self@);
        }
        match context.parent {
            JsonValue::Array { start_index: _, end_index } => {
                if context.child_index >= end_index || context.child_index
                    >= self.array_elements.len() {
                    None
                } else {
                    let value = &self.array_elements[context.child_index];
                    match value {
                        JsonValue::Array { start_index: _, end_index } => {
                            context.child_index = *end_index;
                        },
                        _ => {
                            context.child_index += 1;
                        },
                    }
                    Some((slice_subrange(self.bytes, 0, 0), value))
                }
            },
            JsonValue::Object { start_index: _, end_index } => {
                if context.child_index >= end_index || context.child_index
                    >= self.object_members.len() {
                    None
                } else {
                    let slot = &self.object_members[context.child_index];
                    assert(slot_in_buffer(self@.bytes, Kind::Object, *slot));
                    match slot.value {
                        JsonValue::Object { start_index: _, end_index } => {
                            context.child_index = end_index;
                        },
                        _ => {
                            context.child_index += 1;
                        },
                    }
                    Some(
                        (
                            slice_subrange(
                                self.bytes,
                                slot.key.offset,
                                slot.key.offset + slot.key.len,
                            ),
                            &slot.value,
                        ),
                    )
                }
            },
            _ => None,
        }
    }

    /// The bytes of the buffer that a span of this document covers: the raw
    /// text of a string or of a key, with its backslashes, or the digits of
    /// one part of a number. `None` for a span that is not inside the buffer.
    pub fn span_bytes(&self, span: &ByteSpan) -> (r: Option<&[u8]>)
        ensures
            match r {
                Some(b) => span.within(self@.bytes.len()) && b@ == span.of(self@.bytes),
                None => !span.within(self@.bytes.len()),
            },
    {
        let n = self.bytes.len();
        if span.offset <= n && span.len <= n - span.offset {
            Some(slice_subrange(self.bytes, span.offset, span.offset + span.len))
        } else {
            None
        }
    }

    /// The exponent of a number of this document, accumulated from its
    /// digits; `None` where it is above `i32::MAX`, and for a number whose
    /// exponent is no run of digits of the buffer.
    pub fn exponent_of(&self, number: &JsonNumber) -> (r: Option<i32>)
        ensures
            r == if number.exponent.within(self@.bytes.len()) && all_digits(
                number.exponent.of(self@.bytes),
            ) && decimal_value(number.exponent.of(self@.bytes)) <= i32::MAX {
                Some(number.exponent_in(self@.bytes) as i32)
            } else {
                None
            },
    {
        let digits = match self.span_bytes(&number.exponent) {
            Some(digits) => digits,
            None => {
                return None;
            },
        };
        let mut exp: i32 = 0;
        let mut i: usize = 0;
        while i < digits.len()
            invariant
                i <= digits.len(),
                digits@ == number.exponent.of(self@.bytes),
                all_digits(digits@.take(i as int)),
                exp == decimal_value(digits@.take(i as int)),
            decreases digits.len() - i,
        {
            let byte = digits[i];
            if byte < DIGIT_ZERO || byte > DIGIT_NINE {
                assert(!is_digit(digits@[i as int]));
                return None;
            }
            let digit = (byte - DIGIT_ZERO) as i32;
            proof {
                let next = digits@.take(i + 1);
                assert(next.drop_last() =~= digits@.take(i as int));
                assert(next.last() == byte);
                assert forall|j: int| 0 <= j < next.len() implies is_digit(#[trigger] next[j]) by {
                    if j < i {
                        assert(next[j] == digits@.take(i as int)[j]);
                    }
                }
                if all_digits(digits@) {
                    lemma_decimal_value_grows(digits@, i + 1);
                }
            }
            if exp > (i32::MAX - digit) / 10 {
                return None;
            }
            exp = exp * 10 + digit;
            i += 1;
        }
        assert(digits@.take(i as int) =~= digits@);
        if number.exponent_negative {
            Some(-exp)
        } else {
            Some(exp)
        }
    }

    /// The buffer that the document was read from.
    pub fn source(&self) -> (r: &[u8])
        ensures
            r@ == self@.bytes,
    {
        self.bytes
    }
}

} // verus!
