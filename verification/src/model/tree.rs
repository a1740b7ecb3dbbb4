//! The tree that a buffer denotes: the grammar, token by token.

use crate::model::value::{no_key, JsonValue, Kind};
use crate::token::{lemma_scan_token_advances, scan_token, ByteSpan, JsonError, JsonToken};
use vstd::prelude::*;

verus! {

/// A node of the tree that a buffer denotes, with the key under which its
/// parent holds it (the empty span below an array and at the root).
pub enum Node {
    Leaf { key: ByteSpan, value: JsonValue },
    Collection { key: ByteSpan, kind: Kind, children: Seq<Node> },
}

impl Node {
    pub open spec fn key(self) -> ByteSpan {
        match self {
            Node::Leaf { key, .. } => key,
            Node::Collection { key, .. } => key,
        }
    }

    /// A leaf holds a scalar, here and everywhere below.
    pub open spec fn valid(self) -> bool
        decreases self,
    {
        match self {
            Node::Leaf { value, .. } => !value.is_collection(),
            Node::Collection { children, .. } => forall|i: int|
                0 <= i < children.len() ==> (#[trigger] children[i]).valid(),
        }
    }
}

/// The value of a token that is a value by itself.
pub open spec fn scalar_of(token: JsonToken) -> JsonValue {
    match token {
        JsonToken::String(s) => JsonValue::String(s),
        JsonToken::Number(n) => JsonValue::Number(n),
        JsonToken::Boolean(b) => JsonValue::Boolean(b),
        _ => JsonValue::Null,
    }
}

/// The kind of collection that a token opens.
pub open spec fn opened_kind(token: JsonToken) -> Option<Kind> {
    match token {
        JsonToken::ObjectStart => Some(Kind::Object),
        JsonToken::ArrayStart => Some(Kind::Array),
        _ => None,
    }
}

/// What stands at the head of the rest of a collection: its end, or the key
/// and the first token of one more entry.
pub enum Head {
    Close { next: int },
    Entry { key: ByteSpan, token: JsonToken, next: int },
}

/// The head of the rest of a collection of `kind` from `pos` on.
///
/// In an object an entry is a string, its key, and then the first token of a
/// value; anything but a string or the closing brace in place of the key is
/// an error, and so is a closing token in place of the value. In an array an
/// entry is the first token of a value, and a closing brace is an error.
pub open spec fn entry_head(bytes: Seq<u8>, pos: int, kind: Kind) -> Result<Head, JsonError> {
    let first = scan_token(bytes, pos);
    match (kind, first.result) {
        (_, Err(e)) => Err(e),
        (Kind::Object, Ok(JsonToken::ObjectTerminate)) => Ok(Head::Close { next: first.next }),
        (Kind::Object, Ok(JsonToken::String(key))) => {
            let second = scan_token(bytes, first.next);
            match second.result {
                Err(e) => Err(e),
                Ok(JsonToken::ObjectTerminate) => Err(JsonError::ValueMissingAtObjectEnd),
                Ok(JsonToken::ArrayTerminate) => Err(JsonError::ValueMissingAtArrayEnd),
                Ok(token) => Ok(Head::Entry { key, token, next: second.next }),
            }
        },
        (Kind::Object, Ok(_)) => Err(JsonError::ExpectedKey),
        (Kind::Array, Ok(JsonToken::ArrayTerminate)) => Ok(Head::Close { next: first.next }),
        (Kind::Array, Ok(JsonToken::ObjectTerminate)) => Err(JsonError::ObjectEndInArray),
        (Kind::Array, Ok(token)) => Ok(Head::Entry { key: no_key(), token, next: first.next }),
    }
}

/// The children of a collection and the position behind its closing token.
pub struct Parsed {
    pub children: Seq<Node>,
    pub next: int,
}

/// The children of the collection of `kind` of which `before` has been read
/// and the rest starts at `pos`.
///
/// A nested collection is read to its closing token before its parent goes
/// on. (It ends behind the position at which it began; the test on its end
/// is what makes this definition well-founded.)
pub open spec fn parse_children(bytes: Seq<u8>, pos: int, kind: Kind, before: Seq<Node>) -> Result<
    Parsed,
    JsonError,
>
    decreases bytes.len() - pos,
{
    match entry_head(bytes, pos, kind) {
        Err(e) => Err(e),
        Ok(Head::Close { next }) => Ok(Parsed { children: before, next }),
        Ok(Head::Entry { key, token, next }) => {
            if !(pos < next <= bytes.len()) {
                Err(JsonError::UnexpectedEnd)
            } else {
                match opened_kind(token) {
                    None => parse_children(
                        bytes,
                        next,
                        kind,
                        before.push(Node::Leaf { key, value: scalar_of(token) }),
                    ),
                    Some(inner_kind) => match parse_children(
                        bytes,
                        next,
                        inner_kind,
                        Seq::empty(),
                    ) {
                        Err(e) => Err(e),
                        Ok(inner) => if !(next < inner.next <= bytes.len()) {
                            Err(JsonError::UnexpectedEnd)
                        } else {
                            parse_children(
                                bytes,
                                inner.next,
                                kind,
                                before.push(
                                    Node::Collection {
                                        key,
                                        kind: inner_kind,
                                        children: inner.children,
                                    },
                                ),
                            )
                        },
                    },
                }
            }
        },
    }
}

/// The tree that a buffer denotes, or why it denotes none. The first token
/// must open an object or an array; what follows the token that closes it is
/// not looked at.
pub open spec fn document_tree(bytes: Seq<u8>) -> Result<Node, JsonError> {
    let first = scan_token(bytes, 0);
    match first.result {
        Err(e) => Err(e),
        Ok(token) => match opened_kind(token) {
            None => Err(JsonError::RootNotCollection),
            Some(kind) => match parse_children(bytes, first.next, kind, Seq::empty()) {
                Err(e) => Err(e),
                Ok(parsed) => Ok(Node::Collection { key: no_key(), kind, children: parsed.children }),
            },
        },
    }
}

/// A collection that was read to its end ends behind the position at which
/// it began, and inside the buffer.
pub proof fn lemma_parse_children_advances(bytes: Seq<u8>, pos: int, kind: Kind, before: Seq<Node>)
    requires
        0 <= pos,
    ensures
        parse_children(bytes, pos, kind, before) matches Ok(parsed) ==> pos < parsed.next
            <= bytes.len(),
    decreases bytes.len() - pos,
{
    lemma_scan_token_advances(bytes, pos);
    let first = scan_token(bytes, pos);
    if first.result is Ok {
        lemma_scan_token_advances(bytes, first.next);
    }
    match entry_head(bytes, pos, kind) {
        Ok(Head::Entry { key, token, next }) => {
            if pos < next <= bytes.len() {
                match opened_kind(token) {
                    None => {
                        lemma_parse_children_advances(
                            bytes,
                            next,
                            kind,
                            before.push(Node::Leaf { key, value: scalar_of(token) }),
                        );
                    },
                    Some(inner_kind) => {
                        match parse_children(bytes, next, inner_kind, Seq::empty()) {
                            Ok(inner) => {
                                if next < inner.next <= bytes.len() {
                                    lemma_parse_children_advances(
                                        bytes,
                                        inner.next,
                                        kind,
                                        before.push(
                                            Node::Collection {
                                                key,
                                                kind: inner_kind,
                                                children: inner.children,
                                            },
                                        ),
                                    );
                                }
                            },
                            Err(_) => {},
                        }
                    },
                }
            }
        },
        _ => {},
    }
}

/// The node that is reached from `node` by going to its child `path[0]`,
/// from there to the child `path[1]` of that child, and so on; `None` where
/// there is no such child.
pub open spec fn descend(node: Node, path: Seq<int>) -> Option<Node>
    decreases path.len(),
{
    if path.len() == 0 {
        Some(node)
    } else {
        match node {
            Node::Leaf { .. } => None,
            Node::Collection { children, .. } => if 0 <= path[0] < children.len() {
                descend(children[path[0]], path.skip(1))
            } else {
                None
            },
        }
    }
}

} // verus!
