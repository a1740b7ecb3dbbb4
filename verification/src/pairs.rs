//! Reading the pairs of points out of a document of the form
//! `{"pairs":[{"x0":..,"y0":..,"x1":..,"y1":..}, ..]}`.

use crate::document::{Json, JsonContext};
use crate::laws::cursor::lemma_walk_step;
use crate::laws::layout::lemma_ranges_follow_slots;
use crate::model::{
    cursor_step, cursor_walk, ranges_follow_slots, Cursor, Document, JsonValue, Slot,
};
use crate::token::JsonNumber;
use vstd::prelude::*;

verus! {

/// Two points, each coordinate as the number stands in the buffer.
#[derive(Clone, Copy, Debug, PartialEq, Eq, Structural)]
pub struct PointPair {
    pub x0: JsonNumber,
    pub y0: JsonNumber,
    pub x1: JsonNumber,
    pub y1: JsonNumber,
}

/// Why a document holds no list of pairs.
#[derive(Clone, Copy, Debug, PartialEq, Eq, Structural)]
pub enum PairsError {
    /// The first child of the root is not a collection under the key `pairs`.
    ExpectedPairs,
    /// A child of `pairs` is not a collection that starts with the numbers
    /// `x0`, `y0`, `x1` and `y1`, in this order.
    ExpectedFourNumbers,
}

/// The bytes of `pairs`.
pub open spec fn name_pairs() -> Seq<u8> {
    seq![0x70u8, 0x61u8, 0x69u8, 0x72u8, 0x73u8]
}

/// The bytes of the name of a coordinate: `x` or `y`, then `0` or `1`.
pub open spec fn name_of(axis: u8, point: u8) -> Seq<u8> {
    seq![axis, point]
}

pub const AXIS_X: u8 = 0x78;

pub const AXIS_Y: u8 = 0x79;

pub const POINT_0: u8 = 0x30;

pub const POINT_1: u8 = 0x31;

/// The number that the cursor stands on, where its key is `name`, and the
/// cursor behind it.
pub open spec fn number_named(doc: Document, cursor: Cursor, name: Seq<u8>) -> Option<
    (JsonNumber, Cursor),
> {
    match cursor_step(doc.tables, cursor) {
        Some((slot, behind)) => match slot.value {
            JsonValue::Number(n) => if slot.key.of(doc.bytes) == name {
                Some((n, behind))
            } else {
                None
            },
            _ => None,
        },
        None => None,
    }
}

/// The pair that the collection `value` starts with.
pub open spec fn pair_in(doc: Document, value: JsonValue) -> Option<PointPair> {
    if !value.is_collection() {
        None
    } else {
        let start = Cursor { parent: value, position: value.start() };
        match number_named(doc, start, name_of(AXIS_X, POINT_0)) {
            None => None,
            Some((x0, c1)) => match number_named(doc, c1, name_of(AXIS_Y, POINT_0)) {
                None => None,
                Some((y0, c2)) => match number_named(doc, c2, name_of(AXIS_X, POINT_1)) {
                    None => None,
                    Some((x1, c3)) => match number_named(doc, c3, name_of(AXIS_Y, POINT_1)) {
                        None => None,
                        Some((y1, _)) => Some(PointPair { x0, y0, x1, y1 }),
                    },
                },
            },
        }
    }
}

/// The pairs of all the slots `met`, or `ExpectedFourNumbers` where one of
/// them holds none.
pub open spec fn pairs_in(doc: Document, met: Seq<Slot>) -> Result<Seq<PointPair>, PairsError> {
    if forall|i: int| 0 <= i < met.len() ==> pair_in(doc, (#[trigger] met[i]).value) is Some {
        Ok(Seq::new(met.len(), |i: int| pair_in(doc, met[i].value)->Some_0))
    } else {
        Err(PairsError::ExpectedFourNumbers)
    }
}

/// The pairs of a document: those of all that a cursor gives on the
/// collection that the root holds first, under the key `pairs`.
pub open spec fn document_pairs(doc: Document) -> Result<Seq<PointPair>, PairsError> {
    match cursor_step(doc.tables, Cursor { parent: doc.root, position: doc.root.start() }) {
        Some((slot, _)) => if slot.key.of(doc.bytes) == name_pairs()
            && slot.value.is_collection() {
            pairs_in(
                doc,
                cursor_walk(
                    doc.tables,
                    Cursor { parent: slot.value, position: slot.value.start() },
                ),
            )
        } else {
            Err(PairsError::ExpectedPairs)
        },
        None => Err(PairsError::ExpectedPairs),
    }
}

fn same_bytes(a: &[u8], b: &[u8]) -> (r: bool)
    ensures
        r == (a@ == b@),
{
    if a.len() != b.len() {
        return false;
    }
    let mut i: usize = 0;
    while i < a.len()
        invariant
            a.len() == b.len(),
            i <= a.len(),
            forall|j: int| 0 <= j < i ==> a@[j] == b@[j],
        decreases a.len() - i,
    {
        if a[i] != b[i] {
            return false;
        }
        i += 1;
    }
    assert(a@ =~= b@);
    true
}

/// Takes one step and gives the number that stood there under the name of
/// `axis` and `point`.
fn next_number(json: &Json, context: &mut JsonContext, axis: u8, point: u8) -> (r: Option<
    JsonNumber,
>)
    ensures
        match number_named(json@, old(context)@, name_of(axis, point)) {
            Some((n, behind)) => r == Some(n) && final(context)@ == behind,
            None => r is None,
        },
{
    let name: [u8; 2] = [axis, point];
    assert(name@ =~= name_of(axis, point));
    match json.get_next_element(context) {
        Some((key, JsonValue::Number(n))) => if same_bytes(key, name.as_slice()) {
            Some(*n)
        } else {
            None
        },
        _ => None,
    }
}

/// Reads the pair that the collection `value` starts with.
fn read_pair(json: &Json, value: &JsonValue) -> (r: Option<PointPair>)
    ensures
        r == pair_in(json@, *value),
{
    match json.open_collection(value) {
        None => None,
        Some(mut context) => {
            let x0 = match next_number(json, &mut context, AXIS_X, POINT_0) {
                Some(n) => n,
                None => {
                    return None;
                },
            };
            let y0 = match next_number(json, &mut context, AXIS_Y, POINT_0) {
                Some(n) => n,
                None => {
                    return None;
                },
            };
            let x1 = match next_number(json, &mut context, AXIS_X, POINT_1) {
                Some(n) => n,
                None => {
                    return None;
                },
            };
            let y1 = match next_number(json, &mut context, AXIS_Y, POINT_1) {
                Some(n) => n,
                None => {
                    return None;
                },
            };
            Some(PointPair { x0, y0, x1, y1 })
        },
    }
}

/// Reads the pairs of points of a document.
///
/// The root must hold first, under the key `pairs`, a collection; each
/// child of that collection must be a collection that starts with the four
/// numbers `x0`, `y0`, `x1`, `y1`. What else the document holds is not
/// looked at.
pub fn pairs_from_root_json(json: &Json) -> (r: Result<Vec<PointPair>, PairsError>)
    ensures
        match document_pairs(json@) {
            Ok(pairs) => r matches Ok(v) && v@ == pairs,
            Err(e) => r matches Err(x) && x == e,
        },
{
    let mut root_context = json.get_root_context();
    let pairs_value = match json.get_next_element(&mut root_context) {
        Some((key, value)) => {
            let name: [u8; 5] = [0x70, 0x61, 0x69, 0x72, 0x73];
            assert(name@ =~= name_pairs());
            if !same_bytes(key, name.as_slice()) {
                return Err(PairsError::ExpectedPairs);
            }
            value
        },
        None => {
            return Err(PairsError::ExpectedPairs);
        },
    };
    let mut pairs_context = match json.open_collection(pairs_value) {
        Some(context) => context,
        None => {
            return Err(PairsError::ExpectedPairs);
        },
    };
    let ghost doc = json@;
    let ghost kind = pairs_value.kind()->Some_0;
    let ghost start = pairs_context@;
    let ghost mut met: Seq<Slot> = Seq::empty();
    let mut point_pairs: Vec<PointPair> = Vec::new();
    proof {
        lemma_ranges_follow_slots(doc);
        assert(cursor_walk(doc.tables, start) =~= met + cursor_walk(doc.tables, pairs_context@));
        assert(document_pairs(doc) == pairs_in(doc, cursor_walk(doc.tables, start)));
    }
    loop
        invariant
            doc == json@,
            document_pairs(doc) == pairs_in(doc, cursor_walk(doc.tables, start)),
            doc.wf(),
            ranges_follow_slots(doc.tables),
            pairs_context@.parent == start.parent,
            start.parent.kind() == Some(kind),
            cursor_walk(doc.tables, start) == met + cursor_walk(doc.tables, pairs_context@),
            point_pairs@.len() == met.len(),
            forall|i: int|
                0 <= i < met.len() ==> pair_in(doc, (#[trigger] met[i]).value) == Some(
                    point_pairs@[i],
                ),
        decreases doc.tables.of(kind).len() - pairs_context@.position,
    {
        let ghost before = pairs_context@;
        match json.get_next_element(&mut pairs_context) {
            None => {
                proof {
                    assert(cursor_walk(doc.tables, before) =~= Seq::<Slot>::empty());
                    assert(cursor_walk(doc.tables, start) =~= met);
                    assert(point_pairs@ =~= pairs_in(doc, met)->Ok_0);
                }
                return Ok(point_pairs);
            },
            Some((_, pair_value)) => {
                proof {
                    lemma_walk_step(doc.tables, before);
                }
                let ghost slot = cursor_step(doc.tables, before)->Some_0.0;
                match read_pair(json, pair_value) {
                    None => {
                        proof {
                            let whole = cursor_walk(doc.tables, start);
                            assert(whole[met.len() as int] == slot);
                            assert(pair_in(doc, whole[met.len() as int].value) is None);
                        }
                        return Err(PairsError::ExpectedFourNumbers);
                    },
                    Some(pair) => {
                        point_pairs.push(pair);
                        proof {
                            assert(met + (seq![slot] + cursor_walk(doc.tables, pairs_context@))
                                =~= met.push(slot) + cursor_walk(doc.tables, pairs_context@));
                            met = met.push(slot);
                        }
                    },
                }
            },
        }
    }
}

} // verus!
