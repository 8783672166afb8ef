//! The actions of a tree-map workload.
//!
//! An action is drawn as a 32-bit selector and, for an insert, a key and a
//! value. The selector, scaled to a percentage, chooses the kind, and the
//! two kinds have equal shares:
//!
//! | percentage | kind   |
//! |-----------:|--------|
//! |     0 - 49 | Insert |
//! |    50 - 99 | Iter   |

use crate::cursor::{after_take, take_u32, unread};
use crate::draw::Draw;
use crate::payload::Payload;
use crate::types::{leading_u32, taken, MockValue};
use crate::weights::{bucket, bucket_of, percent, percent_of};
use crate::wire::{parsed_tag, read_tag, Wire, WireError};
use arbitrary::Unstructured;
use vstd::prelude::*;

verus! {

/// One operation on a tree map.
#[derive(Clone, Debug, PartialEq, Eq)]
pub enum MapAction<K, V> {
    /// Stores the value under the key and commits.
    Insert(K, V),
    /// Walks all entries in the order of their keys.
    Iter,
}

impl<K: View, V: View> View for MapAction<K, V> {
    type V = MapAction<K::V, V::V>;

    open spec fn view(&self) -> MapAction<K::V, V::V> {
        match *self {
            MapAction::Insert(k, v) => MapAction::Insert(k@, v@),
            MapAction::Iter => MapAction::Iter,
        }
    }
}

/// The cut point of the tree-map actions: the last percentage of an insert.
pub open spec fn tree_cuts() -> Seq<u64> {
    seq![49u64]
}

/// Whether a 32-bit draw chooses an insert.
pub open spec fn chooses_insert(draw: u32) -> bool {
    bucket_of(tree_cuts(), percent_of(draw) as u64) == 0
}

/// The weight table of the tree-map actions.
pub fn tree_weights() -> (cuts: [u64; 1])
    ensures
        cuts@ == tree_cuts(),
{
    let cuts: [u64; 1] = [49];
    assert(cuts@ =~= tree_cuts());
    cuts
}

/// Answers whether a 32-bit draw chooses an insert: the lower half of
/// the draws does.
pub fn is_insert(draw: u32) -> (insert: bool)
    ensures
        insert == chooses_insert(draw),
        insert == (draw < 0x8000_0000),
{
    let cuts = tree_weights();
    bucket(cuts.as_slice(), percent(draw)) == 0
}

/// What is left of `data` behind the selector and the key of an insert.
pub open spec fn behind_tree_key<K: Draw>(data: Seq<u8>) -> Seq<u8> {
    after_take(data, 4).skip(K::width(after_take(data, 4)) as int)
}

impl<K: MockValue, V: MockValue> Draw for MapAction<K, V> {
    /// The selector, a key and a value.
    open spec fn capacity() -> nat {
        4 + K::capacity() + V::capacity()
    }

    open spec fn ceiling() -> Option<nat> {
        match (K::ceiling(), V::ceiling()) {
            (Some(key), Some(value)) => Some(4 + key + value),
            _ => None,
        }
    }

    open spec fn drawn(data: Seq<u8>) -> MapAction<K::V, V::V> {
        if chooses_insert(leading_u32(data)) {
            MapAction::Insert(
                K::drawn(after_take(data, 4)),
                V::drawn(behind_tree_key::<K>(data)),
            )
        } else {
            MapAction::Iter
        }
    }

    open spec fn width(data: Seq<u8>) -> nat {
        if chooses_insert(leading_u32(data)) {
            taken(data, 4) + K::width(after_take(data, 4)) + V::width(behind_tree_key::<K>(data))
        } else {
            taken(data, 4)
        }
    }

    proof fn lemma_width(data: Seq<u8>) {
        K::lemma_width(after_take(data, 4));
        V::lemma_width(behind_tree_key::<K>(data));
        K::lemma_value_capacity();
        V::lemma_value_capacity();
    }

    fn size_hint(depth: usize) -> (hint: (usize, Option<usize>)) {
        let (key_least, key_most) = K::size_hint(depth);
        let (value_least, value_most) = V::size_hint(depth);
        proof {
            K::lemma_value_capacity();
            V::lemma_value_capacity();
        }
        let most = match (key_most, value_most) {
            (Some(k), Some(v)) => Some(4 + k + v),
            _ => None,
        };
        (4 + key_least + value_least, most)
    }

    fn draw(u: &mut Unstructured<'_>) -> (action: Self) {
        let ghost data = unread(*old(u));
        let ghost behind_head = after_take(data, 4);
        let ghost rest = behind_tree_key::<K>(data);
        let selector = take_u32(u).unwrap();
        proof {
            K::lemma_width(behind_head);
            V::lemma_width(rest);
            assert(behind_head =~= data.skip(taken(data, 4) as int));
            assert(rest =~= data.skip((taken(data, 4) + K::width(behind_head)) as int));
        }
        if is_insert(selector) {
            let key = K::draw(u);
            let value = V::draw(u);
            assert(rest.skip(V::width(rest) as int) =~= data.skip(Self::width(data) as int));
            MapAction::Insert(key, value)
        } else {
            MapAction::Iter
        }
    }
}

impl<K: Wire, V: Wire> Wire for MapAction<K, V> {
    open spec fn wire(a: MapAction<K::V, V::V>) -> Seq<u8> {
        match a {
            MapAction::Insert(k, v) => seq![0u8] + K::wire(k) + V::wire(v),
            MapAction::Iter => seq![1u8],
        }
    }

    open spec fn writable(a: MapAction<K::V, V::V>) -> bool {
        match a {
            MapAction::Insert(k, v) => K::writable(k) && V::writable(v),
            MapAction::Iter => true,
        }
    }

    open spec fn parsed(bytes: Seq<u8>) -> Result<(MapAction<K::V, V::V>, nat), WireError> {
        match parsed_tag(bytes, 2) {
            Err(e) => Err(e),
            Ok(tag) => if tag.0 == 1 {
                Ok((MapAction::Iter, 1))
            } else {
                match K::parsed(bytes.skip(1)) {
                    Err(e) => Err(e),
                    Ok(k) => match V::parsed(bytes.skip(1 + k.1 as int)) {
                        Err(e) => Err(e),
                        Ok(v) => Ok((MapAction::Insert(k.0, v.0), 1 + k.1 + v.1)),
                    },
                }
            },
        }
    }

    proof fn lemma_parsed(bytes: Seq<u8>) {
        if bytes.len() >= 1 {
            K::lemma_parsed(bytes.skip(1));
            if let Ok(k) = K::parsed(bytes.skip(1)) {
                V::lemma_parsed(bytes.skip(1 + k.1 as int));
            }
        }
    }

    proof fn lemma_round_trip(a: MapAction<K::V, V::V>, rest: Seq<u8>) {
        let all = Self::wire(a) + rest;
        match a {
            MapAction::Iter => {},
            MapAction::Insert(k, v) => {
                K::lemma_round_trip(k, V::wire(v) + rest);
                V::lemma_round_trip(v, rest);
                assert(all.skip(1) =~= K::wire(k) + (V::wire(v) + rest));
                assert(all.skip(1 + K::wire(k).len() as int) =~= V::wire(v) + rest);
            },
        }
    }

    fn can_encode(&self) -> (ok: bool) {
        match self {
            MapAction::Insert(k, v) => k.can_encode() && v.can_encode(),
            MapAction::Iter => true,
        }
    }

    fn encode(&self, out: &mut Vec<u8>) {
        let ghost before = out@;
        match self {
            MapAction::Insert(k, v) => {
                out.push(0);
                k.encode(out);
                v.encode(out);
                assert(out@ =~= before + (seq![0u8] + K::wire(k@) + V::wire(v@)));
            },
            MapAction::Iter => {
                out.push(1);
                assert(out@ =~= before + seq![1u8]);
            },
        }
    }

    fn decode(bytes: &[u8], at: usize) -> (r: Result<(Self, usize), WireError>) {
        let ghost from = bytes@.skip(at as int);
        let (tag, next) = match read_tag(bytes, at, 2) {
            Err(e) => {
                return Err(e);
            },
            Ok(found) => found,
        };
        if tag == 1 {
            return Ok((MapAction::Iter, next));
        }
        assert(bytes@.skip(next as int) =~= from.skip(1));
        proof {
            K::lemma_parsed(from.skip(1));
        }
        let (key, after_key) = match K::decode(bytes, next) {
            Err(e) => {
                return Err(e);
            },
            Ok(found) => found,
        };
        assert(bytes@.skip(after_key as int) =~= from.skip(1 + (after_key - next)));
        match V::decode(bytes, after_key) {
            Err(e) => Err(e),
            Ok((value, end)) => Ok((MapAction::Insert(key, value), end)),
        }
    }
}

impl<K: MockValue, V: MockValue> Payload for MapAction<K, V> {
    proof fn lemma_drawn_is_writable(data: Seq<u8>) {
        K::lemma_width(after_take(data, 4));
        K::lemma_drawn_is_writable(after_take(data, 4));
        V::lemma_drawn_is_writable(behind_tree_key::<K>(data));
    }
}

} // verus!
