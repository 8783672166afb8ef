//! The actions of a lookup-map workload.
//!
//! An action is drawn as a 32-bit selector, a key for every kind but the
//! flush, and what else the kind needs: a value for an insert, a flag and
//! perhaps a value for an assignment. The selector, scaled to a percentage,
//! chooses the kind, and the five kinds have equal shares:
//!
//! | percentage | kind   |
//! |-----------:|--------|
//! |     0 - 19 | Insert |
//! |    20 - 39 | Assign |
//! |    40 - 59 | Remove |
//! |    60 - 79 | Flush  |
//! |    80 - 99 | Get    |

use crate::cursor::{after_take, leading_flag, take_flag, take_u32, unread};
use crate::draw::Draw;
use crate::payload::Payload;
use crate::types::{leading_u32, taken, MockValue};
use crate::weights::{bucket, bucket_of, percent, percent_of};
use crate::wire::{parsed_tag, read_tag, Wire, WireError};
use arbitrary::Unstructured;
use vstd::prelude::*;

verus! {

/// One operation on a map.
#[derive(Clone, Debug, PartialEq, Eq)]
pub enum MapAction<K, V> {
    /// Stores the value under the key and asks for the one it replaces.
    Insert(K, V),
    /// Stores the value under the key, or takes the key out where there is
    /// no value, without asking.
    Assign(K, Option<V>),
    /// Takes the key out and asks for its value.
    Remove(K),
    /// Commits the writes that are still buffered.
    Flush,
    /// Asks for the value under the key.
    Get(K),
}

impl<K: View, V: View> View for MapAction<K, V> {
    type V = MapAction<K::V, V::V>;

    open spec fn view(&self) -> MapAction<K::V, V::V> {
        match *self {
            MapAction::Insert(k, v) => MapAction::Insert(k@, v@),
            MapAction::Assign(k, Some(v)) => MapAction::Assign(k@, Some(v@)),
            MapAction::Assign(k, None) => MapAction::Assign(k@, None),
            MapAction::Remove(k) => MapAction::Remove(k@),
            MapAction::Flush => MapAction::Flush,
            MapAction::Get(k) => MapAction::Get(k@),
        }
    }
}

/// The kinds of map actions, in the order of the weight table.
#[derive(Clone, Copy, Debug, PartialEq, Eq)]
pub enum MapKind {
    Insert,
    Assign,
    Remove,
    Flush,
    Get,
}

/// The cut points of the map actions: the last percentage of each kind but
/// the last.
pub open spec fn map_cuts() -> Seq<u64> {
    seq![19u64, 39u64, 59u64, 79u64]
}

/// The kind at a place of the weight table.
pub open spec fn map_kind_at(index: nat) -> MapKind {
    if index == 0 {
        MapKind::Insert
    } else if index == 1 {
        MapKind::Assign
    } else if index == 2 {
        MapKind::Remove
    } else if index == 3 {
        MapKind::Flush
    } else {
        MapKind::Get
    }
}

/// The kind that a 32-bit draw chooses.
pub open spec fn map_kind_of(draw: u32) -> MapKind {
    map_kind_at(bucket_of(map_cuts(), percent_of(draw) as u64))
}

/// The weight table of the map actions.
pub fn map_weights() -> (cuts: [u64; 4])
    ensures
        cuts@ == map_cuts(),
{
    let cuts: [u64; 4] = [19, 39, 59, 79];
    assert(cuts@ =~= map_cuts());
    cuts
}

/// The kind at a place of the weight table.
pub fn map_kind_at_index(index: usize) -> (kind: MapKind)
    ensures
        kind == map_kind_at(index as nat),
{
    match index {
        0 => MapKind::Insert,
        1 => MapKind::Assign,
        2 => MapKind::Remove,
        3 => MapKind::Flush,
        _ => MapKind::Get,
    }
}

/// Chooses the kind of a map action from a 32-bit draw. Each kind has a
/// fifth of the draws: the kind is the one at place `draw * 5 / 2^32`.
pub fn map_kind(draw: u32) -> (kind: MapKind)
    ensures
        kind == map_kind_of(draw),
        kind == map_kind_at((draw as nat * 5) / 0x1_0000_0000),
{
    let cuts = map_weights();
    let index = bucket(cuts.as_slice(), percent(draw));
    assert(index == (draw as nat * 5) / 0x1_0000_0000) by {
        let fifth = (draw as nat * 5) / 0x1_0000_0000;
        let p = percent_of(draw);
        assert(20 * fifth <= p < 20 * fifth + 20) by (nonlinear_arith)
            requires
                fifth == (draw as nat * 5) / 0x1_0000_0000,
                p == (draw as nat * 100) / 0x1_0000_0000,
        ;
    }
    map_kind_at_index(index)
}

/// What is left of `data` behind the selector and the key of a map action.
pub open spec fn behind_key<K: Draw>(data: Seq<u8>) -> Seq<u8> {
    after_take(data, 4).skip(K::width(after_take(data, 4)) as int)
}

impl<K: MockValue, V: MockValue> Draw for MapAction<K, V> {
    /// The selector, a key, the flag of a value and a value.
    open spec fn capacity() -> nat {
        4 + K::capacity() + 1 + V::capacity()
    }

    open spec fn ceiling() -> Option<nat> {
        match (K::ceiling(), V::ceiling()) {
            (Some(key), Some(value)) => Some(4 + key + 1 + value),
            _ => None,
        }
    }

    open spec fn drawn(data: Seq<u8>) -> MapAction<K::V, V::V> {
        let key = K::drawn(after_take(data, 4));
        let rest = behind_key::<K>(data);
        match map_kind_of(leading_u32(data)) {
            MapKind::Insert => MapAction::Insert(key, V::drawn(rest)),
            MapKind::Assign => if leading_flag(rest) {
                MapAction::Assign(key, Some(V::drawn(after_take(rest, 1))))
            } else {
                MapAction::Assign(key, None)
            },
            MapKind::Remove => MapAction::Remove(key),
            MapKind::Flush => MapAction::Flush,
            MapKind::Get => MapAction::Get(key),
        }
    }

    open spec fn width(data: Seq<u8>) -> nat {
        let head = taken(data, 4);
        let key = K::width(after_take(data, 4));
        let rest = behind_key::<K>(data);
        match map_kind_of(leading_u32(data)) {
            MapKind::Insert => head + key + V::width(rest),
            MapKind::Assign => if leading_flag(rest) {
                head + key + 1 + V::width(after_take(rest, 1))
            } else {
                head + key + taken(rest, 1)
            },
            MapKind::Remove => head + key,
            MapKind::Flush => head,
            MapKind::Get => head + key,
        }
    }

    proof fn lemma_width(data: Seq<u8>) {
        let rest = behind_key::<K>(data);
        K::lemma_width(after_take(data, 4));
        V::lemma_width(rest);
        V::lemma_width(after_take(rest, 1));
        K::lemma_value_capacity();
        V::lemma_value_capacity();
    }

    fn size_hint(depth: usize) -> (hint: (usize, Option<usize>)) {
        let (key_least, key_most) = K::size_hint(depth);
        let (value_least, value_most) = V::size_hint(depth);
        proof {
            K::lemma_value_capacity();
            V::lemma_value_capacity();
        }
        let most = match (key_most, value_most) {
            (Some(k), Some(v)) => Some(5 + k + v),
            _ => None,
        };
        (5 + key_least + value_least, most)
    }

    fn draw(u: &mut Unstructured<'_>) -> (action: Self) {
        let ghost data = unread(*old(u));
        let ghost behind_head = after_take(data, 4);
        let ghost rest = behind_key::<K>(data);
        let selector = take_u32(u).unwrap();
        proof {
            K::lemma_width(behind_head);
            V::lemma_width(rest);
            V::lemma_width(after_take(rest, 1));
            assert(behind_head =~= data.skip(taken(data, 4) as int));
            assert(rest =~= data.skip((taken(data, 4) + K::width(behind_head)) as int));
        }
        match map_kind(selector) {
            MapKind::Insert => {
                let key = K::draw(u);
                let value = V::draw(u);
                assert(rest.skip(V::width(rest) as int) =~= data.skip(Self::width(data) as int));
                MapAction::Insert(key, value)
            },
            MapKind::Assign => {
                let key = K::draw(u);
                if take_flag(u).unwrap() {
                    let value = V::draw(u);
                    assert(after_take(rest, 1).skip(V::width(after_take(rest, 1)) as int)
                        =~= data.skip(Self::width(data) as int));
                    MapAction::Assign(key, Some(value))
                } else {
                    assert(after_take(rest, 1) =~= data.skip(Self::width(data) as int));
                    MapAction::Assign(key, None)
                }
            },
            MapKind::Remove => MapAction::Remove(K::draw(u)),
            MapKind::Flush => MapAction::Flush,
            MapKind::Get => MapAction::Get(K::draw(u)),
        }
    }
}

/// The bytes that spell an optional value.
pub open spec fn wire_optional<V: Wire>(value: Option<V::V>) -> Seq<u8> {
    match value {
        None => seq![0u8],
        Some(v) => seq![1u8] + V::wire(v),
    }
}

/// What reading an optional value from the front of `bytes` gives.
pub open spec fn parsed_optional<V: Wire>(bytes: Seq<u8>) -> Result<(Option<V::V>, nat), WireError> {
    match parsed_tag(bytes, 2) {
        Err(e) => Err(e),
        Ok(tag) => if tag.0 == 0 {
            Ok((None, 1))
        } else {
            match V::parsed(bytes.skip(1)) {
                Err(e) => Err(e),
                Ok(v) => Ok((Some(v.0), 1 + v.1)),
            }
        },
    }
}

impl<K: Wire, V: Wire> Wire for MapAction<K, V> {
    open spec fn wire(a: MapAction<K::V, V::V>) -> Seq<u8> {
        match a {
            MapAction::Insert(k, v) => seq![0u8] + K::wire(k) + V::wire(v),
            MapAction::Assign(k, v) => seq![1u8] + K::wire(k) + wire_optional::<V>(v),
            MapAction::Remove(k) => seq![2u8] + K::wire(k),
            MapAction::Flush => seq![3u8],
            MapAction::Get(k) => seq![4u8] + K::wire(k),
        }
    }

    open spec fn writable(a: MapAction<K::V, V::V>) -> bool {
        match a {
            MapAction::Insert(k, v) => K::writable(k) && V::writable(v),
            MapAction::Assign(k, Some(v)) => K::writable(k) && V::writable(v),
            MapAction::Assign(k, None) => K::writable(k),
            MapAction::Remove(k) => K::writable(k),
            MapAction::Flush => true,
            MapAction::Get(k) => K::writable(k),
        }
    }

    open spec fn parsed(bytes: Seq<u8>) -> Result<(MapAction<K::V, V::V>, nat), WireError> {
        match parsed_tag(bytes, 5) {
            Err(e) => Err(e),
            Ok(tag) => if tag.0 == 3 {
                Ok((MapAction::Flush, 1))
            } else {
                match K::parsed(bytes.skip(1)) {
                    Err(e) => Err(e),
                    Ok(k) => if tag.0 == 0 {
                        match V::parsed(bytes.skip(1 + k.1 as int)) {
                            Err(e) => Err(e),
                            Ok(v) => Ok((MapAction::Insert(k.0, v.0), 1 + k.1 + v.1)),
                        }
                    } else if tag.0 == 1 {
                        match parsed_optional::<V>(bytes.skip(1 + k.1 as int)) {
                            Err(e) => Err(e),
                            Ok(v) => Ok((MapAction::Assign(k.0, v.0), 1 + k.1 + v.1)),
                        }
                    } else if tag.0 == 2 {
                        Ok((MapAction::Remove(k.0), 1 + k.1))
                    } else {
                        Ok((MapAction::Get(k.0), 1 + k.1))
                    },
                }
            },
        }
    }

    proof fn lemma_parsed(bytes: Seq<u8>) {
        if bytes.len() >= 1 {
            K::lemma_parsed(bytes.skip(1));
            if let Ok(k) = K::parsed(bytes.skip(1)) {
                let rest = bytes.skip(1 + k.1 as int);
                V::lemma_parsed(rest);
                if rest.len() >= 1 {
                    V::lemma_parsed(rest.skip(1));
                }
            }
        }
    }

    proof fn lemma_round_trip(a: MapAction<K::V, V::V>, rest: Seq<u8>) {
        let all = Self::wire(a) + rest;
        match a {
            MapAction::Flush => {},
            MapAction::Remove(k) | MapAction::Get(k) => {
                K::lemma_round_trip(k, rest);
                assert(all.skip(1) =~= K::wire(k) + rest);
            },
            MapAction::Insert(k, v) => {
                K::lemma_round_trip(k, V::wire(v) + rest);
                V::lemma_round_trip(v, rest);
                assert(all.skip(1) =~= K::wire(k) + (V::wire(v) + rest));
                assert(all.skip(1 + K::wire(k).len() as int) =~= V::wire(v) + rest);
            },
            MapAction::Assign(k, None) => {
                K::lemma_round_trip(k, seq![0u8] + rest);
                assert(all.skip(1) =~= K::wire(k) + (seq![0u8] + rest));
                assert(all.skip(1 + K::wire(k).len() as int) =~= seq![0u8] + rest);
            },
            MapAction::Assign(k, Some(v)) => {
                let tail = seq![1u8] + V::wire(v) + rest;
                K::lemma_round_trip(k, tail);
                V::lemma_round_trip(v, rest);
                assert(all.skip(1) =~= K::wire(k) + tail);
                assert(all.skip(1 + K::wire(k).len() as int) =~= tail);
                assert(tail.skip(1) =~= V::wire(v) + rest);
            },
        }
    }

    fn can_encode(&self) -> (ok: bool) {
        match self {
            MapAction::Insert(k, v) => k.can_encode() && v.can_encode(),
            MapAction::Assign(k, Some(v)) => k.can_encode() && v.can_encode(),
            MapAction::Assign(k, None) => k.can_encode(),
            MapAction::Remove(k) => k.can_encode(),
            MapAction::Flush => true,
            MapAction::Get(k) => k.can_encode(),
        }
    }

    fn encode(&self, out: &mut Vec<u8>) {
        let ghost before = out@;
        match self {
            MapAction::Insert(k, v) => {
                out.push(0);
                k.encode(out);
                v.encode(out);
                assert(out@ =~= before + (seq![0u8] + K::wire(k@) + V::wire(v@)));
            },
            MapAction::Assign(k, Some(v)) => {
                out.push(1);
                k.encode(out);
                out.push(1);
                v.encode(out);
                assert(out@ =~= before + (seq![1u8] + K::wire(k@) + (seq![1u8] + V::wire(v@))));
            },
            MapAction::Assign(k, None) => {
                out.push(1);
                k.encode(out);
                out.push(0);
                assert(out@ =~= before + (seq![1u8] + K::wire(k@) + seq![0u8]));
            },
            MapAction::Remove(k) => {
                out.push(2);
                k.encode(out);
                assert(out@ =~= before + (seq![2u8] + K::wire(k@)));
            },
            MapAction::Flush => {
                out.push(3);
                assert(out@ =~= before + seq![3u8]);
            },
            MapAction::Get(k) => {
                out.push(4);
                k.encode(out);
                assert(out@ =~= before + (seq![4u8] + K::wire(k@)));
            },
        }
    }

    fn decode(bytes: &[u8], at: usize) -> (r: Result<(Self, usize), WireError>) {
        let ghost from = bytes@.skip(at as int);
        let (tag, next) = match read_tag(bytes, at, 5) {
            Err(e) => {
                return Err(e);
            },
            Ok(found) => found,
        };
        if tag == 3 {
            return Ok((MapAction::Flush, next));
        }
        assert(bytes@.skip(next as int) =~= from.skip(1));
        proof {
            K::lemma_parsed(from.skip(1));
        }
        let (key, after_key) = match K::decode(bytes, next) {
            Err(e) => {
                return Err(e);
            },
            Ok(found) => found,
        };
        let ghost behind = from.skip(1 + (after_key - next));
        assert(bytes@.skip(after_key as int) =~= behind);
        if tag == 0 {
            match V::decode(bytes, after_key) {
                Err(e) => Err(e),
                Ok((value, end)) => Ok((MapAction::Insert(key, value), end)),
            }
        } else if tag == 1 {
            match read_tag(bytes, after_key, 2) {
                Err(e) => Err(e),
                Ok((flag, after_flag)) => {
                    if flag == 0 {
                        Ok((MapAction::Assign(key, None), after_flag))
                    } else {
                        assert(bytes@.skip(after_flag as int) =~= behind.skip(1));
                        match V::decode(bytes, after_flag) {
                            Err(e) => Err(e),
                            Ok((value, end)) => Ok((MapAction::Assign(key, Some(value)), end)),
                        }
                    }
                },
            }
        } else if tag == 2 {
            Ok((MapAction::Remove(key), after_key))
        } else {
            Ok((MapAction::Get(key), after_key))
        }
    }
}

impl<K: MockValue, V: MockValue> Payload for MapAction<K, V> {
    proof fn lemma_drawn_is_writable(data: Seq<u8>) {
        let rest = behind_key::<K>(data);
        K::lemma_width(after_take(data, 4));
        K::lemma_drawn_is_writable(after_take(data, 4));
        V::lemma_drawn_is_writable(rest);
        V::lemma_drawn_is_writable(after_take(rest, 1));
    }
}

} // verus!
