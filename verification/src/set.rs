//! The actions of a set workload.
//!
//! An action is drawn as a 32-bit selector and a value. The selector,
//! scaled to a percentage, chooses the kind:
//!
//! | percentage | kind     | tag |
//! |-----------:|----------|----:|
//! |     0 - 40 | Insert   |   0 |
//! |    41 - 60 | Remove   |   1 |
//! |    61 - 99 | Contains |   2 |

use crate::cursor::{after_take, take_u32, unread};
use crate::draw::Draw;
use crate::payload::Payload;
use crate::types::{leading_u32, taken, MockValue};
use crate::weights::{bucket, bucket_of, percent, percent_of};
use crate::wire::{parsed_tag, read_tag, Wire, WireError};
use arbitrary::Unstructured;
use vstd::prelude::*;

verus! {

/// One operation on a set.
#[derive(Clone, Debug, PartialEq, Eq)]
pub enum SetAction<T> {
    /// Adds the value and asks whether it was new.
    Insert(T),
    /// Takes the value out.
    Remove(T),
    /// Asks whether the value is in the set.
    Contains(T),
}

impl<T: View> View for SetAction<T> {
    type V = SetAction<T::V>;

    open spec fn view(&self) -> SetAction<T::V> {
        match *self {
            SetAction::Insert(v) => SetAction::Insert(v@),
            SetAction::Remove(v) => SetAction::Remove(v@),
            SetAction::Contains(v) => SetAction::Contains(v@),
        }
    }
}

/// The kinds of set actions, in the order of the weight table and of the
/// tags.
#[derive(Clone, Copy, Debug, PartialEq, Eq)]
pub enum SetKind {
    Insert,
    Remove,
    Contains,
}

/// The cut points of the set actions: the last percentage of each kind but
/// the last.
pub open spec fn set_cuts() -> Seq<u64> {
    seq![40u64, 60u64]
}

/// The kind at a place of the weight table.
pub open spec fn set_kind_at(index: nat) -> SetKind {
    if index == 0 {
        SetKind::Insert
    } else if index == 1 {
        SetKind::Remove
    } else {
        SetKind::Contains
    }
}

/// The kind that a percentage chooses.
pub open spec fn set_kind_of_percent(percent: u64) -> SetKind {
    set_kind_at(bucket_of(set_cuts(), percent))
}

/// The kind that a 32-bit draw chooses.
pub open spec fn set_kind_of(draw: u32) -> SetKind {
    set_kind_of_percent(percent_of(draw) as u64)
}

/// The action of a kind on a value.
pub open spec fn set_action_of<V>(kind: SetKind, v: V) -> SetAction<V> {
    match kind {
        SetKind::Insert => SetAction::Insert(v),
        SetKind::Remove => SetAction::Remove(v),
        SetKind::Contains => SetAction::Contains(v),
    }
}

/// Makes the action of a kind on a value.
pub fn set_action<T>(kind: SetKind, v: T) -> (action: SetAction<T>)
    ensures
        action == set_action_of(kind, v),
{
    match kind {
        SetKind::Insert => SetAction::Insert(v),
        SetKind::Remove => SetAction::Remove(v),
        SetKind::Contains => SetAction::Contains(v),
    }
}

/// The weight table of the set actions.
pub fn set_weights() -> (cuts: [u64; 2])
    ensures
        cuts@ == set_cuts(),
{
    let cuts: [u64; 2] = [40, 60];
    assert(cuts@ =~= set_cuts());
    cuts
}

/// The kind at a place of the weight table.
pub fn set_kind_at_index(index: usize) -> (kind: SetKind)
    ensures
        kind == set_kind_at(index as nat),
{
    match index {
        0 => SetKind::Insert,
        1 => SetKind::Remove,
        _ => SetKind::Contains,
    }
}

/// Chooses the kind of a set action from a 32-bit draw.
pub fn set_kind(draw: u32) -> (kind: SetKind)
    ensures
        kind == set_kind_of(draw),
        kind == SetKind::Insert <==> percent_of(draw) <= 40,
        kind == SetKind::Remove <==> 41 <= percent_of(draw) <= 60,
        kind == SetKind::Contains <==> 61 <= percent_of(draw),
{
    let cuts = set_weights();
    let index = bucket(cuts.as_slice(), percent(draw));
    set_kind_at_index(index)
}

impl<T: MockValue> Draw for SetAction<T> {
    /// The selector and one value.
    open spec fn capacity() -> nat {
        4 + T::capacity()
    }

    open spec fn ceiling() -> Option<nat> {
        match T::ceiling() {
            Some(most) => Some(4 + most),
            None => None,
        }
    }

    open spec fn drawn(data: Seq<u8>) -> SetAction<T::V> {
        set_action_of(set_kind_of(leading_u32(data)), T::drawn(after_take(data, 4)))
    }

    open spec fn width(data: Seq<u8>) -> nat {
        taken(data, 4) + T::width(after_take(data, 4))
    }

    proof fn lemma_width(data: Seq<u8>) {
        T::lemma_width(after_take(data, 4));
        T::lemma_value_capacity();
    }

    fn size_hint(depth: usize) -> (hint: (usize, Option<usize>)) {
        let (least, most) = T::size_hint(depth);
        proof {
            T::lemma_value_capacity();
        }
        let most = match most {
            Some(m) => Some(4 + m),
            None => None,
        };
        (4 + least, most)
    }

    fn draw(u: &mut Unstructured<'_>) -> (action: Self) {
        let ghost data = unread(*old(u));
        let ghost rest = after_take(data, 4);
        let selector = take_u32(u).unwrap();
        proof {
            T::lemma_width(rest);
            assert(rest =~= data.skip(taken(data, 4) as int));
            assert(rest.skip(T::width(rest) as int) =~= data.skip(
                (taken(data, 4) + T::width(rest)) as int,
            ));
        }
        set_action(set_kind(selector), T::draw(u))
    }
}

impl<T: Wire> Wire for SetAction<T> {
    open spec fn wire(a: SetAction<T::V>) -> Seq<u8> {
        match a {
            SetAction::Insert(v) => seq![0u8] + T::wire(v),
            SetAction::Remove(v) => seq![1u8] + T::wire(v),
            SetAction::Contains(v) => seq![2u8] + T::wire(v),
        }
    }

    open spec fn writable(a: SetAction<T::V>) -> bool {
        match a {
            SetAction::Insert(v) => T::writable(v),
            SetAction::Remove(v) => T::writable(v),
            SetAction::Contains(v) => T::writable(v),
        }
    }

    open spec fn parsed(bytes: Seq<u8>) -> Result<(SetAction<T::V>, nat), WireError> {
        match parsed_tag(bytes, 3) {
            Err(e) => Err(e),
            Ok(tag) => match T::parsed(bytes.skip(1)) {
                Err(e) => Err(e),
                Ok(v) => Ok((set_action_of(set_kind_at(tag.0), v.0), 1 + v.1)),
            },
        }
    }

    proof fn lemma_parsed(bytes: Seq<u8>) {
        if bytes.len() >= 1 {
            T::lemma_parsed(bytes.skip(1));
        }
    }

    proof fn lemma_round_trip(a: SetAction<T::V>, rest: Seq<u8>) {
        let all = Self::wire(a) + rest;
        match a {
            SetAction::Insert(v) | SetAction::Remove(v) | SetAction::Contains(v) => {
                T::lemma_round_trip(v, rest);
                assert(all.skip(1) =~= T::wire(v) + rest);
            },
        }
    }

    fn can_encode(&self) -> (ok: bool) {
        match self {
            SetAction::Insert(v) => v.can_encode(),
            SetAction::Remove(v) => v.can_encode(),
            SetAction::Contains(v) => v.can_encode(),
        }
    }

    fn encode(&self, out: &mut Vec<u8>) {
        let ghost before = out@;
        match self {
            SetAction::Insert(v) => {
                out.push(0);
                v.encode(out);
                assert(out@ =~= before + (seq![0u8] + T::wire(v@)));
            },
            SetAction::Remove(v) => {
                out.push(1);
                v.encode(out);
                assert(out@ =~= before + (seq![1u8] + T::wire(v@)));
            },
            SetAction::Contains(v) => {
                out.push(2);
                v.encode(out);
                assert(out@ =~= before + (seq![2u8] + T::wire(v@)));
            },
        }
    }

    fn decode(bytes: &[u8], at: usize) -> (r: Result<(Self, usize), WireError>) {
        let ghost from = bytes@.skip(at as int);
        match read_tag(bytes, at, 3) {
            Err(e) => Err(e),
            Ok((tag, next)) => {
                assert(bytes@.skip(next as int) =~= from.skip(1));
                match T::decode(bytes, next) {
                    Err(e) => Err(e),
                    Ok((v, end)) => Ok((set_action(set_kind_at_index(tag as usize), v), end)),
                }
            },
        }
    }
}

impl<T: MockValue> Payload for SetAction<T> {
    proof fn lemma_drawn_is_writable(data: Seq<u8>) {
        T::lemma_drawn_is_writable(after_take(data, 4));
    }
}

} // verus!
