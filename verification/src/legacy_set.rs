//! The actions that the entry point of the older set takes.
//!
//! These actions are written and read, not drawn. On the wire an action is
//! the tag of its kind and, for every kind but the flush, a value:
//!
//! | kind     | tag |
//! |----------|----:|
//! | Insert   |   0 |
//! | Remove   |   1 |
//! | Flush    |   2 |
//! | Contains |   3 |

use crate::wire::{parsed_tag, read_tag, Wire, WireError};
use vstd::prelude::*;

verus! {

/// One operation on the older set.
#[derive(Clone, Debug, PartialEq, Eq)]
pub enum SetAction<T> {
    /// Adds the value and asks whether it was new.
    Insert(T),
    /// Takes the value out.
    Remove(T),
    /// Commits the writes that are still buffered.
    Flush,
    /// Asks whether the value is in the set.
    Contains(T),
}

impl<T: View> View for SetAction<T> {
    type V = SetAction<T::V>;

    open spec fn view(&self) -> SetAction<T::V> {
        match *self {
            SetAction::Insert(v) => SetAction::Insert(v@),
            SetAction::Remove(v) => SetAction::Remove(v@),
            SetAction::Flush => SetAction::Flush,
            SetAction::Contains(v) => SetAction::Contains(v@),
        }
    }
}

/// The action with the tag `tag` on the value `v`; the tag of the flush
/// goes with no value.
pub open spec fn action_tagged<V>(tag: nat, v: V) -> SetAction<V> {
    if tag == 0 {
        SetAction::Insert(v)
    } else if tag == 1 {
        SetAction::Remove(v)
    } else if tag == 2 {
        SetAction::Flush
    } else {
        SetAction::Contains(v)
    }
}

impl<T: Wire> Wire for SetAction<T> {
    open spec fn wire(a: SetAction<T::V>) -> Seq<u8> {
        match a {
            SetAction::Insert(v) => seq![0u8] + T::wire(v),
            SetAction::Remove(v) => seq![1u8] + T::wire(v),
            SetAction::Flush => seq![2u8],
            SetAction::Contains(v) => seq![3u8] + T::wire(v),
        }
    }

    open spec fn writable(a: SetAction<T::V>) -> bool {
        match a {
            SetAction::Insert(v) => T::writable(v),
            SetAction::Remove(v) => T::writable(v),
            SetAction::Flush => true,
            SetAction::Contains(v) => T::writable(v),
        }
    }

    open spec fn parsed(bytes: Seq<u8>) -> Result<(SetAction<T::V>, nat), WireError> {
        match parsed_tag(bytes, 4) {
            Err(e) => Err(e),
            Ok(tag) => if tag.0 == 2 {
                Ok((SetAction::Flush, 1))
            } else {
                match T::parsed(bytes.skip(1)) {
                    Err(e) => Err(e),
                    Ok(v) => Ok((action_tagged(tag.0, v.0), 1 + v.1)),
                }
            },
        }
    }

    proof fn lemma_parsed(bytes: Seq<u8>) {
        if bytes.len() >= 1 {
            T::lemma_parsed(bytes.skip(1));
        }
    }

    proof fn lemma_round_trip(a: SetAction<T::V>, rest: Seq<u8>) {
        let all = Self::wire(a) + rest;
        match a {
            SetAction::Flush => {},
            SetAction::Insert(v) | SetAction::Remove(v) | SetAction::Contains(v) => {
                T::lemma_round_trip(v, rest);
                assert(all.skip(1) =~= T::wire(v) + rest);
            },
        }
    }

    fn can_encode(&self) -> (ok: bool) {
        match self {
            SetAction::Insert(v) => v.can_encode(),
            SetAction::Remove(v) => v.can_encode(),
            SetAction::Flush => true,
            SetAction::Contains(v) => v.can_encode(),
        }
    }

    fn encode(&self, out: &mut Vec<u8>) {
        let ghost before = out@;
        match self {
            SetAction::Insert(v) => {
                out.push(0);
                v.encode(out);
                assert(out@ =~= before + (seq![0u8] + T::wire(v@)));
            },
            SetAction::Remove(v) => {
                out.push(1);
                v.encode(out);
                assert(out@ =~= before + (seq![1u8] + T::wire(v@)));
            },
            SetAction::Flush => {
                out.push(2);
                assert(out@ =~= before + seq![2u8]);
            },
            SetAction::Contains(v) => {
                out.push(3);
                v.encode(out);
                assert(out@ =~= before + (seq![3u8] + T::wire(v@)));
            },
        }
    }

    fn decode(bytes: &[u8], at: usize) -> (r: Result<(Self, usize), WireError>) {
        let ghost from = bytes@.skip(at as int);
        match read_tag(bytes, at, 4) {
            Err(e) => Err(e),
            Ok((tag, next)) => {
                if tag == 2 {
                    Ok((SetAction::Flush, next))
                } else {
                    assert(bytes@.skip(next as int) =~= from.skip(1));
                    match T::decode(bytes, next) {
                        Err(e) => Err(e),
                        Ok((v, end)) => {
                            let action = match tag {
                                0 => SetAction::Insert(v),
                                1 => SetAction::Remove(v),
                                _ => SetAction::Contains(v),
                            };
                            Ok((action, end))
                        },
                    }
                }
            },
        }
    }
}

} // verus!
