//! Drawing values from raw bytes.
//!
//! A shape that can be drawn declares how many unread bytes it wants before
//! a value is attempted, its capacity: room for every part of fixed width.
//! With that many bytes unread a value is always drawn, and it takes at
//! least one byte; with fewer the draw is refused and the cursor stays where
//! it is. A run of values is drawn for as long as the capacity is there, so
//! running out of bytes ends the run and what is left over is dropped.
//!
//! A part of variable length may reach the end of the bytes. The end then
//! ends the part, and what follows it in the same value is read as zeros.

use crate::cursor::{open_cursor, unread, unread_len};
use arbitrary::Unstructured;
use vstd::prelude::*;

verus! {

/// The largest capacity that a shape may declare.
pub const MAX_CAPACITY: usize = 4096;

/// Why a draw was refused.
#[derive(Clone, Copy, Debug, PartialEq, Eq)]
pub enum DrawError {
    /// Fewer bytes are unread than the shape's capacity.
    NotEnoughData,
}

/// A shape whose values are drawn from a byte cursor.
pub trait Draw: Sized + View {
    /// The number of unread bytes that must be there for a value to be drawn.
    spec fn capacity() -> nat;

    /// An upper bound on the number of bytes that one value takes, for a
    /// shape that has one.
    spec fn ceiling() -> Option<nat>;

    /// The value that is drawn from `data`.
    spec fn drawn(data: Seq<u8>) -> Self::V;

    /// The number of bytes of `data` that drawing one value takes.
    spec fn width(data: Seq<u8>) -> nat;

    /// A draw never takes more than there is, nor more than the ceiling of
    /// the shape, and where the capacity is there it takes at least one
    /// byte.
    proof fn lemma_width(data: Seq<u8>)
        ensures
            1 <= Self::capacity() <= MAX_CAPACITY,
            Self::width(data) <= data.len(),
            data.len() >= Self::capacity() ==> Self::width(data) >= 1,
            Self::ceiling() matches Some(most) ==> Self::width(data) <= most <= MAX_CAPACITY,
    ;

    /// The capacity and the ceiling of the shape. The depth of the shape
    /// inside another makes no difference.
    fn size_hint(depth: usize) -> (hint: (usize, Option<usize>))
        ensures
            hint.0 == Self::capacity(),
            hint.1 == match Self::ceiling() {
                Some(most) => Some(most as usize),
                None => None,
            },
    ;

    /// Draws one value whatever is unread; bytes that are missing count as
    /// zero.
    fn draw(u: &mut Unstructured<'_>) -> (value: Self)
        ensures
            value@ == Self::drawn(unread(*old(u))),
            unread(*final(u)) == unread(*old(u)).skip(Self::width(unread(*old(u))) as int),
    ;
}

/// The values drawn from `data` one after another for as long as the
/// capacity of the shape is unread.
pub open spec fn drawn_all<T: Draw>(data: Seq<u8>) -> Seq<T::V>
    decreases data.len(),
{
    if data.len() < T::capacity() {
        Seq::empty()
    } else {
        proof {
            T::lemma_width(data);
        }
        seq![T::drawn(data)] + drawn_all::<T>(data.skip(T::width(data) as int))
    }
}

/// Whether `value` is what some bytes, at most `limit` of them, give when a
/// value is drawn from them.
pub open spec fn drawn_within<T: Draw>(value: T::V, limit: nat) -> bool {
    exists|data: Seq<u8>| #[trigger] T::drawn(data) == value && data.len() <= limit
}

/// Draws one value if the capacity of its shape is unread, and refuses
/// otherwise, leaving the cursor as it was.
pub fn try_draw<T: Draw>(u: &mut Unstructured<'_>) -> (r: Result<T, DrawError>)
    ensures
        unread(*old(u)).len() < T::capacity() ==> r == Err::<T, DrawError>(
            DrawError::NotEnoughData,
        ) && unread(*final(u)) == unread(*old(u)),
        unread(*old(u)).len() >= T::capacity() ==> r is Ok && r->Ok_0@ == T::drawn(
            unread(*old(u)),
        ) && unread(*final(u)) == unread(*old(u)).skip(T::width(unread(*old(u))) as int),
{
    if unread_len(u) < T::size_hint(0).0 {
        Err(DrawError::NotEnoughData)
    } else {
        Ok(T::draw(u))
    }
}

/// Draws values from `data` until fewer bytes are left than one value wants.
pub fn arbitrary_take_rest<T: Draw>(data: &[u8]) -> (values: Vec<T>)
    ensures
        values@.map_values(|v: T| v@) == drawn_all::<T>(data@),
        data@.len() < T::capacity() ==> values@.len() == 0,
        values@.len() <= data@.len(),
        forall|i: int|
            0 <= i < values@.len() ==> drawn_within::<T>((#[trigger] values@[i])@, data@.len()),
{
    let mut u = open_cursor(data);
    let mut values: Vec<T> = Vec::new();
    let capacity = T::size_hint(0).0;
    assert(drawn_all::<T>(data@) =~= Seq::<T::V>::empty() + drawn_all::<T>(data@));
    while unread_len(&u) >= capacity
        invariant
            capacity == T::capacity(),
            drawn_all::<T>(data@) == values@.map_values(|v: T| v@) + drawn_all::<T>(unread(u)),
            values@.len() + unread(u).len() <= data@.len(),
            forall|i: int|
                0 <= i < values@.len() ==> drawn_within::<T>(
                    (#[trigger] values@[i])@,
                    data@.len(),
                ),
        decreases unread(u).len(),
    {
        let ghost before = unread(u);
        let ghost had = values@.map_values(|v: T| v@);
        proof {
            T::lemma_width(before);
        }
        let value = T::draw(&mut u);
        assert(drawn_within::<T>(value@, data@.len())) by {
            assert(T::drawn(before) == value@ && before.len() <= data@.len());
        }
        values.push(value);
        assert(values@.map_values(|v: T| v@) =~= had + seq![T::drawn(before)]);
        assert(had + (seq![T::drawn(before)] + drawn_all::<T>(unread(u))) =~= (had
            + seq![T::drawn(before)]) + drawn_all::<T>(unread(u)));
    }
    assert(values@.map_values(|v: T| v@) + Seq::<T::V>::empty() =~= values@.map_values(
        |v: T| v@,
    ));
    assert(values@.map_values(|v: T| v@).len() == values@.len());
    values
}

} // verus!
