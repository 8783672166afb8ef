//! What can be submitted.
//!
//! A payload is a shape that is drawn from bytes and has a wire format.
//! Whatever is drawn from bytes that a 32-bit length can count can be
//! written, so a trial of drawn values never fails to be written for the
//! sake of its values.

use crate::draw::{drawn_within, Draw};
use crate::wire::Wire;
use vstd::prelude::*;

verus! {

/// A shape that is drawn from bytes and written to bytes.
pub trait Payload: Draw + Wire {
    /// What is drawn from bytes that a 32-bit length can count can be
    /// written.
    proof fn lemma_drawn_is_writable(data: Seq<u8>)
        requires
            data.len() <= u32::MAX,
        ensures
            Self::writable(Self::drawn(data)),
    ;
}

/// A value that was drawn from no more bytes than a 32-bit length can count
/// can be written.
pub proof fn lemma_drawn_within_is_writable<T: Payload>(value: T::V, limit: nat)
    requires
        drawn_within::<T>(value, limit),
        limit <= u32::MAX,
    ensures
        T::writable(value),
{
    let data = choose|data: Seq<u8>| #[trigger] T::drawn(data) == value && data.len() <= limit;
    T::lemma_drawn_is_writable(data);
}

} // verus!
