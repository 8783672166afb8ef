//! A cursor over raw bytes.
//!
//! The cursor is `arbitrary::Unstructured`. Verus sees it as an opaque value
//! and knows of it only the bytes that it has not handed out yet. Each
//! function of that crate which the generators call has one wrapper here,
//! whose contract says what the call returns and what it leaves unread.

use arbitrary::Arbitrary;
use arbitrary::Unstructured;
use vstd::prelude::*;

verus! {

#[verifier::external_type_specification]
#[verifier::external_body]
pub struct ExUnstructured<'a>(arbitrary::Unstructured<'a>);

#[verifier::external_type_specification]
#[verifier::external_body]
pub struct ExCursorError(arbitrary::Error);

/// The bytes that a cursor has not handed out yet, in order.
pub uninterp spec fn unread(u: Unstructured<'_>) -> Seq<u8>;

/// The value of a byte string read as a little-endian number.
pub open spec fn le_value(bytes: Seq<u8>) -> nat
    decreases bytes.len(),
{
    if bytes.len() == 0 {
        0
    } else {
        bytes[0] as nat + 256 * le_value(bytes.skip(1))
    }
}

/// The first `n` bytes of `data`, with zeros where `data` is too short.
pub open spec fn zero_padded(data: Seq<u8>, n: nat) -> Seq<u8> {
    Seq::new(n, |i: int| if i < data.len() { data[i] } else { 0u8 })
}

/// What is left of `data` once `n` bytes, or all of it, have been taken.
pub open spec fn after_take(data: Seq<u8>, n: nat) -> Seq<u8> {
    if n <= data.len() {
        data.skip(n as int)
    } else {
        Seq::empty()
    }
}

/// Whether `data` opens with a byte that reads as the flag "yes": an odd one.
pub open spec fn leading_flag(data: Seq<u8>) -> bool {
    data.len() > 0 && data[0] % 2 == 1
}

/// The optional 32-byte block that `data` opens with: a flag byte, then the
/// block if the flag says so.
pub open spec fn optional_block(data: Seq<u8>) -> Option<Seq<u8>> {
    if leading_flag(data) {
        Some(zero_padded(data.skip(1), 32))
    } else {
        None
    }
}

/// What is left of `data` behind its optional block.
pub open spec fn after_optional_block(data: Seq<u8>) -> Seq<u8> {
    if leading_flag(data) {
        after_take(data.skip(1), 32)
    } else {
        after_take(data, 1)
    }
}

/// The byte list that `data` opens with: pairs of an odd flag byte and an
/// item, up to the first even flag byte or the end of `data`. An odd flag
/// byte at the very end stands for one last item, zero.
pub open spec fn byte_list(data: Seq<u8>) -> Seq<u8>
    decreases data.len(),
{
    if !leading_flag(data) {
        Seq::empty()
    } else if data.len() == 1 {
        seq![0u8]
    } else {
        seq![data[1]] + byte_list(data.skip(2))
    }
}

/// How many bytes of `data` its opening byte list takes up.
pub open spec fn byte_list_width(data: Seq<u8>) -> nat
    decreases data.len(),
{
    if data.len() == 0 {
        0
    } else if !leading_flag(data) || data.len() == 1 {
        1
    } else {
        2 + byte_list_width(data.skip(2))
    }
}

/// `Unstructured::new`: the cursor starts with all of `data` unread.
#[verifier::external_body]
pub(crate) fn open_cursor<'a>(data: &'a [u8]) -> (u: Unstructured<'a>)
    ensures
        unread(u) == data@,
{
    Unstructured::new(data)
}

/// `Unstructured::len`: the number of unread bytes.
#[verifier::external_body]
pub(crate) fn unread_len(u: &Unstructured<'_>) -> (n: usize)
    ensures
        n == unread(*u).len(),
{
    u.len()
}

/// `<u32 as Arbitrary>::arbitrary`: takes four bytes, or what is left, and
/// reads them little-endian, a missing byte counting as zero. It never fails.
#[verifier::external_body]
pub(crate) fn take_u32(u: &mut Unstructured<'_>) -> (r: Result<u32, arbitrary::Error>)
    ensures
        r is Ok,
        r->Ok_0 as nat == le_value(zero_padded(unread(*old(u)), 4)),
        unread(*final(u)) == after_take(unread(*old(u)), 4),
{
    <u32 as Arbitrary>::arbitrary(u)
}

/// `<u128 as Arbitrary>::arbitrary`: as for `u32`, with sixteen bytes.
#[verifier::external_body]
pub(crate) fn take_u128(u: &mut Unstructured<'_>) -> (r: Result<u128, arbitrary::Error>)
    ensures
        r is Ok,
        r->Ok_0 as nat == le_value(zero_padded(unread(*old(u)), 16)),
        unread(*final(u)) == after_take(unread(*old(u)), 16),
{
    <u128 as Arbitrary>::arbitrary(u)
}

/// `<bool as Arbitrary>::arbitrary`: takes one byte, or none from an empty
/// cursor, and answers whether it was odd. It never fails.
#[verifier::external_body]
pub(crate) fn take_flag(u: &mut Unstructured<'_>) -> (r: Result<bool, arbitrary::Error>)
    ensures
        r is Ok,
        r->Ok_0 == leading_flag(unread(*old(u))),
        unread(*final(u)) == after_take(unread(*old(u)), 1),
{
    <bool as Arbitrary>::arbitrary(u)
}

/// `<Option<[u8; 32]> as Arbitrary>::arbitrary`: takes one flag byte, and if
/// it is odd the next 32 bytes, a missing byte counting as zero. An empty
/// cursor gives `None`. It never fails.
#[verifier::external_body]
pub(crate) fn take_optional_block(u: &mut Unstructured<'_>) -> (r: Result<
    Option<[u8; 32]>,
    arbitrary::Error,
>)
    ensures
        r is Ok,
        match r->Ok_0 {
            Some(block) => optional_block(unread(*old(u))) == Some(block@),
            None => optional_block(unread(*old(u))) is None,
        },
        unread(*final(u)) == after_optional_block(unread(*old(u))),
{
    <Option<[u8; 32]> as Arbitrary>::arbitrary(u)
}

/// `<Vec<u8> as Arbitrary>::arbitrary`: takes a flag byte and, while the flag
/// is odd, an item and the next flag byte; a missing byte counts as zero, so
/// the end of the data ends the list. It never fails.
#[verifier::external_body]
pub(crate) fn take_byte_list(u: &mut Unstructured<'_>) -> (r: Result<Vec<u8>, arbitrary::Error>)
    ensures
        r is Ok,
        r->Ok_0@ == byte_list(unread(*old(u))),
        unread(*final(u)) == unread(*old(u)).skip(byte_list_width(unread(*old(u))) as int),
{
    <Vec<u8> as Arbitrary>::arbitrary(u)
}

/// A byte list never takes more than there is.
pub proof fn lemma_byte_list_width(data: Seq<u8>)
    ensures
        byte_list_width(data) <= data.len(),
        byte_list(data).len() <= byte_list_width(data),
    decreases data.len(),
{
    if data.len() >= 2 && leading_flag(data) {
        lemma_byte_list_width(data.skip(2));
    }
}

} // verus!
