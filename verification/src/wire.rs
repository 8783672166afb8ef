//! The wire format of a workload.
//!
//! A number is written little-endian in its fixed width. An optional part is
//! a tag byte, 0 or 1, and the part after a 1. A block of 32 bytes is
//! written as it is. A list is its length as a 32-bit number and then its
//! items. An action is the place of its kind as one byte and then its
//! fields in order. Nothing is padded.

use crate::cursor::le_value;
use vstd::prelude::*;

verus! {

/// Why bytes could not be written or read.
#[derive(Clone, Copy, Debug, PartialEq, Eq)]
pub enum WireError {
    /// The bytes end inside a value.
    UnexpectedEnd,
    /// A tag byte names no kind.
    InvalidTag,
    /// Bytes are left behind the last value.
    TrailingBytes,
    /// A list is too long for its length to be written.
    LengthTooLarge,
}

/// `256^n`.
pub open spec fn pow256(n: nat) -> nat
    decreases n,
{
    if n == 0 {
        1
    } else {
        256 * pow256((n - 1) as nat)
    }
}

/// `256^n` for the widths of the numbers that are read and written.
pub proof fn lemma_pow256_values()
    ensures
        pow256(0) == 1,
        pow256(1) == 0x100,
        pow256(4) == 0x1_0000_0000,
        pow256(16) == 0x1_0000_0000_0000_0000_0000_0000_0000_0000,
{
    reveal_with_fuel(pow256, 17);
}

/// The `n` bytes that spell `x` little-endian: its low `n` bytes.
pub open spec fn le_bytes(x: nat, n: nat) -> Seq<u8>
    decreases n,
{
    if n == 0 {
        Seq::empty()
    } else {
        seq![(x % 256) as u8] + le_bytes(x / 256, (n - 1) as nat)
    }
}

/// `le_bytes` gives as many bytes as asked for.
pub proof fn lemma_le_bytes_len(x: nat, n: nat)
    ensures
        le_bytes(x, n).len() == n,
    decreases n,
{
    if n > 0 {
        lemma_le_bytes_len(x / 256, (n - 1) as nat);
    }
}

/// Reading what was written gives the number back, if it fits the width.
pub proof fn lemma_le_value_of_bytes(x: nat, n: nat)
    requires
        x < pow256(n),
    ensures
        le_value(le_bytes(x, n)) == x,
    decreases n,
{
    if n > 0 {
        let rest = le_bytes(x / 256, (n - 1) as nat);
        let all = le_bytes(x, n);
        assert(x / 256 < pow256((n - 1) as nat)) by (nonlinear_arith)
            requires
                x < 256 * pow256((n - 1) as nat),
        ;
        lemma_le_value_of_bytes(x / 256, (n - 1) as nat);
        assert(all.skip(1) =~= rest);
        assert(all[0] == (x % 256) as u8);
    }
}

/// `256^n` grows with `n`; sixteen bytes are the widest number written.
pub proof fn lemma_pow256_upto(n: nat)
    requires
        n <= 16,
    ensures
        1 <= pow256(n) <= 0x1_0000_0000_0000_0000_0000_0000_0000_0000,
        n <= 4 ==> pow256(n) <= 0x1_0000_0000,
    decreases 16 - n,
{
    reveal_with_fuel(pow256, 5);
    if n == 16 {
        assert(pow256(16) == 0x1_0000_0000_0000_0000_0000_0000_0000_0000) by {
            reveal_with_fuel(pow256, 17);
        }
    } else {
        lemma_pow256_upto(n + 1);
    }
}

/// Appends the `n` low bytes of `x`, little-endian.
pub fn put_le(out: &mut Vec<u8>, x: u128, n: usize)
    requires
        n <= 16,
    ensures
        final(out)@ == old(out)@ + le_bytes(x as nat, n as nat),
{
    let mut rest: u128 = x;
    let mut written: usize = 0;
    assert(old(out)@ + le_bytes(x as nat, n as nat) =~= out@ + le_bytes(rest as nat, n as nat));
    while written < n
        invariant
            written <= n,
            old(out)@ + le_bytes(x as nat, n as nat) == out@ + le_bytes(
                rest as nat,
                (n - written) as nat,
            ),
        decreases n - written,
    {
        let ghost before = out@;
        let ghost tail = le_bytes((rest / 256) as nat, (n - written - 1) as nat);
        let low: u8 = (rest % 256) as u8;
        out.push(low);
        assert(before + (seq![low] + tail) =~= out@ + tail);
        rest = rest / 256;
        written += 1;
    }
    assert(out@ + le_bytes(rest as nat, 0) =~= out@);
}

/// Reads the number that the `n` bytes from `at` spell, little-endian.
pub fn get_le(bytes: &[u8], at: usize, n: usize) -> (x: u128)
    requires
        n <= 16,
        at + n <= bytes.len(),
    ensures
        x == le_value(bytes@.subrange(at as int, at + n)),
        x < pow256(n as nat),
{
    let mut x: u128 = 0;
    let mut left: usize = n;
    assert(bytes@.subrange(at + n, at + n) =~= Seq::<u8>::empty());
    while left > 0
        invariant
            left <= n <= 16,
            at + n <= bytes.len(),
            x == le_value(bytes@.subrange(at + left, at + n)),
            x < pow256((n - left) as nat),
        decreases left,
    {
        let ghost higher = bytes@.subrange(at + left, at + n);
        let ghost top = pow256((n - left) as nat);
        left -= 1;
        let byte = bytes[at + left];
        proof {
            lemma_pow256_upto((n - left) as nat);
            assert(bytes@.subrange(at + left, at + n).skip(1) =~= higher);
            assert(x * 256 + 255 < 256 * top) by (nonlinear_arith)
                requires
                    x < top,
            ;
        }
        x = x * 256 + byte as u128;
    }
    x
}

/// A shape with a wire format.
pub trait Wire: Sized + View {
    /// The bytes that spell a value.
    spec fn wire(v: Self::V) -> Seq<u8>;

    /// Whether a value can be written: every list in it has a length that
    /// fits 32 bits, and every block has its 32 bytes.
    spec fn writable(v: Self::V) -> bool;

    /// What reading one value from the front of `bytes` gives: the value and
    /// the number of bytes that spell it, or why there is none.
    spec fn parsed(bytes: Seq<u8>) -> Result<(Self::V, nat), WireError>;

    /// Reading never goes past the end, and fails only for a lack of bytes
    /// or for a wrong tag.
    proof fn lemma_parsed(bytes: Seq<u8>)
        ensures
            Self::parsed(bytes) matches Ok(found) ==> found.1 <= bytes.len(),
            Self::parsed(bytes) matches Err(e) ==> e == WireError::UnexpectedEnd || e
                == WireError::InvalidTag,
    ;

    /// Reading what was written gives the value back, whatever follows it.
    proof fn lemma_round_trip(v: Self::V, rest: Seq<u8>)
        requires
            Self::writable(v),
        ensures
            Self::parsed(Self::wire(v) + rest) == Ok::<(Self::V, nat), WireError>(
                (v, Self::wire(v).len()),
            ),
    ;

    /// Whether this value can be written.
    fn can_encode(&self) -> (ok: bool)
        ensures
            ok == Self::writable(self@),
    ;

    /// Appends the bytes that spell this value.
    fn encode(&self, out: &mut Vec<u8>)
        requires
            Self::writable(self@),
        ensures
            final(out)@ == old(out)@ + Self::wire(self@),
    ;

    /// Reads one value from `bytes`, starting at `at`, and says where the
    /// next one starts.
    fn decode(bytes: &[u8], at: usize) -> (r: Result<(Self, usize), WireError>)
        requires
            at <= bytes.len(),
        ensures
            match Self::parsed(bytes@.skip(at as int)) {
                Ok(found) => r is Ok && r->Ok_0.0@ == found.0 && r->Ok_0.1 == at + found.1,
                Err(e) => r is Err && r->Err_0 == e,
            },
    ;
}

/// What reading a number of `n` bytes from the front of `bytes` gives.
pub open spec fn parsed_number(bytes: Seq<u8>, n: nat) -> Result<(nat, nat), WireError> {
    if bytes.len() < n {
        Err(WireError::UnexpectedEnd)
    } else {
        Ok((le_value(bytes.take(n as int)), n))
    }
}

/// Reads a number of `n` bytes from `bytes`, starting at `at`.
pub fn read_number(bytes: &[u8], at: usize, n: usize) -> (r: Result<(u128, usize), WireError>)
    requires
        n <= 16,
        at <= bytes.len(),
    ensures
        match parsed_number(bytes@.skip(at as int), n as nat) {
            Ok(found) => r is Ok && r->Ok_0.0 == found.0 && r->Ok_0.1 == at + n && found.0
                < pow256(n as nat),
            Err(e) => r is Err && r->Err_0 == e,
        },
{
    if bytes.len() - at < n {
        Err(WireError::UnexpectedEnd)
    } else {
        let x = get_le(bytes, at, n);
        assert(bytes@.skip(at as int).take(n as int) =~= bytes@.subrange(at as int, at + n));
        Ok((x, at + n))
    }
}

/// A number that was written is read back, whatever follows it.
pub proof fn lemma_number_round_trip(x: nat, n: nat, rest: Seq<u8>)
    requires
        x < pow256(n),
    ensures
        parsed_number(le_bytes(x, n) + rest, n) == Ok::<(nat, nat), WireError>((x, n)),
        le_bytes(x, n).len() == n,
{
    lemma_le_bytes_len(x, n);
    lemma_le_value_of_bytes(x, n);
    assert((le_bytes(x, n) + rest).take(n as int) =~= le_bytes(x, n));
}

/// What reading a tag byte from the front of `bytes` gives, where `kinds`
/// tags are in use.
pub open spec fn parsed_tag(bytes: Seq<u8>, kinds: nat) -> Result<(nat, nat), WireError> {
    if bytes.len() < 1 {
        Err(WireError::UnexpectedEnd)
    } else if bytes[0] >= kinds {
        Err(WireError::InvalidTag)
    } else {
        Ok((bytes[0] as nat, 1))
    }
}

/// Reads a tag byte from `bytes` at `at`.
pub fn read_tag(bytes: &[u8], at: usize, kinds: u8) -> (r: Result<(u8, usize), WireError>)
    requires
        at <= bytes.len(),
    ensures
        match parsed_tag(bytes@.skip(at as int), kinds as nat) {
            Ok(found) => r is Ok && r->Ok_0.0 == found.0 && r->Ok_0.1 == at + 1 && found.0
                < kinds,
            Err(e) => r is Err && r->Err_0 == e,
        },
{
    if at == bytes.len() {
        Err(WireError::UnexpectedEnd)
    } else if bytes[at] >= kinds {
        Err(WireError::InvalidTag)
    } else {
        Ok((bytes[at], at + 1))
    }
}

/// The bytes that spell an optional block of 32 bytes.
pub open spec fn wire_optional_block(block: Option<Seq<u8>>) -> Seq<u8> {
    match block {
        None => seq![0u8],
        Some(b) => seq![1u8] + b,
    }
}

/// What reading an optional block from the front of `bytes` gives.
pub open spec fn parsed_optional_block(bytes: Seq<u8>) -> Result<
    (Option<Seq<u8>>, nat),
    WireError,
> {
    match parsed_tag(bytes, 2) {
        Err(e) => Err(e),
        Ok(tag) => if tag.0 == 0 {
            Ok((None, 1))
        } else if bytes.len() < 33 {
            Err(WireError::UnexpectedEnd)
        } else {
            Ok((Some(bytes.subrange(1, 33)), 33))
        },
    }
}

/// An optional block that was written is read back, whatever follows it.
pub proof fn lemma_optional_block_round_trip(block: Option<Seq<u8>>, rest: Seq<u8>)
    requires
        block matches Some(b) ==> b.len() == 32,
    ensures
        parsed_optional_block(wire_optional_block(block) + rest) == Ok::<
            (Option<Seq<u8>>, nat),
            WireError,
        >((block, wire_optional_block(block).len())),
{
    let all = wire_optional_block(block) + rest;
    match block {
        None => {},
        Some(b) => {
            assert(all.subrange(1, 33) =~= b);
        },
    }
}

/// Appends the bytes that spell an optional block.
pub fn write_optional_block(out: &mut Vec<u8>, block: &Option<[u8; 32]>)
    ensures
        final(out)@ == old(out)@ + wire_optional_block(
            match *block {
                Some(b) => Some(b@),
                None => None,
            },
        ),
{
    match block {
        None => {
            out.push(0);
            assert(out@ =~= old(out)@ + seq![0u8]);
        },
        Some(b) => {
            out.push(1);
            let mut i: usize = 0;
            while i < 32
                invariant
                    i <= 32,
                    out@ == old(out)@ + seq![1u8] + b@.take(i as int),
                decreases 32 - i,
            {
                out.push(b[i]);
                assert(b@.take(i + 1) =~= b@.take(i as int).push(b@[i as int]));
                i += 1;
            }
            assert(b@.take(32) =~= b@);
            assert(old(out)@ + seq![1u8] + b@ =~= old(out)@ + (seq![1u8] + b@));
        },
    }
}

/// Reads an optional block from `bytes` at `at`.
pub fn read_optional_block(bytes: &[u8], at: usize) -> (r: Result<
    (Option<[u8; 32]>, usize),
    WireError,
>)
    requires
        at <= bytes.len(),
    ensures
        match parsed_optional_block(bytes@.skip(at as int)) {
            Ok(found) => r is Ok && r->Ok_0.1 == at + found.1 && found.0 == match r->Ok_0.0 {
                Some(b) => Some(b@),
                None => None,
            },
            Err(e) => r is Err && r->Err_0 == e,
        },
{
    match read_tag(bytes, at, 2) {
        Err(e) => Err(e),
        Ok((tag, next)) => {
            if tag == 0 {
                Ok((None, next))
            } else if bytes.len() - at < 33 {
                Err(WireError::UnexpectedEnd)
            } else {
                let mut block: [u8; 32] = [0u8; 32];
                let mut i: usize = 0;
                while i < 32
                    invariant
                        i <= 32,
                        next == at + 1,
                        at + 33 <= bytes.len(),
                        forall|j: int| 0 <= j < i ==> block@[j] == bytes@[next + j],
                    decreases 32 - i,
                {
                    block[i] = bytes[next + i];
                    i += 1;
                }
                assert(block@ =~= bytes@.skip(at as int).subrange(1, 33));
                Ok((Some(block), at + 33))
            }
        },
    }
}

/// The bytes that spell a list of bytes: its length, then its items.
pub open spec fn wire_byte_list(items: Seq<u8>) -> Seq<u8> {
    le_bytes(items.len(), 4) + items
}

/// What reading a list of bytes from the front of `bytes` gives.
pub open spec fn parsed_byte_list(bytes: Seq<u8>) -> Result<(Seq<u8>, nat), WireError> {
    match parsed_number(bytes, 4) {
        Err(e) => Err(e),
        Ok(count) => if bytes.len() < 4 + count.0 {
            Err(WireError::UnexpectedEnd)
        } else {
            Ok((bytes.subrange(4, 4 + count.0 as int), 4 + count.0))
        },
    }
}

/// A list of bytes that was written is read back, whatever follows it.
pub proof fn lemma_byte_list_round_trip(items: Seq<u8>, rest: Seq<u8>)
    requires
        items.len() <= u32::MAX,
    ensures
        parsed_byte_list(wire_byte_list(items) + rest) == Ok::<(Seq<u8>, nat), WireError>(
            (items, wire_byte_list(items).len()),
        ),
        wire_byte_list(items).len() == 4 + items.len(),
{
    lemma_pow256_values();
    let all = wire_byte_list(items) + rest;
    lemma_number_round_trip(items.len(), 4, items + rest);
    assert(all =~= le_bytes(items.len(), 4) + (items + rest));
    assert(all.subrange(4, 4 + items.len() as int) =~= items);
}

/// Appends the bytes that spell a list of bytes.
pub fn write_byte_list(out: &mut Vec<u8>, items: &Vec<u8>)
    requires
        items@.len() <= u32::MAX,
    ensures
        final(out)@ == old(out)@ + wire_byte_list(items@),
{
    put_le(out, items.len() as u128, 4);
    let ghost head = out@;
    let mut i: usize = 0;
    while i < items.len()
        invariant
            i <= items@.len(),
            out@ == head + items@.take(i as int),
        decreases items@.len() - i,
    {
        out.push(items[i]);
        assert(items@.take(i + 1) =~= items@.take(i as int).push(items@[i as int]));
        i += 1;
    }
    assert(items@.take(items@.len() as int) =~= items@);
    assert(head + items@ =~= old(out)@ + wire_byte_list(items@));
}

/// Reads a list of bytes from `bytes` at `at`.
pub fn read_byte_list(bytes: &[u8], at: usize) -> (r: Result<(Vec<u8>, usize), WireError>)
    requires
        at <= bytes.len(),
    ensures
        match parsed_byte_list(bytes@.skip(at as int)) {
            Ok(found) => r is Ok && r->Ok_0.0@ == found.0 && r->Ok_0.1 == at + found.1,
            Err(e) => r is Err && r->Err_0 == e,
        },
{
    match read_number(bytes, at, 4) {
        Err(e) => Err(e),
        Ok((count, next)) => {
            proof {
                lemma_pow256_values();
            }
            if ((bytes.len() - next) as u128) < count {
                Err(WireError::UnexpectedEnd)
            } else {
                let count: usize = count as usize;
                let mut items: Vec<u8> = Vec::new();
                let mut i: usize = 0;
                while i < count
                    invariant
                        i <= count,
                        next + count <= bytes.len(),
                        items@ == bytes@.subrange(next as int, next + i),
                    decreases count - i,
                {
                    items.push(bytes[next + i]);
                    assert(bytes@.subrange(next as int, next + i + 1) =~= bytes@.subrange(
                        next as int,
                        next + i,
                    ).push(bytes@[next + i]));
                    i += 1;
                }
                assert(items@ =~= bytes@.skip(at as int).subrange(4, 4 + count));
                Ok((items, next + count))
            }
        },
    }
}

/// The bytes that spell the items one after another.
pub open spec fn wire_items<T: Wire>(items: Seq<T::V>) -> Seq<u8>
    decreases items.len(),
{
    if items.len() == 0 {
        Seq::empty()
    } else {
        T::wire(items[0]) + wire_items::<T>(items.skip(1))
    }
}

/// The bytes that spell a list: its length, then its items.
pub open spec fn wire_list<T: Wire>(items: Seq<T::V>) -> Seq<u8> {
    le_bytes(items.len(), 4) + wire_items::<T>(items)
}

/// Whether a list can be written: its length fits 32 bits and each of its
/// items can be written.
pub open spec fn writable_list<T: Wire>(items: Seq<T::V>) -> bool {
    &&& items.len() <= u32::MAX
    &&& forall|i: int| 0 <= i < items.len() ==> T::writable(#[trigger] items[i])
}

/// What reading `count` items from the front of `bytes` gives: the items
/// and the number of bytes that spell them, or why the first one that
/// fails does.
pub open spec fn parsed_items<T: Wire>(bytes: Seq<u8>, count: nat) -> Result<
    (Seq<T::V>, nat),
    WireError,
>
    decreases count,
{
    if count == 0 {
        Ok((Seq::empty(), 0))
    } else {
        match T::parsed(bytes) {
            Err(e) => Err(e),
            Ok(first) => match parsed_items::<T>(bytes.skip(first.1 as int), (count - 1) as nat) {
                Err(e) => Err(e),
                Ok(others) => Ok((seq![first.0] + others.0, first.1 + others.1)),
            },
        }
    }
}

/// What reading a list from all of `bytes` gives.
pub open spec fn parsed_list<T: Wire>(bytes: Seq<u8>) -> Result<Seq<T::V>, WireError> {
    match parsed_number(bytes, 4) {
        Err(e) => Err(e),
        Ok(count) => match parsed_items::<T>(bytes.skip(4), count.0) {
            Err(e) => Err(e),
            Ok(items) => if 4 + items.1 == bytes.len() {
                Ok(items.0)
            } else {
                Err(WireError::TrailingBytes)
            },
        },
    }
}

/// Items that were written one after another are read back, whatever
/// follows them.
pub proof fn lemma_items_round_trip<T: Wire>(items: Seq<T::V>, rest: Seq<u8>)
    requires
        forall|i: int| 0 <= i < items.len() ==> T::writable(#[trigger] items[i]),
    ensures
        parsed_items::<T>(wire_items::<T>(items) + rest, items.len()) == Ok::<
            (Seq<T::V>, nat),
            WireError,
        >((items, wire_items::<T>(items).len())),
    decreases items.len(),
{
    if items.len() > 0 {
        let first = T::wire(items[0]);
        let others = wire_items::<T>(items.skip(1));
        let all = wire_items::<T>(items) + rest;
        T::lemma_round_trip(items[0], others + rest);
        assert forall|i: int| 0 <= i < items.skip(1).len() implies T::writable(
            #[trigger] items.skip(1)[i],
        ) by {
            assert(items.skip(1)[i] == items[i + 1]);
        }
        lemma_items_round_trip::<T>(items.skip(1), rest);
        assert(all =~= first + (others + rest));
        assert(all.skip(first.len() as int) =~= others + rest);
        assert(seq![items[0]] + items.skip(1) =~= items);
        assert(T::parsed(all) == Ok::<(T::V, nat), WireError>((items[0], first.len())));
        assert(parsed_items::<T>(others + rest, (items.len() - 1) as nat) == Ok::<
            (Seq<T::V>, nat),
            WireError,
        >((items.skip(1), others.len())));
    } else {
        assert(wire_items::<T>(items) + rest =~= rest);
        assert(items =~= Seq::<T::V>::empty());
    }
}

/// Reading a list that was written gives the list back: for every list
/// that can be written, and so for every action of every kind in it.
pub proof fn lemma_list_round_trip<T: Wire>(items: Seq<T::V>)
    requires
        writable_list::<T>(items),
    ensures
        parsed_list::<T>(wire_list::<T>(items)) == Ok::<Seq<T::V>, WireError>(items),
{
    lemma_pow256_values();
    let body = wire_items::<T>(items);
    let all = wire_list::<T>(items);
    lemma_number_round_trip(items.len(), 4, body);
    lemma_items_round_trip::<T>(items, Seq::empty());
    assert(body + Seq::<u8>::empty() =~= body);
    assert(all.skip(4) =~= body);
}

/// Whether every item can be written.
fn all_can_encode<T: Wire>(items: &Vec<T>) -> (ok: bool)
    ensures
        ok == forall|i: int| 0 <= i < items@.len() ==> T::writable(#[trigger] items@[i]@),
{
    let mut i: usize = 0;
    while i < items.len()
        invariant
            i <= items@.len(),
            forall|j: int| 0 <= j < i ==> T::writable(#[trigger] items@[j]@),
        decreases items@.len() - i,
    {
        if !items[i].can_encode() {
            assert(!T::writable(items@[i as int]@));
            return false;
        }
        i += 1;
    }
    true
}

/// Writes a list. It fails, with `LengthTooLarge`, exactly if the list or
/// a list inside one of its items is too long for its length to be
/// written.
pub fn try_to_vec<T: Wire>(items: &Vec<T>) -> (r: Result<Vec<u8>, WireError>)
    ensures
        writable_list::<T>(items@.map_values(|v: T| v@)) ==> r is Ok && r->Ok_0@ == wire_list::<T>(
            items@.map_values(|v: T| v@),
        ),
        !writable_list::<T>(items@.map_values(|v: T| v@)) ==> r is Err && r->Err_0
            == WireError::LengthTooLarge,
{
    let ghost views = items@.map_values(|v: T| v@);
    assert(forall|i: int| 0 <= i < views.len() ==> views[i] == (#[trigger] items@[i])@);
    if items.len() > u32::MAX as usize || !all_can_encode(items) {
        return Err(WireError::LengthTooLarge);
    }
    let mut out: Vec<u8> = Vec::new();
    put_le(&mut out, items.len() as u128, 4);
    let ghost head = out@;
    assert(head =~= le_bytes(views.len(), 4));
    let mut i: usize = 0;
    assert(views.skip(0) =~= views);
    assert(head + wire_items::<T>(views) =~= out@ + wire_items::<T>(views.skip(0)));
    while i < items.len()
        invariant
            i <= items@.len(),
            views == items@.map_values(|v: T| v@),
            writable_list::<T>(views),
            head + wire_items::<T>(views) == out@ + wire_items::<T>(views.skip(i as int)),
        decreases items@.len() - i,
    {
        let ghost before = out@;
        let ghost left = views.skip(i as int);
        assert(left[0] == views[i as int]);
        assert(left.skip(1) =~= views.skip(i + 1));
        items[i].encode(&mut out);
        assert(before + (T::wire(left[0]) + wire_items::<T>(left.skip(1))) =~= out@
            + wire_items::<T>(views.skip(i + 1)));
        i += 1;
    }
    assert(out@ + wire_items::<T>(views.skip(views.len() as int)) =~= out@);
    Ok(out)
}

/// Reads a list from all of `bytes`. It fails with `UnexpectedEnd` where
/// the bytes end inside the list, with `InvalidTag` at a tag byte that
/// names no kind, and with `TrailingBytes` where bytes follow the list.
pub fn try_from_slice<T: Wire>(bytes: &[u8]) -> (r: Result<Vec<T>, WireError>)
    ensures
        match parsed_list::<T>(bytes@) {
            Ok(items) => r is Ok && r->Ok_0@.map_values(|v: T| v@) == items,
            Err(e) => r is Err && r->Err_0 == e,
        },
{
    assert(bytes@.skip(0) =~= bytes@);
    let (count, start) = match read_number(bytes, 0, 4) {
        Err(e) => {
            return Err(e);
        },
        Ok(found) => found,
    };
    let mut items: Vec<T> = Vec::new();
    let mut at: usize = start;
    let mut left: u128 = count;
    let ghost body = bytes@.skip(4);
    assert(items@.map_values(|v: T| v@) =~= Seq::<T::V>::empty());
    assert(body.skip(0) =~= body);
    while left > 0
        invariant
            4 <= at <= bytes.len(),
            body == bytes@.skip(4),
            parsed_number(bytes@, 4) == Ok::<(nat, nat), WireError>((count as nat, 4)),
            match parsed_items::<T>(body.skip(at - 4), left as nat) {
                Ok(others) => parsed_items::<T>(body, count as nat) == Ok::<
                    (Seq<T::V>, nat),
                    WireError,
                >((items@.map_values(|v: T| v@) + others.0, (at - 4 + others.1) as nat)),
                Err(e) => parsed_items::<T>(body, count as nat) == Err::<
                    (Seq<T::V>, nat),
                    WireError,
                >(e),
            },
        decreases left,
    {
        let ghost had = items@.map_values(|v: T| v@);
        let ghost here = body.skip(at - 4);
        assert(bytes@.skip(at as int) =~= here);
        proof {
            T::lemma_parsed(here);
        }
        match T::decode(bytes, at) {
            Err(e) => {
                return Err(e);
            },
            Ok((item, next)) => {
                assert(here.skip(next - at) =~= body.skip(next - 4));
                items.push(item);
                proof {
                    let first = T::parsed(here)->Ok_0;
                    assert(items@.map_values(|v: T| v@) =~= had + seq![first.0]);
                    match parsed_items::<T>(here.skip(first.1 as int), (left - 1) as nat) {
                        Ok(others) => {
                            assert(had + (seq![first.0] + others.0) =~= (had + seq![first.0])
                                + others.0);
                        },
                        Err(e) => {},
                    }
                }
                at = next;
                left -= 1;
            },
        }
    }
    assert(items@.map_values(|v: T| v@) + Seq::<T::V>::empty() =~= items@.map_values(
        |v: T| v@,
    ));
    if at != bytes.len() {
        return Err(WireError::TrailingBytes);
    }
    Ok(items)
}

} // verus!
