//! The value shapes that serve as keys and values of a workload.

use crate::cursor::{
    after_optional_block, after_take, byte_list, byte_list_width, le_value,
    lemma_byte_list_width, optional_block, take_byte_list, take_optional_block, take_u128,
    take_u32, unread, zero_padded,
};
use crate::draw::Draw;
use crate::payload::Payload;
use crate::order::{
    bytes_before, bytes_equal, bytes_precede, lemma_bytes_order_is_total,
    lemma_bytes_order_is_transitive,
};
use crate::wire::{
    le_bytes, lemma_byte_list_round_trip, lemma_number_round_trip,
    lemma_optional_block_round_trip, lemma_pow256_values, parsed_byte_list, parsed_number, parsed_optional_block,
    put_le, read_byte_list, read_number, read_optional_block, wire_byte_list,
    wire_optional_block, write_byte_list, write_optional_block, Wire, WireError,
};
use arbitrary::Unstructured;
use vstd::prelude::*;

verus! {

/// The largest capacity that a value shape may declare.
pub const MAX_VALUE_CAPACITY: usize = 1024;

/// A shape that serves as key and as value of a workload.
pub trait MockValue: Payload {
    /// What the blank value of the shape holds.
    spec fn blank_model() -> Self::V;

    /// A value shape declares a small capacity, so that an action made of a
    /// few values still fits a buffer.
    proof fn lemma_value_capacity()
        ensures
            Self::capacity() <= MAX_VALUE_CAPACITY,
            Self::ceiling() matches Some(most) ==> most <= MAX_VALUE_CAPACITY,
    ;

    /// Whether the value that holds `x` comes before the one that holds
    /// `y`.
    spec fn before(x: Self::V, y: Self::V) -> bool;

    /// Of two values exactly one thing holds: the first comes before the
    /// second, they hold the same, or the second comes before the first.
    proof fn lemma_order_is_total(x: Self::V, y: Self::V)
        ensures
            Self::before(x, y) || x == y || Self::before(y, x),
            !(Self::before(x, y) && x == y),
            !(Self::before(x, y) && Self::before(y, x)),
    ;

    /// What comes before something that comes before a third comes before
    /// the third.
    proof fn lemma_order_is_transitive(x: Self::V, y: Self::V, z: Self::V)
        requires
            Self::before(x, y),
            Self::before(y, z),
        ensures
            Self::before(x, z),
    ;

    /// Answers whether this value comes before the other.
    fn precedes(&self, other: &Self) -> (before: bool)
        ensures
            before == Self::before(self@, other@),
    ;

    /// Answers whether this value holds the same as the other.
    fn same(&self, other: &Self) -> (same: bool)
        ensures
            same == (self@ == other@),
    ;

    /// The blank value: the one that a workload of equal keys is made of.
    fn blank() -> (value: Self)
        ensures
            value@ == Self::blank_model(),
    ;

    /// A second value that holds the same.
    fn duplicate(&self) -> (value: Self)
        ensures
            value@ == self@,
    ;
}

/// A small value whose number spans the whole 32-bit range, so that two
/// drawn values rarely meet.
#[derive(Clone, Debug, PartialEq, Eq, PartialOrd, Ord)]
pub struct LightSparseMock {
    a: u32,
}

impl View for LightSparseMock {
    type V = u32;

    closed spec fn view(&self) -> u32 {
        self.a
    }
}

impl LightSparseMock {
    /// The value with the number `a`.
    pub fn new(a: u32) -> (value: Self)
        ensures
            value@ == a,
    {
        LightSparseMock { a }
    }

    /// The number of this value.
    pub fn a(&self) -> (a: u32)
        ensures
            a == self@,
    {
        self.a
    }
}

/// The number that the first four bytes of `data` spell, little-endian,
/// with zeros for missing bytes.
pub open spec fn leading_u32(data: Seq<u8>) -> u32 {
    le_value(zero_padded(data, 4)) as u32
}

/// How many bytes a field of `n` bytes takes from `data`.
pub open spec fn taken(data: Seq<u8>, n: nat) -> nat {
    if n <= data.len() {
        n
    } else {
        data.len()
    }
}

impl Draw for LightSparseMock {
    open spec fn capacity() -> nat {
        4
    }

    open spec fn ceiling() -> Option<nat> {
        Some(4)
    }

    open spec fn drawn(data: Seq<u8>) -> u32 {
        leading_u32(data)
    }

    open spec fn width(data: Seq<u8>) -> nat {
        taken(data, 4)
    }

    proof fn lemma_width(data: Seq<u8>) {
    }

    fn size_hint(depth: usize) -> (hint: (usize, Option<usize>)) {
        (4, Some(4))
    }

    fn draw(u: &mut Unstructured<'_>) -> (value: Self) {
        let a = take_u32(u).unwrap();
        assert(after_take(unread(*old(u)), 4) =~= unread(*old(u)).skip(
            taken(unread(*old(u)), 4) as int,
        ));
        LightSparseMock { a }
    }
}

impl MockValue for LightSparseMock {
    open spec fn blank_model() -> u32 {
        0
    }

    open spec fn before(x: u32, y: u32) -> bool {
        x < y
    }

    proof fn lemma_order_is_total(x: u32, y: u32) {
    }

    proof fn lemma_order_is_transitive(x: u32, y: u32, z: u32) {
    }

    fn precedes(&self, other: &Self) -> (before: bool) {
        self.a < other.a
    }

    fn same(&self, other: &Self) -> (same: bool) {
        self.a == other.a
    }

    proof fn lemma_value_capacity() {
    }

    fn blank() -> (value: Self) {
        LightSparseMock { a: 0 }
    }

    fn duplicate(&self) -> (value: Self) {
        LightSparseMock { a: self.a }
    }
}

impl Wire for LightSparseMock {
    open spec fn wire(v: u32) -> Seq<u8> {
        le_bytes(v as nat, 4)
    }

    open spec fn writable(v: u32) -> bool {
        true
    }

    open spec fn parsed(bytes: Seq<u8>) -> Result<(u32, nat), WireError> {
        match parsed_number(bytes, 4) {
            Ok(found) => Ok((found.0 as u32, found.1)),
            Err(e) => Err(e),
        }
    }

    proof fn lemma_parsed(bytes: Seq<u8>) {
    }

    proof fn lemma_round_trip(v: u32, rest: Seq<u8>) {
        lemma_pow256_values();
        lemma_number_round_trip(v as nat, 4, rest);
    }

    fn can_encode(&self) -> (ok: bool) {
        true
    }

    fn encode(&self, out: &mut Vec<u8>) {
        put_le(out, self.a as u128, 4);
    }

    fn decode(bytes: &[u8], at: usize) -> (r: Result<(Self, usize), WireError>) {
        proof {
            lemma_pow256_values();
        }
        match read_number(bytes, at, 4) {
            Ok((x, end)) => Ok((LightSparseMock { a: x as u32 }, end)),
            Err(e) => Err(e),
        }
    }
}

impl Payload for LightSparseMock {
    proof fn lemma_drawn_is_writable(data: Seq<u8>) {
    }
}

impl Default for LightSparseMock {
    fn default() -> (value: Self)
        ensures
            value@ == 0,
    {
        LightSparseMock { a: 0 }
    }
}

/// A small value whose number is kept to the range from 0 to 7, so that
/// drawn values meet often.
#[derive(Clone, Debug, PartialEq, Eq, PartialOrd, Ord)]
pub struct LightDenseMock {
    a: u32,
}

impl View for LightDenseMock {
    type V = u32;

    closed spec fn view(&self) -> u32 {
        self.a
    }
}

impl LightDenseMock {
    /// The value with the number `a`.
    pub fn new(a: u32) -> (value: Self)
        ensures
            value@ == a,
    {
        LightDenseMock { a }
    }

    /// The number of this value.
    pub fn a(&self) -> (a: u32)
        ensures
            a == self@,
    {
        self.a
    }
}

/// The mask that keeps a drawn number in the dense range.
pub const DENSE_MASK: u32 = 7;

impl Draw for LightDenseMock {
    open spec fn capacity() -> nat {
        4
    }

    open spec fn ceiling() -> Option<nat> {
        Some(4)
    }

    open spec fn drawn(data: Seq<u8>) -> u32 {
        leading_u32(data) & DENSE_MASK
    }

    open spec fn width(data: Seq<u8>) -> nat {
        taken(data, 4)
    }

    proof fn lemma_width(data: Seq<u8>) {
    }

    fn size_hint(depth: usize) -> (hint: (usize, Option<usize>)) {
        (4, Some(4))
    }

    fn draw(u: &mut Unstructured<'_>) -> (value: Self)
        ensures
            value@ <= DENSE_MASK,
    {
        let a = take_u32(u).unwrap();
        assert(after_take(unread(*old(u)), 4) =~= unread(*old(u)).skip(
            taken(unread(*old(u)), 4) as int,
        ));
        assert(a & 7 <= 7) by (bit_vector);
        LightDenseMock { a: a & DENSE_MASK }
    }
}

impl MockValue for LightDenseMock {
    open spec fn blank_model() -> u32 {
        0
    }

    open spec fn before(x: u32, y: u32) -> bool {
        x < y
    }

    proof fn lemma_order_is_total(x: u32, y: u32) {
    }

    proof fn lemma_order_is_transitive(x: u32, y: u32, z: u32) {
    }

    fn precedes(&self, other: &Self) -> (before: bool) {
        self.a < other.a
    }

    fn same(&self, other: &Self) -> (same: bool) {
        self.a == other.a
    }

    proof fn lemma_value_capacity() {
    }

    fn blank() -> (value: Self) {
        LightDenseMock { a: 0 }
    }

    fn duplicate(&self) -> (value: Self) {
        LightDenseMock { a: self.a }
    }
}

impl Wire for LightDenseMock {
    open spec fn wire(v: u32) -> Seq<u8> {
        le_bytes(v as nat, 4)
    }

    open spec fn writable(v: u32) -> bool {
        true
    }

    open spec fn parsed(bytes: Seq<u8>) -> Result<(u32, nat), WireError> {
        match parsed_number(bytes, 4) {
            Ok(found) => Ok((found.0 as u32, found.1)),
            Err(e) => Err(e),
        }
    }

    proof fn lemma_parsed(bytes: Seq<u8>) {
    }

    proof fn lemma_round_trip(v: u32, rest: Seq<u8>) {
        lemma_pow256_values();
        lemma_number_round_trip(v as nat, 4, rest);
    }

    fn can_encode(&self) -> (ok: bool) {
        true
    }

    fn encode(&self, out: &mut Vec<u8>) {
        put_le(out, self.a as u128, 4);
    }

    fn decode(bytes: &[u8], at: usize) -> (r: Result<(Self, usize), WireError>) {
        proof {
            lemma_pow256_values();
        }
        match read_number(bytes, at, 4) {
            Ok((x, end)) => Ok((LightDenseMock { a: x as u32 }, end)),
            Err(e) => Err(e),
        }
    }
}

impl Payload for LightDenseMock {
    proof fn lemma_drawn_is_writable(data: Seq<u8>) {
    }
}

impl Default for LightDenseMock {
    fn default() -> (value: Self)
        ensures
            value@ == 0,
    {
        LightDenseMock { a: 0 }
    }
}

/// A number drawn for a dense value lies in the dense range, whatever the
/// bytes.
pub proof fn lemma_dense_draw_is_small(data: Seq<u8>)
    ensures
        LightDenseMock::drawn(data) <= DENSE_MASK,
{
    let a = leading_u32(data);
    assert(a & 7 <= 7) by (bit_vector);
}

/// Among more than eight numbers of the dense range two are equal.
pub proof fn lemma_dense_numbers_collide(numbers: Seq<u32>)
    requires
        numbers.len() > 8,
        forall|i: int| 0 <= i < numbers.len() ==> numbers[i] <= DENSE_MASK,
    ensures
        exists|i: int, j: int| 0 <= i < j < numbers.len() && numbers[i] == numbers[j],
{
    let wide = numbers.map_values(|a: u32| a as int);
    if wide.no_duplicates() {
        wide.unique_seq_to_set();
        vstd::set_lib::lemma_int_range(0, 8);
        assert(wide.to_set().subset_of(vstd::set_lib::set_int_range(0, 8))) by {
            assert forall|a: int| wide.to_set().contains(a) implies 0 <= a < 8 by {
                let i = choose|i: int| 0 <= i < wide.len() && wide[i] == a;
                assert(numbers[i] <= DENSE_MASK);
            }
        }
        vstd::set_lib::lemma_len_subset(wide.to_set(), vstd::set_lib::set_int_range(0, 8));
        assert(false);
    } else {
        let (i, j) = choose|i: int, j: int|
            0 <= i < wide.len() && 0 <= j < wide.len() && i != j && wide[i] == wide[j];
        if i < j {
            assert(numbers[i] == numbers[j]);
        } else {
            assert(numbers[j] == numbers[i]);
        }
    }
}

/// Among more than eight dense values that are drawn, from whatever bytes,
/// two are equal: a workload of that many dense keys meets a key again.
pub proof fn lemma_dense_draws_collide(sources: Seq<Seq<u8>>)
    requires
        sources.len() > 8,
    ensures
        exists|i: int, j: int|
            0 <= i < j < sources.len() && LightDenseMock::drawn(sources[i])
                == LightDenseMock::drawn(sources[j]),
{
    let numbers = sources.map_values(|data: Seq<u8>| LightDenseMock::drawn(data));
    assert forall|i: int| 0 <= i < numbers.len() implies numbers[i] <= DENSE_MASK by {
        lemma_dense_draw_is_small(sources[i]);
    }
    lemma_dense_numbers_collide(numbers);
    let (i, j) = choose|i: int, j: int| 0 <= i < j < numbers.len() && numbers[i] == numbers[j];
    assert(LightDenseMock::drawn(sources[i]) == LightDenseMock::drawn(sources[j]));
}

/// A large value: a wide number, an optional block of 32 bytes and a tail of
/// any length.
#[derive(Clone, Debug, PartialEq, Eq, PartialOrd, Ord)]
pub struct HeavyMock {
    a: u128,
    b: Option<[u8; 32]>,
    c: Vec<u8>,
}

/// The heavy shape by what it is made of: a part that lies on the stack and
/// a part that lies on the heap.
pub type StackHeapMock = HeavyMock;

/// What a heavy value holds.
pub struct HeavyModel {
    pub a: u128,
    pub b: Option<Seq<u8>>,
    pub c: Seq<u8>,
}

impl View for HeavyMock {
    type V = HeavyModel;

    closed spec fn view(&self) -> HeavyModel {
        HeavyModel {
            a: self.a,
            b: match self.b {
                Some(block) => Some(block@),
                None => None,
            },
            c: self.c@,
        }
    }
}

impl HeavyMock {
    /// The value with the number `a`, the block `b` and the tail `c`.
    pub fn new(a: u128, b: Option<[u8; 32]>, c: Vec<u8>) -> (value: Self)
        ensures
            value@.a == a,
            value@.b == match b {
                Some(block) => Some(block@),
                None => None,
            },
            value@.c == c@,
    {
        HeavyMock { a, b, c }
    }

    /// The number of this value.
    pub fn a(&self) -> (a: u128)
        ensures
            a == self@.a,
    {
        self.a
    }

    /// The block of this value, if it has one.
    pub fn b(&self) -> (b: &Option<[u8; 32]>)
        ensures
            self@.b == match *b {
                Some(block) => Some(block@),
                None => None,
            },
    {
        &self.b
    }

    /// The tail of this value.
    pub fn c(&self) -> (c: &Vec<u8>)
        ensures
            c@ == self@.c,
    {
        &self.c
    }
}

/// The number that the first sixteen bytes of `data` spell, little-endian,
/// with zeros for missing bytes.
pub open spec fn leading_u128(data: Seq<u8>) -> u128 {
    le_value(zero_padded(data, 16)) as u128
}

/// What is left of `data` behind the number and the optional block of a
/// heavy value.
pub open spec fn heavy_tail_start(data: Seq<u8>) -> Seq<u8> {
    after_optional_block(after_take(data, 16))
}

impl Draw for HeavyMock {
    /// The number, the flag of the block and the block: all that has a
    /// fixed width.
    open spec fn capacity() -> nat {
        49
    }

    /// The tail has no bound.
    open spec fn ceiling() -> Option<nat> {
        None
    }

    open spec fn drawn(data: Seq<u8>) -> HeavyModel {
        HeavyModel {
            a: leading_u128(data),
            b: optional_block(after_take(data, 16)),
            c: byte_list(heavy_tail_start(data)),
        }
    }

    open spec fn width(data: Seq<u8>) -> nat {
        (data.len() - heavy_tail_start(data).len() + byte_list_width(
            heavy_tail_start(data),
        )) as nat
    }

    proof fn lemma_width(data: Seq<u8>) {
        lemma_byte_list_width(heavy_tail_start(data));
    }

    fn size_hint(depth: usize) -> (hint: (usize, Option<usize>)) {
        (49, None)
    }

    fn draw(u: &mut Unstructured<'_>) -> (value: Self) {
        let ghost data = unread(*old(u));
        let a = take_u128(u).unwrap();
        let b = take_optional_block(u).unwrap();
        let c = take_byte_list(u).unwrap();
        proof {
            let tail = heavy_tail_start(data);
            lemma_byte_list_width(tail);
            assert(tail =~= data.skip(data.len() - tail.len()));
            assert(tail.skip(byte_list_width(tail) as int) =~= data.skip(
                Self::width(data) as int,
            ));
        }
        HeavyMock { a, b, c }
    }
}

/// Whether the optional block `x` comes before `y`: none before any, and
/// two blocks by their bytes.
pub open spec fn block_before(x: Option<Seq<u8>>, y: Option<Seq<u8>>) -> bool {
    match (x, y) {
        (None, Some(_)) => true,
        (Some(p), Some(q)) => bytes_before(p, q),
        _ => false,
    }
}

impl MockValue for HeavyMock {
    open spec fn blank_model() -> HeavyModel {
        HeavyModel { a: 0, b: None, c: Seq::empty() }
    }

    /// By the number, then by the block, then by the tail.
    open spec fn before(x: HeavyModel, y: HeavyModel) -> bool {
        x.a < y.a || (x.a == y.a && (block_before(x.b, y.b) || (x.b == y.b && bytes_before(
            x.c,
            y.c,
        ))))
    }

    proof fn lemma_order_is_total(x: HeavyModel, y: HeavyModel) {
        lemma_bytes_order_is_total(x.c, y.c);
        match (x.b, y.b) {
            (Some(p), Some(q)) => {
                lemma_bytes_order_is_total(p, q);
            },
            _ => {},
        }
    }

    proof fn lemma_order_is_transitive(x: HeavyModel, y: HeavyModel, z: HeavyModel) {
        if x.a == y.a && y.a == z.a {
            match (x.b, y.b, z.b) {
                (Some(p), Some(q), Some(r)) => {
                    lemma_bytes_order_is_total(p, q);
                    lemma_bytes_order_is_total(q, r);
                    if bytes_before(p, q) && bytes_before(q, r) {
                        lemma_bytes_order_is_transitive(p, q, r);
                    }
                },
                _ => {},
            }
            if x.b == y.b && y.b == z.b {
                lemma_bytes_order_is_transitive(x.c, y.c, z.c);
            }
        }
    }

    fn precedes(&self, other: &Self) -> (before: bool) {
        if self.a != other.a {
            return self.a < other.a;
        }
        match (&self.b, &other.b) {
            (None, Some(_)) => {
                return true;
            },
            (Some(_), None) => {
                return false;
            },
            (Some(p), Some(q)) => {
                if !bytes_equal(p.as_slice(), q.as_slice()) {
                    proof {
                        lemma_bytes_order_is_total(p@, q@);
                    }
                    return bytes_precede(p.as_slice(), q.as_slice());
                }
                proof {
                    lemma_bytes_order_is_total(p@, q@);
                }
            },
            (None, None) => {},
        }
        bytes_precede(self.c.as_slice(), other.c.as_slice())
    }

    fn same(&self, other: &Self) -> (same: bool) {
        let blocks = match (&self.b, &other.b) {
            (None, None) => true,
            (Some(p), Some(q)) => bytes_equal(p.as_slice(), q.as_slice()),
            _ => false,
        };
        self.a == other.a && blocks && bytes_equal(self.c.as_slice(), other.c.as_slice())
    }

    proof fn lemma_value_capacity() {
    }

    fn blank() -> (value: Self) {
        HeavyMock { a: 0, b: None, c: Vec::new() }
    }

    fn duplicate(&self) -> (value: Self) {
        let c = self.c.clone();
        assert(c@ =~= self.c@);
        HeavyMock { a: self.a, b: self.b, c }
    }
}

impl Wire for HeavyMock {
    open spec fn wire(v: HeavyModel) -> Seq<u8> {
        le_bytes(v.a as nat, 16) + wire_optional_block(v.b) + wire_byte_list(v.c)
    }

    open spec fn writable(v: HeavyModel) -> bool {
        &&& v.b matches Some(block) ==> block.len() == 32
        &&& v.c.len() <= u32::MAX
    }

    open spec fn parsed(bytes: Seq<u8>) -> Result<(HeavyModel, nat), WireError> {
        match parsed_number(bytes, 16) {
            Err(e) => Err(e),
            Ok(a) => match parsed_optional_block(bytes.skip(16)) {
                Err(e) => Err(e),
                Ok(b) => match parsed_byte_list(bytes.skip(16 + b.1 as int)) {
                    Err(e) => Err(e),
                    Ok(c) => Ok(
                        (HeavyModel { a: a.0 as u128, b: b.0, c: c.0 }, 16 + b.1 + c.1),
                    ),
                },
            },
        }
    }

    proof fn lemma_parsed(bytes: Seq<u8>) {
    }

    proof fn lemma_round_trip(v: HeavyModel, rest: Seq<u8>) {
        lemma_pow256_values();
        let number = le_bytes(v.a as nat, 16);
        let block = wire_optional_block(v.b);
        let list = wire_byte_list(v.c);
        let all = Self::wire(v) + rest;
        lemma_number_round_trip(v.a as nat, 16, block + list + rest);
        lemma_optional_block_round_trip(v.b, list + rest);
        lemma_byte_list_round_trip(v.c, rest);
        assert(all =~= number + (block + list + rest));
        assert(all.skip(16) =~= block + (list + rest));
        assert(all.skip(16 + block.len() as int) =~= list + rest);
    }

    fn can_encode(&self) -> (ok: bool) {
        self.c.len() <= u32::MAX as usize
    }

    fn encode(&self, out: &mut Vec<u8>) {
        put_le(out, self.a, 16);
        write_optional_block(out, &self.b);
        write_byte_list(out, &self.c);
    }

    fn decode(bytes: &[u8], at: usize) -> (r: Result<(Self, usize), WireError>) {
        proof {
            lemma_pow256_values();
        }
        let ghost from = bytes@.skip(at as int);
        match read_number(bytes, at, 16) {
            Err(e) => Err(e),
            Ok((a, after_number)) => {
                assert(bytes@.skip(after_number as int) =~= from.skip(16));
                match read_optional_block(bytes, after_number) {
                    Err(e) => Err(e),
                    Ok((b, after_block)) => {
                        assert(bytes@.skip(after_block as int) =~= from.skip(
                            after_block - at,
                        ));
                        match read_byte_list(bytes, after_block) {
                            Err(e) => Err(e),
                            Ok((c, end)) => Ok((HeavyMock { a, b, c }, end)),
                        }
                    },
                }
            },
        }
    }
}

impl Payload for HeavyMock {
    proof fn lemma_drawn_is_writable(data: Seq<u8>) {
        lemma_byte_list_width(heavy_tail_start(data));
    }
}

impl Default for HeavyMock {
    fn default() -> (value: Self)
        ensures
            value@ == (HeavyModel { a: 0, b: None, c: Seq::empty() }),
    {
        HeavyMock { a: 0, b: None, c: Vec::new() }
    }
}

} // verus!
