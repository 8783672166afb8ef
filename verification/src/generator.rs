//! Workloads drawn from a seeded stream of bytes.
//!
//! The stream is `rand_xorshift::XorShiftRng`. A generator owns the stream
//! and a buffer of fixed size. One round refills the buffer from the stream,
//! asks the stream how much of the buffer to use, and draws values from that
//! much for as long as it lasts. What a round gives depends on the state of
//! the stream alone, so a seed fixes every workload that follows from it.

use crate::cursor::open_cursor;
use crate::draw::{arbitrary_take_rest, drawn_all, drawn_within, try_draw, Draw};
use rand_xorshift::XorShiftRng;
use vstd::prelude::*;

verus! {

#[verifier::external_type_specification]
#[verifier::external_body]
pub struct ExXorShiftRng(XorShiftRng);

/// The size of a generator's buffer.
pub const BUFFER_SIZE: usize = 4096;

/// The four state words that a stream holds, in the order in which it
/// keeps them.
pub uninterp spec fn stream_words(rng: XorShiftRng) -> Seq<u32>;

/// The state words of the stream that a seed starts.
pub uninterp spec fn seeded_words(seed: u64) -> Seq<u32>;

/// The bytes that a stream in the state `words` writes into a buffer of
/// `len` bytes, and the state words that it holds afterwards.
pub uninterp spec fn filled_from(words: Seq<u32>, len: nat) -> (Seq<u8>, Seq<u32>);

/// One step of a stream in the state `words`: the next 32-bit number, and
/// the state words that the stream holds afterwards. The first word is
/// mixed into the last, the other three move up by one place, and the
/// number is the new last word.
pub open spec fn stepped(words: Seq<u32>) -> (u32, Seq<u32>) {
    let t = words[0] ^ (words[0] << 11);
    let last = words[3] ^ (words[3] >> 19) ^ (t ^ (t >> 8));
    (last, seq![words[1], words[2], words[3], last])
}

/// The next 64-bit number of a stream in the state `words`, and the state
/// words that it holds afterwards: two steps, of which the first gives the
/// low half of the number.
pub open spec fn number_from(words: Seq<u32>) -> (u64, Seq<u32>) {
    let low = stepped(words);
    let high = stepped(low.1);
    (((high.0 as u64) << 32) | (low.0 as u64), high.1)
}

/// The order in which a stream in the state `words` leaves a list of `len`
/// items: for each place the place that its item came from; and the state
/// words that the stream holds afterwards.
pub uninterp spec fn shuffled_from(words: Seq<u32>, len: nat) -> (Seq<int>, Seq<u32>);

/// `XorShiftRng::seed_from_u64`: the stream that the seed starts. The same
/// seed starts the same stream everywhere.
#[verifier::external_body]
fn seeded_stream(seed: u64) -> (rng: XorShiftRng)
    ensures
        stream_words(rng) == seeded_words(seed),
{
    rand::SeedableRng::seed_from_u64(seed)
}

/// `XorShiftRng::fill_bytes`: overwrites every byte of the buffer with the
/// next bytes of the stream; the buffer keeps its length.
#[verifier::external_body]
fn refill(rng: &mut XorShiftRng, buf: &mut Vec<u8>)
    ensures
        final(buf)@ == filled_from(stream_words(*old(rng)), old(buf)@.len()).0,
        final(buf)@.len() == old(buf)@.len(),
        stream_words(*final(rng)) == filled_from(stream_words(*old(rng)), old(buf)@.len()).1,
{
    rand::RngCore::fill_bytes(rng, buf)
}

/// `XorShiftRng::next_u64`: the next 64-bit number of the stream, made of
/// two steps of its recurrence, the low half first.
#[verifier::external_body]
fn next_number(rng: &mut XorShiftRng) -> (number: u64)
    ensures
        number == number_from(stream_words(*old(rng))).0,
        stream_words(*final(rng)) == number_from(stream_words(*old(rng))).1,
{
    rand::RngCore::next_u64(rng)
}

/// `SliceRandom::shuffle`: reorders the items by swapping, so that each
/// item is still there as often as before; which item comes where is
/// fixed by the state of the stream and the number of items. The order has
/// one entry for each place.
#[verifier::external_body]
fn shuffle<T>(rng: &mut XorShiftRng, items: &mut Vec<T>)
    ensures
        final(items)@.len() == old(items)@.len(),
        final(items)@.to_multiset() == old(items)@.to_multiset(),
        shuffled_from(stream_words(*old(rng)), old(items)@.len()).0.len() == final(items)@.len(),
        forall|i: int|
            0 <= i < old(items)@.len() ==> {
                let from = shuffled_from(stream_words(*old(rng)), old(items)@.len()).0[i];
                0 <= from < old(items)@.len() && #[trigger] final(items)@[i] == old(items)@[from]
            },
        stream_words(*final(rng)) == shuffled_from(
            stream_words(*old(rng)),
            old(items)@.len(),
        ).1,
{
    rand::seq::SliceRandom::shuffle(items.as_mut_slice(), rng)
}

/// How much of the buffer a round uses: the number reduced to the size of
/// the buffer, but never less than the capacity of the shape, so that every
/// round gives at least one value.
pub open spec fn slice_len(number: u64, capacity: nat) -> nat {
    if (number % BUFFER_SIZE as u64) < capacity {
        capacity
    } else {
        (number % BUFFER_SIZE as u64) as nat
    }
}

/// The bytes that a round draws from where it takes what the stream picks
/// as it is: the number reduced to the size of the buffer says how many.
pub open spec fn picked_bytes(words: Seq<u32>) -> Seq<u8> {
    let filled = filled_from(words, BUFFER_SIZE as nat);
    filled.0.take((number_from(filled.1).0 % BUFFER_SIZE as u64) as int)
}

/// The bytes that the round of a stream in the state `words` draws from.
pub open spec fn round_bytes(words: Seq<u32>, capacity: nat) -> Seq<u8> {
    let filled = filled_from(words, BUFFER_SIZE as nat);
    filled.0.take(slice_len(number_from(filled.1).0, capacity) as int)
}

/// The state words of a stream behind one round.
pub open spec fn words_after_round(words: Seq<u32>) -> Seq<u32> {
    number_from(filled_from(words, BUFFER_SIZE as nat).1).1
}

/// The values of one round of a stream in the state `words`.
pub open spec fn round_values<T: Draw>(words: Seq<u32>) -> Seq<T::V> {
    drawn_all::<T>(round_bytes(words, T::capacity()))
}

/// How many of `n` values are still missing when `have` are there.
pub open spec fn missing(have: nat, n: nat) -> nat {
    if have < n {
        (n - have) as nat
    } else {
        0
    }
}

/// The first `n` values of the rounds that follow one another from the
/// state `words`, `have` standing for the values of the rounds before, and
/// the state words behind the last round that was needed. A round draws
/// from at least the capacity and so gives at least one value; the case of
/// a round without any is there for the definition to end, and no
/// generator meets it.
pub open spec fn generated<T: Draw>(words: Seq<u32>, have: Seq<T::V>, n: nat) -> (
    Seq<T::V>,
    Seq<u32>,
)
    decreases missing(have.len(), n),
{
    if have.len() >= n {
        (have.take(n as int), words)
    } else if round_values::<T>(words).len() == 0 {
        (have, words)
    } else {
        proof {
            assert((have + round_values::<T>(words)).len() > have.len());
        }
        generated::<T>(words_after_round(words), have + round_values::<T>(words), n)
    }
}

/// How the values of a trial are drawn.
#[derive(Clone, Copy, Debug, PartialEq, Eq)]
pub enum Discipline {
    /// One round on what the stream picks, and as many values as it gives.
    TakeRest,
    /// As many rounds as it takes, and exactly this many values.
    CountBounded(usize),
}

/// The values of one trial of a stream in the state `words`, and the state
/// words behind the trial.
pub open spec fn trial_from<T: Draw>(words: Seq<u32>, discipline: Discipline) -> (
    Seq<T::V>,
    Seq<u32>,
) {
    match discipline {
        Discipline::TakeRest => (drawn_all::<T>(picked_bytes(words)), words_after_round(words)),
        Discipline::CountBounded(n) => generated::<T>(words, Seq::empty(), n as nat),
    }
}

/// The items of `items` in the order `order`: at each place the item that
/// `order` names for it.
pub open spec fn reordered<T>(items: Seq<T>, order: Seq<int>) -> Seq<T> {
    Seq::new(items.len(), |i: int| items[order[i]])
}

/// The length that the slice rule of a generator picks.
fn slice_length(number: u64, capacity: usize) -> (len: usize)
    requires
        capacity <= BUFFER_SIZE,
    ensures
        len == slice_len(number, capacity as nat),
        capacity <= len <= BUFFER_SIZE,
{
    let reduced: usize = (number % (BUFFER_SIZE as u64)) as usize;
    if reduced < capacity {
        capacity
    } else {
        reduced
    }
}

/// A seeded stream with its buffer.
pub struct Generator {
    rng: XorShiftRng,
    buf: Vec<u8>,
}

impl Generator {
    /// Whether the buffer has its full size. Every generator that `new`
    /// made has, and every method keeps it so.
    pub closed spec fn wf(&self) -> bool {
        self.buf@.len() == BUFFER_SIZE
    }

    /// The state words of the stream.
    pub closed spec fn words(&self) -> Seq<u32> {
        stream_words(self.rng)
    }

    /// The generator that `seed` starts.
    pub fn new(seed: u64) -> (generator: Self)
        ensures
            generator.wf(),
            generator.words() == seeded_words(seed),
    {
        let rng = seeded_stream(seed);
        let mut buf: Vec<u8> = Vec::new();
        while buf.len() < BUFFER_SIZE
            invariant
                buf@.len() <= BUFFER_SIZE,
            decreases BUFFER_SIZE - buf@.len(),
        {
            buf.push(0);
        }
        Generator { rng, buf }
    }

    /// Runs one round: refills the buffer and draws values from the part of
    /// it that the stream picks, or from as much as one value wants if the
    /// stream picks less. There is always at least one value.
    pub fn next_round<T: Draw>(&mut self) -> (values: Vec<T>)
        requires
            old(self).wf(),
        ensures
            final(self).wf(),
            values@.map_values(|v: T| v@) == round_values::<T>(old(self).words()),
            final(self).words() == words_after_round(old(self).words()),
            1 <= values@.len() <= BUFFER_SIZE,
            forall|i: int|
                0 <= i < values@.len() ==> drawn_within::<T>(
                    (#[trigger] values@[i])@,
                    BUFFER_SIZE as nat,
                ),
    {
        proof {
            T::lemma_width(Seq::empty());
        }
        refill(&mut self.rng, &mut self.buf);
        let number = next_number(&mut self.rng);
        let len = slice_length(number, T::size_hint(0).0);
        let slice = &self.buf.as_slice()[0..len];
        assert(slice@ =~= round_bytes(old(self).words(), T::capacity()));
        let values = arbitrary_take_rest::<T>(slice);
        proof {
            T::lemma_width(slice@);
            assert(values@.map_values(|v: T| v@).len() == values@.len());
        }
        values
    }

    /// Runs one round on as much of the buffer as the stream picks, be it
    /// nothing: the values are drawn until fewer bytes are left than one
    /// value wants, and there may be none.
    pub fn next_take_rest<T: Draw>(&mut self) -> (values: Vec<T>)
        requires
            old(self).wf(),
        ensures
            final(self).wf(),
            values@.map_values(|v: T| v@) == drawn_all::<T>(picked_bytes(old(self).words())),
            final(self).words() == words_after_round(old(self).words()),
            values@.len() <= BUFFER_SIZE,
            forall|i: int|
                0 <= i < values@.len() ==> drawn_within::<T>(
                    (#[trigger] values@[i])@,
                    BUFFER_SIZE as nat,
                ),
    {
        refill(&mut self.rng, &mut self.buf);
        let number = next_number(&mut self.rng);
        let len: usize = (number % (BUFFER_SIZE as u64)) as usize;
        let slice = &self.buf.as_slice()[0..len];
        assert(slice@ =~= picked_bytes(old(self).words()));
        arbitrary_take_rest::<T>(slice)
    }

    /// Makes the values of one trial.
    pub fn next_trial<T: Draw>(&mut self, discipline: Discipline) -> (values: Vec<T>)
        requires
            old(self).wf(),
        ensures
            final(self).wf(),
            values@.map_values(|v: T| v@) == trial_from::<T>(old(self).words(), discipline).0,
            final(self).words() == trial_from::<T>(old(self).words(), discipline).1,
            discipline matches Discipline::CountBounded(n) ==> values@.len() == n,
            discipline is TakeRest ==> values@.len() <= BUFFER_SIZE,
            forall|i: int|
                0 <= i < values@.len() ==> drawn_within::<T>(
                    (#[trigger] values@[i])@,
                    BUFFER_SIZE as nat,
                ),
    {
        match discipline {
            Discipline::TakeRest => self.next_take_rest::<T>(),
            Discipline::CountBounded(n) => self.generate_n_elements::<T>(n),
        }
    }

    /// Refills the buffer without drawing from it, which moves the stream
    /// on by one buffer.
    pub fn refill(&mut self)
        requires
            old(self).wf(),
        ensures
            final(self).wf(),
            final(self).words() == filled_from(old(self).words(), BUFFER_SIZE as nat).1,
    {
        refill(&mut self.rng, &mut self.buf);
    }

    /// Runs one round for a single value: the first that the round gives.
    pub fn next_value<T: Draw>(&mut self) -> (value: T)
        requires
            old(self).wf(),
        ensures
            final(self).wf(),
            value@ == T::drawn(round_bytes(old(self).words(), T::capacity())),
            final(self).words() == words_after_round(old(self).words()),
            drawn_within::<T>(value@, BUFFER_SIZE as nat),
    {
        proof {
            T::lemma_width(Seq::empty());
        }
        refill(&mut self.rng, &mut self.buf);
        let number = next_number(&mut self.rng);
        let len = slice_length(number, T::size_hint(0).0);
        let slice = &self.buf.as_slice()[0..len];
        assert(slice@ =~= round_bytes(old(self).words(), T::capacity()));
        let mut u = open_cursor(slice);
        let value = try_draw::<T>(&mut u).unwrap();
        assert(T::drawn(slice@) == value@ && slice@.len() <= BUFFER_SIZE);
        value
    }

    /// Reorders the items as the stream says.
    pub fn shuffle<T>(&mut self, items: &mut Vec<T>)
        requires
            old(self).wf(),
        ensures
            final(self).wf(),
            final(items)@.len() == old(items)@.len(),
            final(items)@.to_multiset() == old(items)@.to_multiset(),
            final(items)@ == reordered(
                old(items)@,
                shuffled_from(old(self).words(), old(items)@.len()).0,
            ),
            shuffled_from(old(self).words(), old(items)@.len()).0.len() == old(items)@.len(),
            forall|i: int|
                0 <= i < old(items)@.len() ==> 0 <= (#[trigger] shuffled_from(
                    old(self).words(),
                    old(items)@.len(),
                ).0[i]) < old(items)@.len(),
            final(self).words() == shuffled_from(old(self).words(), old(items)@.len()).1,
    {
        shuffle(&mut self.rng, items);
        assert forall|i: int| 0 <= i < old(items)@.len() implies 0 <= (#[trigger] shuffled_from(
            old(self).words(),
            old(items)@.len(),
        ).0[i]) < old(items)@.len() by {
            let from = shuffled_from(old(self).words(), old(items)@.len()).0[i];
            assert(items@[i] == old(items)@[from]);
        }
        assert(items@ =~= reordered(
            old(items)@,
            shuffled_from(old(self).words(), old(items)@.len()).0,
        ));
    }

    /// Runs rounds until `n` values are there, and gives exactly the first
    /// `n` of them.
    pub fn generate_n_elements<T: Draw>(&mut self, n: usize) -> (values: Vec<T>)
        requires
            old(self).wf(),
        ensures
            final(self).wf(),
            values@.len() == n,
            values@.map_values(|v: T| v@) == generated::<T>(
                old(self).words(),
                Seq::empty(),
                n as nat,
            ).0,
            final(self).words() == generated::<T>(old(self).words(), Seq::empty(), n as nat).1,
            forall|i: int|
                0 <= i < values@.len() ==> drawn_within::<T>(
                    (#[trigger] values@[i])@,
                    BUFFER_SIZE as nat,
                ),
    {
        let mut values: Vec<T> = Vec::new();
        assert(values@.map_values(|v: T| v@) =~= Seq::<T::V>::empty());
        while values.len() < n
            invariant
                self.wf(),
                generated::<T>(old(self).words(), Seq::empty(), n as nat) == generated::<T>(
                    self.words(),
                    values@.map_values(|v: T| v@),
                    n as nat,
                ),
                forall|i: int|
                    0 <= i < values@.len() ==> drawn_within::<T>(
                        (#[trigger] values@[i])@,
                        BUFFER_SIZE as nat,
                    ),
            decreases missing(values@.len(), n as nat),
        {
            let ghost had = values@.map_values(|v: T| v@);
            let ghost before = values@;
            let mut round = self.next_round::<T>();
            let ghost got = round@.map_values(|v: T| v@);
            let ghost added = round@;
            assert(got.len() == added.len());
            values.append(&mut round);
            assert(values@ == before + added);
            assert(values@.len() == before.len() + added.len());
            assert(values@.map_values(|v: T| v@) =~= had + got);
        }
        let ghost all = values@.map_values(|v: T| v@);
        assert(all.len() == values@.len());
        values.truncate(n);
        assert(values@.map_values(|v: T| v@) =~= all.take(n as int));
        values
    }
}

} // verus!
