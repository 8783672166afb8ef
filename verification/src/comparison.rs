//! A comparison from its seed to its result.
//!
//! A comparison owns the runner that keeps its books and the generator that
//! makes its trials. It is told what came of the deployments and of each
//! pair of submissions, and answers with the bytes of the next trial, which
//! go to both instances alike, with the result, or with the reason why
//! there is none.

use crate::generator::{seeded_words, trial_from, Discipline, Generator, BUFFER_SIZE};
use crate::payload::{lemma_drawn_within_is_writable, Payload};
use crate::runner::{ended, next, Directive, Event, Failure, Phase, Runner, RunnerModel};
use crate::wire::{try_to_vec, wire_list};
use vstd::prelude::*;

verus! {

/// What to do next.
#[derive(Clone, Debug, PartialEq, Eq)]
pub enum Order {
    /// Submit these bytes, one trial, to both instances.
    Submit(Vec<u8>),
    /// The comparison is done: the sum of the candidate's costs and the sum
    /// of the baseline's.
    Finish(u64, u64),
    /// The comparison is over without a result.
    Abort(Failure),
}

/// Whether the length of a trial under the discipline can be written: a
/// count must fit 32 bits, and what one round gives always does.
pub open spec fn fits_the_wire(discipline: Discipline) -> bool {
    match discipline {
        Discipline::TakeRest => true,
        Discipline::CountBounded(n) => n <= u32::MAX,
    }
}

/// What a comparison holds.
pub struct ComparisonModel {
    pub run: RunnerModel,
    pub words: Seq<u32>,
    pub discipline: Discipline,
}

/// A comparison of a candidate and a baseline on the trials of one seed.
pub struct Comparison {
    runner: Runner,
    generator: Generator,
    discipline: Discipline,
}

impl View for Comparison {
    type V = ComparisonModel;

    closed spec fn view(&self) -> ComparisonModel {
        ComparisonModel {
            run: self.runner@,
            words: self.generator.words(),
            discipline: self.discipline,
        }
    }
}

impl Comparison {
    /// Whether the runner and the generator are in order. Every comparison
    /// that `new` made is, and every method keeps it so.
    pub closed spec fn wf(&self) -> bool {
        self.runner.wf() && self.generator.wf()
    }

    /// A comparison of `trial_count` trials drawn from the stream that
    /// `seed` starts, with nothing deployed.
    pub fn new(seed: u64, trial_count: usize, discipline: Discipline) -> (comparison: Self)
        ensures
            comparison.wf(),
            comparison@ == (ComparisonModel {
                run: RunnerModel {
                    phase: Phase::Uninitialized,
                    trial_count: trial_count as nat,
                    costs: Seq::empty(),
                },
                words: seeded_words(seed),
                discipline,
            }),
    {
        Comparison {
            runner: Runner::new(trial_count),
            generator: Generator::new(seed),
            discipline,
        }
    }

    /// Takes in what came of the last thing that was done, and answers
    /// what to do next. Where a trial is due, it is drawn and written. A
    /// trial can be written unless it is to have more values than a 32-bit
    /// length can count, which ends the comparison.
    pub fn step<T: Payload>(&mut self, event: Event) -> (order: Order)
        requires
            old(self).wf(),
        ensures
            final(self).wf(),
            final(self)@.discipline == old(self)@.discipline,
            match next(old(self)@.run, event).1 {
                Directive::Finish(candidate, baseline) => {
                    &&& order == Order::Finish(candidate, baseline)
                    &&& final(self)@.run == next(old(self)@.run, event).0
                    &&& final(self)@.words == old(self)@.words
                },
                Directive::Abort(failure) => {
                    &&& order == Order::Abort(failure)
                    &&& final(self)@.run == next(old(self)@.run, event).0
                    &&& final(self)@.words == old(self)@.words
                },
                Directive::Submit => {
                    let trial = trial_from::<T>(old(self)@.words, old(self)@.discipline);
                    &&& final(self)@.words == trial.1
                    &&& fits_the_wire(old(self)@.discipline) ==> {
                        &&& order matches Order::Submit(bytes) && bytes@ == wire_list::<T>(trial.0)
                        &&& final(self)@.run == next(old(self)@.run, event).0
                    }
                    &&& !fits_the_wire(old(self)@.discipline) ==> {
                        &&& order == Order::Abort(Failure::Encoding)
                        &&& final(self)@.run == ended(next(old(self)@.run, event).0)
                    }
                },
            },
    {
        match self.runner.step(event) {
            Directive::Finish(candidate, baseline) => Order::Finish(candidate, baseline),
            Directive::Abort(failure) => Order::Abort(failure),
            Directive::Submit => {
                let trial = self.generator.next_trial::<T>(self.discipline);
                proof {
                    let views = trial@.map_values(|v: T| v@);
                    assert forall|i: int| 0 <= i < views.len() implies T::writable(
                        #[trigger] views[i],
                    ) by {
                        lemma_drawn_within_is_writable::<T>(trial@[i]@, BUFFER_SIZE as nat);
                    }
                }
                match try_to_vec(&trial) {
                    Ok(bytes) => Order::Submit(bytes),
                    Err(_) => {
                        self.runner.abandon();
                        Order::Abort(Failure::Encoding)
                    },
                }
            },
        }
    }
}

} // verus!
