//! The course of a comparison.
//!
//! A comparison deploys two instances, the candidate and the baseline, and
//! then submits the same trial to both, a fixed number of times. The two
//! instances move together through four phases:
//!
//! ```text
//! Uninitialized -> Deployed -> Active -> ... -> Active -> Terminated
//! ```
//!
//! What is done to the instances is done elsewhere. A runner is told what
//! came of it and answers what to do next. A deployment or a submission that
//! fails ends the comparison at once: there is no partial result.

use crate::gas::{baseline_costs, candidate_costs, total, GasAccumulator, GasError};
use vstd::prelude::*;

verus! {

/// The number of trials of a comparison where nothing else is asked for.
pub const DEFAULT_TRIALS: usize = 24;

/// Where the two instances are.
#[derive(Clone, Copy, Debug, PartialEq, Eq)]
pub enum Phase {
    /// Nothing is deployed yet.
    Uninitialized,
    /// Both instances are deployed and no trial was submitted.
    Deployed,
    /// At least one trial was submitted to both instances.
    Active,
    /// The comparison is over, with a result or without.
    Terminated,
}

/// What came of the last thing that was done.
#[derive(Clone, Copy, Debug, PartialEq, Eq)]
pub enum Event {
    /// The deployments were tried; each flag says whether one succeeded.
    Deployed { candidate_up: bool, baseline_up: bool },
    /// Both submissions of a trial came back, each with its cost or, where
    /// it failed, with none.
    Submitted { candidate: Option<u64>, baseline: Option<u64> },
}

/// Why a comparison ended without a result.
#[derive(Clone, Copy, Debug, PartialEq, Eq)]
pub enum Failure {
    /// An instance could not be deployed.
    Deployment,
    /// A submission failed.
    Submission,
    /// A sum of costs does not fit 64 bits.
    CostOverflow,
    /// The event does not belong to the phase.
    OutOfTurn,
    /// A trial is too long to be written.
    Encoding,
}

/// What to do next.
#[derive(Clone, Copy, Debug, PartialEq, Eq)]
pub enum Directive {
    /// Make the next trial and submit it to both instances.
    Submit,
    /// The comparison is done: the sum of the candidate's costs and the sum
    /// of the baseline's.
    Finish(u64, u64),
    /// The comparison is over without a result.
    Abort(Failure),
}

/// What a runner holds.
pub struct RunnerModel {
    pub phase: Phase,
    pub trial_count: nat,
    pub costs: Seq<(u64, u64)>,
}

/// Whether the sums of the costs, with one more trial, fit 64 bits.
pub open spec fn costs_fit(costs: Seq<(u64, u64)>, candidate: u64, baseline: u64) -> bool {
    &&& total(candidate_costs(costs)) + candidate <= u64::MAX
    &&& total(baseline_costs(costs)) + baseline <= u64::MAX
}

/// The runner in the phase `Terminated`, with the costs it has.
pub open spec fn ended(s: RunnerModel) -> RunnerModel {
    RunnerModel { phase: Phase::Terminated, trial_count: s.trial_count, costs: s.costs }
}

/// The step of a comparison: the runner behind the event, and what to do
/// next.
pub open spec fn next(s: RunnerModel, event: Event) -> (RunnerModel, Directive) {
    match (s.phase, event) {
        (Phase::Uninitialized, Event::Deployed { candidate_up, baseline_up }) => {
            if !candidate_up || !baseline_up {
                (ended(s), Directive::Abort(Failure::Deployment))
            } else if s.trial_count == 0 {
                (ended(s), Directive::Finish(0, 0))
            } else {
                (
                    RunnerModel {
                        phase: Phase::Deployed,
                        trial_count: s.trial_count,
                        costs: s.costs,
                    },
                    Directive::Submit,
                )
            }
        },
        (Phase::Deployed, Event::Submitted { candidate, baseline }) | (
            Phase::Active,
            Event::Submitted { candidate, baseline },
        ) => {
            match (candidate, baseline) {
                (Some(c), Some(b)) => {
                    if !costs_fit(s.costs, c, b) {
                        (ended(s), Directive::Abort(Failure::CostOverflow))
                    } else if s.costs.len() + 1 >= s.trial_count {
                        (
                            RunnerModel {
                                phase: Phase::Terminated,
                                trial_count: s.trial_count,
                                costs: s.costs.push((c, b)),
                            },
                            Directive::Finish(
                                (total(candidate_costs(s.costs)) + c) as u64,
                                (total(baseline_costs(s.costs)) + b) as u64,
                            ),
                        )
                    } else {
                        (
                            RunnerModel {
                                phase: Phase::Active,
                                trial_count: s.trial_count,
                                costs: s.costs.push((c, b)),
                            },
                            Directive::Submit,
                        )
                    }
                },
                _ => (ended(s), Directive::Abort(Failure::Submission)),
            }
        },
        _ => (ended(s), Directive::Abort(Failure::OutOfTurn)),
    }
}

/// The place of a phase in the course of a comparison.
pub open spec fn rank(phase: Phase) -> nat {
    match phase {
        Phase::Uninitialized => 0,
        Phase::Deployed => 1,
        Phase::Active => 2,
        Phase::Terminated => 3,
    }
}

/// The bookkeeping of one comparison.
pub struct Runner {
    phase: Phase,
    trial_count: usize,
    done: usize,
    gas: GasAccumulator,
}

impl View for Runner {
    type V = RunnerModel;

    closed spec fn view(&self) -> RunnerModel {
        RunnerModel { phase: self.phase, trial_count: self.trial_count as nat, costs: self.gas@ }
    }
}

impl Runner {
    /// Whether the runner counts what it has recorded: as long as the
    /// comparison runs, fewer trials than it is to make.
    pub closed spec fn wf(&self) -> bool {
        &&& self.gas.wf()
        &&& self.done == self.gas@.len()
        &&& self.phase != Phase::Terminated ==> self.done < self.trial_count || (self.done == 0
            && self.phase == Phase::Uninitialized)
    }

    /// A runner for a comparison of `trial_count` trials, with nothing
    /// deployed.
    pub fn new(trial_count: usize) -> (runner: Self)
        ensures
            runner.wf(),
            runner@ == (RunnerModel {
                phase: Phase::Uninitialized,
                trial_count: trial_count as nat,
                costs: Seq::empty(),
            }),
    {
        Runner { phase: Phase::Uninitialized, trial_count, done: 0, gas: GasAccumulator::new() }
    }

    /// The phase of the two instances.
    pub fn phase(&self) -> (phase: Phase)
        ensures
            phase == self@.phase,
    {
        self.phase
    }

    /// The number of trials whose costs are recorded.
    pub fn trials_done(&self) -> (done: usize)
        requires
            self.wf(),
        ensures
            done == self@.costs.len(),
    {
        self.done
    }

    /// Ends the comparison without a result, where it has not ended yet.
    pub fn abandon(&mut self)
        requires
            old(self).wf(),
        ensures
            final(self).wf(),
            final(self)@ == ended(old(self)@),
    {
        self.phase = Phase::Terminated;
    }

    /// Takes in what came of the last thing that was done, and answers
    /// what to do next.
    pub fn step(&mut self, event: Event) -> (directive: Directive)
        requires
            old(self).wf(),
        ensures
            final(self).wf(),
            (final(self)@, directive) == next(old(self)@, event),
    {
        match (self.phase, event) {
            (Phase::Uninitialized, Event::Deployed { candidate_up, baseline_up }) => {
                if !candidate_up || !baseline_up {
                    self.phase = Phase::Terminated;
                    Directive::Abort(Failure::Deployment)
                } else if self.trial_count == 0 {
                    self.phase = Phase::Terminated;
                    Directive::Finish(0, 0)
                } else {
                    self.phase = Phase::Deployed;
                    Directive::Submit
                }
            },
            (Phase::Deployed, Event::Submitted { candidate: Some(c), baseline: Some(b) }) | (
                Phase::Active,
                Event::Submitted { candidate: Some(c), baseline: Some(b) },
            ) => {
                match self.gas.record(c, b) {
                    Err(GasError::Overflow) => {
                        self.phase = Phase::Terminated;
                        Directive::Abort(Failure::CostOverflow)
                    },
                    Ok(()) => {
                        self.done = self.done + 1;
                        if self.done >= self.trial_count {
                            self.phase = Phase::Terminated;
                            let (candidate_total, baseline_total) = self.gas.totals();
                            proof {
                                crate::gas::lemma_total_push(
                                    candidate_costs(old(self)@.costs),
                                    c,
                                );
                                crate::gas::lemma_total_push(baseline_costs(old(self)@.costs), b);
                                assert(candidate_costs(self.gas@) =~= candidate_costs(
                                    old(self)@.costs,
                                ).push(c));
                                assert(baseline_costs(self.gas@) =~= baseline_costs(
                                    old(self)@.costs,
                                ).push(b));
                            }
                            Directive::Finish(candidate_total, baseline_total)
                        } else {
                            self.phase = Phase::Active;
                            Directive::Submit
                        }
                    },
                }
            },
            (Phase::Deployed, Event::Submitted { .. }) | (
                Phase::Active,
                Event::Submitted { .. },
            ) => {
                self.phase = Phase::Terminated;
                Directive::Abort(Failure::Submission)
            },
            _ => {
                self.phase = Phase::Terminated;
                Directive::Abort(Failure::OutOfTurn)
            },
        }
    }
}

/// A comparison only moves forward: no step leads to an earlier phase, and
/// none leads back to `Uninitialized`.
pub proof fn lemma_phases_move_forward(s: RunnerModel, event: Event)
    ensures
        rank(s.phase) <= rank(next(s, event).0.phase),
        next(s, event).0.phase != Phase::Uninitialized,
{
}

/// A step keeps the costs that are recorded and adds at most the costs of
/// one trial, so that neither sum ever shrinks.
pub proof fn lemma_costs_only_grow(s: RunnerModel, event: Event)
    ensures
        next(s, event).0.costs == s.costs || (exists|cost: (u64, u64)|
            next(s, event).0.costs == s.costs.push(cost)),
        total(candidate_costs(s.costs)) <= total(candidate_costs(next(s, event).0.costs)),
        total(baseline_costs(s.costs)) <= total(baseline_costs(next(s, event).0.costs)),
{
    let after = next(s, event).0.costs;
    if after != s.costs {
        let cost = after.last();
        assert(after == s.costs.push(cost));
        assert(candidate_costs(after) =~= candidate_costs(s.costs).push(cost.0));
        assert(baseline_costs(after) =~= baseline_costs(s.costs).push(cost.1));
        crate::gas::lemma_total_push(candidate_costs(s.costs), cost.0);
        crate::gas::lemma_total_push(baseline_costs(s.costs), cost.1);
    }
}

/// A comparison that ends with a result has recorded as many trials as it
/// was to make, and its result is the two sums of their costs.
pub proof fn lemma_result_is_the_sums(s: RunnerModel, event: Event)
    requires
        s.costs.len() < s.trial_count || (s.costs.len() == 0 && s.phase == Phase::Uninitialized),
        next(s, event).1 is Finish,
    ensures
        next(s, event).0.costs.len() == s.trial_count,
        next(s, event).1 == Directive::Finish(
            total(candidate_costs(next(s, event).0.costs)) as u64,
            total(baseline_costs(next(s, event).0.costs)) as u64,
        ),
{
    let after = next(s, event).0.costs;
    if after != s.costs {
        let cost = after.last();
        assert(after == s.costs.push(cost));
        assert(candidate_costs(after) =~= candidate_costs(s.costs).push(cost.0));
        assert(baseline_costs(after) =~= baseline_costs(s.costs).push(cost.1));
        crate::gas::lemma_total_push(candidate_costs(s.costs), cost.0);
        crate::gas::lemma_total_push(baseline_costs(s.costs), cost.1);
    } else {
        assert(s.phase == Phase::Uninitialized);
        assert(candidate_costs(s.costs) =~= Seq::<u64>::empty());
        assert(baseline_costs(s.costs) =~= Seq::<u64>::empty());
    }
}

/// The event that both submissions of a trial came back with these costs.
pub open spec fn both_cost(cost: (u64, u64)) -> Event {
    Event::Submitted { candidate: Some(cost.0), baseline: Some(cost.1) }
}

/// The runner behind the trials with these costs, one after the other.
pub open spec fn after_trials(s: RunnerModel, costs: Seq<(u64, u64)>) -> RunnerModel
    decreases costs.len(),
{
    if costs.len() == 0 {
        s
    } else {
        next(after_trials(s, costs.drop_last()), both_cost(costs.last())).0
    }
}

/// The runner of a comparison of `trial_count` trials once both instances
/// are deployed.
pub open spec fn deployed_runner(trial_count: nat) -> RunnerModel {
    RunnerModel { phase: Phase::Deployed, trial_count, costs: Seq::empty() }
}

/// As long as trials are due and the sums fit, a runner records the costs
/// that come back and asks for the next trial.
pub proof fn lemma_trials_are_recorded(trial_count: nat, costs: Seq<(u64, u64)>)
    requires
        costs.len() < trial_count,
        total(candidate_costs(costs)) <= u64::MAX,
        total(baseline_costs(costs)) <= u64::MAX,
    ensures
        after_trials(deployed_runner(trial_count), costs) == (RunnerModel {
            phase: if costs.len() == 0 {
                Phase::Deployed
            } else {
                Phase::Active
            },
            trial_count,
            costs,
        }),
        costs.len() > 0 ==> next(
            after_trials(deployed_runner(trial_count), costs.drop_last()),
            both_cost(costs.last()),
        ).1 == Directive::Submit,
    decreases costs.len(),
{
    if costs.len() > 0 {
        let before = costs.drop_last();
        assert(candidate_costs(costs).drop_last() =~= candidate_costs(before));
        assert(baseline_costs(costs).drop_last() =~= baseline_costs(before));
        lemma_trials_are_recorded(trial_count, before);
        assert(before.push(costs.last()) =~= costs);
    } else {
        assert(costs =~= Seq::<(u64, u64)>::empty());
    }
}

/// A whole comparison: both instances are deployed, and each of the
/// trials comes back from both with a cost. Then the first event asks for a
/// trial, and the last one ends the comparison with the two sums of the
/// costs and with every cost recorded. The result is fixed by the costs
/// that the instances return: the same costs give the same pair.
pub proof fn lemma_whole_comparison(trial_count: nat, costs: Seq<(u64, u64)>)
    requires
        trial_count > 0,
        costs.len() == trial_count,
        total(candidate_costs(costs)) <= u64::MAX,
        total(baseline_costs(costs)) <= u64::MAX,
    ensures
        next(
            RunnerModel { phase: Phase::Uninitialized, trial_count, costs: Seq::empty() },
            Event::Deployed { candidate_up: true, baseline_up: true },
        ) == (deployed_runner(trial_count), Directive::Submit),
        next(
            after_trials(deployed_runner(trial_count), costs.drop_last()),
            both_cost(costs.last()),
        ) == (
            RunnerModel { phase: Phase::Terminated, trial_count, costs },
            Directive::Finish(
                total(candidate_costs(costs)) as u64,
                total(baseline_costs(costs)) as u64,
            ),
        ),
{
    let before = costs.drop_last();
    assert(candidate_costs(costs).drop_last() =~= candidate_costs(before));
    assert(baseline_costs(costs).drop_last() =~= baseline_costs(before));
    lemma_trials_are_recorded(trial_count, before);
    assert(before.push(costs.last()) =~= costs);
}

/// Once a comparison is over, every further event is out of turn.
pub proof fn lemma_terminated_stays(s: RunnerModel, event: Event)
    requires
        s.phase == Phase::Terminated,
    ensures
        next(s, event) == (s, Directive::Abort(Failure::OutOfTurn)),
{
}

} // verus!
