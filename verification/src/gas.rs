//! The resource cost of a comparison.
//!
//! Each trial returns one cost for the candidate and one for the baseline.
//! An accumulator keeps the two sums. A sum never shrinks, and it does not
//! depend on the order in which the trials came.

use vstd::multiset::Multiset;
use vstd::prelude::*;

verus! {

/// The sum of the costs.
pub open spec fn total(costs: Seq<u64>) -> nat
    decreases costs.len(),
{
    if costs.len() == 0 {
        0
    } else {
        total(costs.drop_last()) + costs.last() as nat
    }
}

/// The costs of the candidate over the trials.
pub open spec fn candidate_costs(trials: Seq<(u64, u64)>) -> Seq<u64> {
    trials.map_values(|trial: (u64, u64)| trial.0)
}

/// The costs of the baseline over the trials.
pub open spec fn baseline_costs(trials: Seq<(u64, u64)>) -> Seq<u64> {
    trials.map_values(|trial: (u64, u64)| trial.1)
}

/// Why a cost was not added.
#[derive(Clone, Copy, Debug, PartialEq, Eq)]
pub enum GasError {
    /// A sum would not fit 64 bits.
    Overflow,
}

/// The two running sums of a comparison.
pub struct GasAccumulator {
    candidate: u64,
    baseline: u64,
    trials: Ghost<Seq<(u64, u64)>>,
}

impl View for GasAccumulator {
    type V = Seq<(u64, u64)>;

    /// The trials that were recorded, in order: for each the cost of the
    /// candidate and the cost of the baseline.
    closed spec fn view(&self) -> Seq<(u64, u64)> {
        self.trials@
    }
}

impl GasAccumulator {
    /// Whether the sums are those of the recorded trials.
    pub closed spec fn wf(&self) -> bool {
        &&& self.candidate == total(candidate_costs(self.trials@))
        &&& self.baseline == total(baseline_costs(self.trials@))
    }

    /// An accumulator with no trial recorded.
    pub fn new() -> (acc: Self)
        ensures
            acc.wf(),
            acc@ == Seq::<(u64, u64)>::empty(),
    {
        GasAccumulator { candidate: 0, baseline: 0, trials: Ghost(Seq::empty()) }
    }

    /// Whether one more trial with these costs leaves both sums within 64
    /// bits.
    pub open spec fn has_room(&self, candidate: u64, baseline: u64) -> bool {
        &&& total(candidate_costs(self@)) + candidate <= u64::MAX
        &&& total(baseline_costs(self@)) + baseline <= u64::MAX
    }

    /// Adds the costs of one trial. It fails exactly if one of the sums
    /// would not fit 64 bits, and then changes nothing.
    pub fn record(&mut self, candidate: u64, baseline: u64) -> (r: Result<(), GasError>)
        requires
            old(self).wf(),
        ensures
            final(self).wf(),
            old(self).has_room(candidate, baseline) ==> r is Ok && final(self)@ == old(self)@.push(
                (candidate, baseline),
            ),
            !old(self).has_room(candidate, baseline) ==> r == Err::<(), GasError>(
                GasError::Overflow,
            ) && final(self)@ == old(self)@,
            total(candidate_costs(old(self)@)) <= total(candidate_costs(final(self)@)),
            total(baseline_costs(old(self)@)) <= total(baseline_costs(final(self)@)),
    {
        if candidate > u64::MAX - self.candidate || baseline > u64::MAX - self.baseline {
            return Err(GasError::Overflow);
        }
        proof {
            let after = self.trials@.push((candidate, baseline));
            assert(candidate_costs(after).drop_last() =~= candidate_costs(self.trials@));
            assert(baseline_costs(after).drop_last() =~= baseline_costs(self.trials@));
        }
        self.candidate = self.candidate + candidate;
        self.baseline = self.baseline + baseline;
        self.trials = Ghost(self.trials@.push((candidate, baseline)));
        Ok(())
    }

    /// The sum of the candidate's costs and the sum of the baseline's.
    pub fn totals(&self) -> (sums: (u64, u64))
        requires
            self.wf(),
        ensures
            sums.0 == total(candidate_costs(self@)),
            sums.1 == total(baseline_costs(self@)),
    {
        (self.candidate, self.baseline)
    }
}

/// Sums the costs of the trials. It gives the two sums exactly if both fit
/// 64 bits.
pub fn accumulate(trials: &Vec<(u64, u64)>) -> (r: Result<(u64, u64), GasError>)
    ensures
        total(candidate_costs(trials@)) <= u64::MAX && total(baseline_costs(trials@)) <= u64::MAX
            ==> r == Ok::<(u64, u64), GasError>(
            (total(candidate_costs(trials@)) as u64, total(baseline_costs(trials@)) as u64),
        ),
        total(candidate_costs(trials@)) > u64::MAX || total(baseline_costs(trials@)) > u64::MAX
            ==> r == Err::<(u64, u64), GasError>(GasError::Overflow),
{
    let mut acc = GasAccumulator::new();
    let mut i: usize = 0;
    assert(trials@.take(0) =~= Seq::<(u64, u64)>::empty());
    while i < trials.len()
        invariant
            i <= trials@.len(),
            acc.wf(),
            acc@ == trials@.take(i as int),
        decreases trials@.len() - i,
    {
        let (candidate, baseline) = trials[i];
        assert(trials@.take(i + 1) =~= trials@.take(i as int).push(trials@[i as int]));
        match acc.record(candidate, baseline) {
            Ok(()) => {},
            Err(e) => {
                proof {
                    lemma_total_grows(candidate_costs(trials@), i + 1);
                    lemma_total_grows(baseline_costs(trials@), i + 1);
                    assert(candidate_costs(trials@).take(i + 1) =~= candidate_costs(
                        trials@.take(i + 1),
                    ));
                    assert(baseline_costs(trials@).take(i + 1) =~= baseline_costs(
                        trials@.take(i + 1),
                    ));
                    assert(candidate_costs(trials@.take(i + 1)).drop_last() =~= candidate_costs(
                        trials@.take(i as int),
                    ));
                    assert(baseline_costs(trials@.take(i + 1)).drop_last() =~= baseline_costs(
                        trials@.take(i as int),
                    ));
                }
                return Err(e);
            },
        }
        i += 1;
    }
    assert(trials@.take(trials@.len() as int) =~= trials@);
    Ok(acc.totals())
}

/// What a comparison of two sums comes to.
#[derive(Clone, Copy, Debug, PartialEq, Eq)]
pub enum Verdict {
    /// The sums are as they should be.
    Accepted,
    /// The sums are not as they should be; here they are.
    Mismatch { candidate: u64, baseline: u64 },
}

/// The distance between two sums.
pub open spec fn distance(candidate: u64, baseline: u64) -> nat {
    if candidate <= baseline {
        (baseline - candidate) as nat
    } else {
        (candidate - baseline) as nat
    }
}

/// Holds the sums against the pair that was recorded for them: they are
/// accepted exactly if both are equal to it.
pub fn check_pinned(sums: (u64, u64), expected: (u64, u64)) -> (verdict: Verdict)
    ensures
        sums == expected ==> verdict == Verdict::Accepted,
        sums != expected ==> verdict == (Verdict::Mismatch { candidate: sums.0, baseline: sums.1 }),
{
    if sums.0 == expected.0 && sums.1 == expected.1 {
        Verdict::Accepted
    } else {
        Verdict::Mismatch { candidate: sums.0, baseline: sums.1 }
    }
}

/// Holds the two sums against each other: they are accepted exactly if
/// they are no further apart than `delta`.
pub fn check_within(sums: (u64, u64), delta: u64) -> (verdict: Verdict)
    ensures
        distance(sums.0, sums.1) <= delta ==> verdict == Verdict::Accepted,
        distance(sums.0, sums.1) > delta ==> verdict == (Verdict::Mismatch {
            candidate: sums.0,
            baseline: sums.1,
        }),
{
    let apart: u64 = if sums.0 <= sums.1 {
        sums.1 - sums.0
    } else {
        sums.0 - sums.1
    };
    if apart <= delta {
        Verdict::Accepted
    } else {
        Verdict::Mismatch { candidate: sums.0, baseline: sums.1 }
    }
}

/// A sum never shrinks: the sum of the first `i` costs is at most the sum
/// of all of them.
pub proof fn lemma_total_grows(costs: Seq<u64>, i: int)
    requires
        0 <= i <= costs.len(),
    ensures
        total(costs.take(i)) <= total(costs),
    decreases costs.len(),
{
    if i == costs.len() {
        assert(costs.take(i) =~= costs);
    } else {
        lemma_total_grows(costs.drop_last(), i);
        assert(costs.drop_last().take(i) =~= costs.take(i));
    }
}

/// With one more cost the sum is the sum before and that cost.
pub proof fn lemma_total_push(costs: Seq<u64>, cost: u64)
    ensures
        total(costs.push(cost)) == total(costs) + cost,
{
    assert(costs.push(cost).drop_last() =~= costs);
}

/// Taking one cost out takes that cost off the sum.
pub proof fn lemma_total_remove(costs: Seq<u64>, i: int)
    requires
        0 <= i < costs.len(),
    ensures
        total(costs) == total(costs.remove(i)) + costs[i],
    decreases costs.len(),
{
    if i == costs.len() - 1 {
        assert(costs.remove(i) =~= costs.drop_last());
    } else {
        lemma_total_remove(costs.drop_last(), i);
        assert(costs.remove(i).drop_last() =~= costs.drop_last().remove(i));
        assert(costs.remove(i).last() == costs.last());
    }
}

/// The order of the costs does not matter: two lists with the same costs,
/// each as often in the one as in the other, have the same sum.
pub proof fn lemma_total_any_order(a: Seq<u64>, b: Seq<u64>)
    requires
        a.to_multiset() == b.to_multiset(),
    ensures
        total(a) == total(b),
    decreases a.len(),
{
    broadcast use vstd::seq_lib::group_to_multiset_ensures;

    a.to_multiset_ensures();
    b.to_multiset_ensures();
    if a.len() == 0 {
        assert(b.len() == 0);
    } else {
        let last = a.last();
        assert(a.to_multiset().count(last) > 0);
        assert(b.contains(last));
        let i = choose|i: int| 0 <= i < b.len() && b[i] == last;
        let shorter = b.remove(i);
        assert(a.drop_last() =~= a.remove(a.len() - 1));
        assert(a.drop_last().to_multiset() =~= a.to_multiset().remove(last));
        assert(shorter.to_multiset() =~= b.to_multiset().remove(last));
        lemma_total_any_order(a.drop_last(), shorter);
        lemma_total_remove(b, i);
    }
}

} // verus!
