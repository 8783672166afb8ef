//! Weighted choice of an action's kind.
//!
//! A 32-bit draw is scaled to a percentage from 0 to 99. A weight table is a
//! list of cut points: the kind with index `i` is chosen by the percentages
//! above cut point `i - 1` and up to cut point `i`, and the percentages above
//! the last cut point choose the kind that follows the table.

use vstd::prelude::*;

verus! {

/// The percentage that a 32-bit draw stands for.
pub open spec fn percent_of(draw: u32) -> nat {
    (draw as nat * 100) / 0x1_0000_0000
}

/// The index of the first cut point that `percent` does not exceed, or the
/// number of cut points if it exceeds them all.
pub open spec fn bucket_of(cuts: Seq<u64>, percent: u64) -> nat
    decreases cuts.len(),
{
    if cuts.len() == 0 || percent <= cuts[0] {
        0
    } else {
        1 + bucket_of(cuts.skip(1), percent)
    }
}

/// Scales a 32-bit draw to a percentage.
pub fn percent(draw: u32) -> (p: u64)
    ensures
        p == percent_of(draw),
        p < 100,
{
    let wide: u64 = draw as u64;
    let scaled: u64 = wide * 100;
    assert(scaled >> 32 == scaled / 0x1_0000_0000) by (bit_vector);
    scaled >> 32
}

/// What `bucket_of` picks: every cut point before it is exceeded, and the
/// one at it, if there is one, is not.
pub proof fn lemma_bucket(cuts: Seq<u64>, percent: u64)
    ensures
        bucket_of(cuts, percent) <= cuts.len(),
        forall|j: int| 0 <= j < bucket_of(cuts, percent) ==> cuts[j] < percent,
        bucket_of(cuts, percent) < cuts.len() ==> percent <= cuts[bucket_of(cuts, percent) as int],
    decreases cuts.len(),
{
    if cuts.len() != 0 && percent > cuts[0] {
        let rest = cuts.skip(1);
        lemma_bucket(rest, percent);
        assert forall|j: int| 0 <= j < bucket_of(cuts, percent) implies cuts[j] < percent by {
            if j > 0 {
                assert(cuts[j] == rest[j - 1]);
            }
        }
    }
}

/// Finds the bucket of `percent` in the table `cuts`.
pub fn bucket(cuts: &[u64], percent: u64) -> (index: usize)
    ensures
        index == bucket_of(cuts@, percent),
        index <= cuts@.len(),
        forall|j: int| 0 <= j < index ==> cuts@[j] < percent,
        index < cuts@.len() ==> percent <= cuts@[index as int],
{
    let mut index: usize = 0;
    assert(cuts@.skip(0) =~= cuts@);
    while index < cuts.len() && percent > cuts[index]
        invariant
            index <= cuts@.len(),
            bucket_of(cuts@, percent) == index + bucket_of(cuts@.skip(index as int), percent),
        decreases cuts@.len() - index,
    {
        assert(cuts@.skip(index as int).skip(1) =~= cuts@.skip(index + 1));
        index += 1;
    }
    proof {
        lemma_bucket(cuts@, percent);
    }
    index
}

} // verus!
