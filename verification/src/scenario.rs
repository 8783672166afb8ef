//! The workloads of a run.
//!
//! A run is a number of trials, and a trial is a list of actions. The
//! trials of a run are drawn at random, under one of two disciplines: each
//! trial takes what one round gives, or each trial has exactly a given
//! number of actions. Three more kinds of trial are made of set actions: one
//! that inserts a domain of values and then asks for values of which a
//! given share is in the domain; one that inserts a domain and removes it
//! again in another order; and one that inserts a single value over and
//! over.

use crate::adapter::{lemma_set_trials_in_a_row, set_trial_after};
use crate::draw::Draw;
use crate::generator::{
    generated, reordered, round_bytes, seeded_words, shuffled_from, trial_from,
    words_after_round, Discipline, Generator,
};
use crate::set::{set_action, set_action_of, SetAction, SetKind};
use crate::types::MockValue;
use vstd::prelude::*;

verus! {

/// The actions of one kind on the values, one each, in order.
pub open spec fn actions_on<V>(kind: SetKind, values: Seq<V>) -> Seq<SetAction<V>> {
    values.map_values(|v: V| set_action_of(kind, v))
}

/// The values of `count` rounds for a single value each, from the state
/// `words` on, and the state words behind them.
pub open spec fn fresh_values<T: MockValue>(words: Seq<u32>, count: nat) -> (Seq<T::V>, Seq<u32>)
    decreases count,
{
    if count == 0 {
        (Seq::empty(), words)
    } else {
        let others = fresh_values::<T>(words_after_round(words), (count - 1) as nat);
        (seq![T::drawn(round_bytes(words, T::capacity()))] + others.0, others.1)
    }
}

/// How many of the `n / 2` lookups of a trial ask for a value of the
/// domain, where `percentage` of a hundred should.
pub open spec fn hits_of(n: nat, percentage: nat) -> nat {
    (n / 2) * percentage / 100
}

/// The actions of a trial that inserts a domain of `n / 2` values and then
/// asks `n / 2` times: first for values of the domain, in the order that
/// the stream leaves them in, then for fresh values.
pub open spec fn percentage_actions<T: MockValue>(
    words: Seq<u32>,
    n: nat,
    percentage: nat,
) -> Seq<SetAction<T::V>> {
    let domain = generated::<T>(words, Seq::empty(), n / 2);
    let order = shuffled_from(domain.1, n / 2);
    let hits = hits_of(n, percentage);
    let misses = fresh_values::<T>(order.1, (n / 2 - hits) as nat);
    actions_on(SetKind::Insert, domain.0) + actions_on(
        SetKind::Contains,
        reordered(domain.0, order.0).take(hits as int),
    ) + actions_on(SetKind::Contains, misses.0)
}

/// The state words of the stream behind such a trial.
pub open spec fn words_after_percentage<T: MockValue>(
    words: Seq<u32>,
    n: nat,
    percentage: nat,
) -> Seq<u32> {
    let domain = generated::<T>(words, Seq::empty(), n / 2);
    let order = shuffled_from(domain.1, n / 2);
    fresh_values::<T>(order.1, (n / 2 - hits_of(n, percentage)) as nat).1
}

/// The actions of a trial that inserts a domain of `n / 2` values and then
/// removes them in the order that the stream leaves them in.
pub open spec fn insert_remove_actions<T: MockValue>(words: Seq<u32>, n: nat) -> Seq<
    SetAction<T::V>,
> {
    let domain = generated::<T>(words, Seq::empty(), n / 2);
    let order = shuffled_from(domain.1, n / 2);
    actions_on(SetKind::Insert, domain.0) + actions_on(
        SetKind::Remove,
        reordered(domain.0, order.0),
    )
}

/// The state words of the stream behind such a trial.
pub open spec fn words_after_insert_remove<T: MockValue>(words: Seq<u32>, n: nat) -> Seq<u32> {
    shuffled_from(generated::<T>(words, Seq::empty(), n / 2).1, n / 2).1
}

/// A second list that holds the same values.
fn duplicate_all<T: MockValue>(values: &Vec<T>) -> (copies: Vec<T>)
    ensures
        copies@.map_values(|v: T| v@) == values@.map_values(|v: T| v@),
{
    let mut copies: Vec<T> = Vec::new();
    let mut i: usize = 0;
    while i < values.len()
        invariant
            i <= values@.len(),
            copies@.map_values(|v: T| v@) == values@.map_values(|v: T| v@).take(i as int),
        decreases values@.len() - i,
    {
        let ghost had = copies@.map_values(|v: T| v@);
        copies.push(values[i].duplicate());
        assert(copies@.map_values(|v: T| v@) =~= had.push(values@[i as int]@));
        assert(values@.map_values(|v: T| v@).take(i + 1) =~= had.push(values@[i as int]@));
        i += 1;
    }
    assert(values@.map_values(|v: T| v@).take(values@.len() as int) =~= values@.map_values(
        |v: T| v@,
    ));
    copies
}

/// Appends the action of one kind on each of the first `count` values.
fn push_actions<T: MockValue>(
    kind: SetKind,
    values: &Vec<T>,
    count: usize,
    out: &mut Vec<SetAction<T>>,
)
    requires
        count <= values@.len(),
    ensures
        final(out)@.map_values(|a: SetAction<T>| a@) == old(out)@.map_values(
            |a: SetAction<T>| a@,
        ) + actions_on(kind, values@.map_values(|v: T| v@).take(count as int)),
{
    let ghost before = out@.map_values(|a: SetAction<T>| a@);
    let ghost views = values@.map_values(|v: T| v@).take(count as int);
    let mut i: usize = 0;
    assert(before + actions_on(kind, views).take(0) =~= before);
    while i < count
        invariant
            i <= count <= values@.len(),
            views == values@.map_values(|v: T| v@).take(count as int),
            out@.map_values(|a: SetAction<T>| a@) == before + actions_on(kind, views).take(
                i as int,
            ),
        decreases count - i,
    {
        let ghost had = out@.map_values(|a: SetAction<T>| a@);
        out.push(set_action(kind, values[i].duplicate()));
        assert(out@.map_values(|a: SetAction<T>| a@) =~= had.push(
            set_action_of(kind, views[i as int]),
        ));
        assert(before + actions_on(kind, views).take(i + 1) =~= had.push(
            set_action_of(kind, views[i as int]),
        ));
        i += 1;
    }
    assert(actions_on(kind, views).take(views.len() as int) =~= actions_on(kind, views));
}

/// Draws a domain of `count` values, and makes a copy of it in the order
/// that the stream leaves it in: the same values, each as often.
fn domain_and_shuffled<T: MockValue>(generator: &mut Generator, count: usize) -> (made: (
    Vec<T>,
    Vec<T>,
))
    requires
        old(generator).wf(),
    ensures
        final(generator).wf(),
        made.0@.len() == count,
        made.1@.len() == count,
        ({
            let domain = generated::<T>(old(generator).words(), Seq::empty(), count as nat);
            let order = shuffled_from(domain.1, count as nat);
            &&& made.0@.map_values(|v: T| v@) == domain.0
            &&& made.1@.map_values(|v: T| v@) == reordered(domain.0, order.0)
            &&& reordered(domain.0, order.0).to_multiset() == domain.0.to_multiset()
            &&& final(generator).words() == order.1
        }),
{
    let domain = generator.generate_n_elements::<T>(count);
    let mut elements = duplicate_all(&domain);
    let ghost views = domain@.map_values(|v: T| v@);
    let ghost order = shuffled_from(generator.words(), count as nat).0;
    assert(elements@.len() == elements@.map_values(|v: T| v@).len());
    assert(domain@.len() == views.len());
    let ghost copies = elements@;
    generator.shuffle(&mut elements);
    proof {
        lemma_map_keeps_multiset(elements@, copies, |v: T| v@);
    }
    assert(elements@.map_values(|v: T| v@) =~= reordered(views, order)) by {
        assert forall|i: int| 0 <= i < count implies elements@[i]@ == views[order[i]] by {
            assert(0 <= order[i] < count);
            assert(elements@[i] == copies[order[i]]);
            assert(copies.map_values(|v: T| v@)[order[i]] == copies[order[i]]@);
        }
    }
    (domain, elements)
}

/// The trial that inserts the blank value `n` times.
pub fn insert_same_trial<T: MockValue>(n: usize) -> (actions: Vec<SetAction<T>>)
    ensures
        actions@.len() == n,
        forall|i: int|
            0 <= i < n ==> (#[trigger] actions@[i])@ == SetAction::Insert(T::blank_model()),
{
    let mut actions: Vec<SetAction<T>> = Vec::new();
    while actions.len() < n
        invariant
            actions@.len() <= n,
            forall|i: int|
                0 <= i < actions@.len() ==> (#[trigger] actions@[i])@ == SetAction::Insert(
                    T::blank_model(),
                ),
        decreases n - actions@.len(),
    {
        actions.push(SetAction::Insert(T::blank()));
    }
    actions
}

/// The trial that inserts a domain of `n / 2` values and removes them
/// again in the order that the stream leaves them in. Every value that was
/// inserted is removed exactly as often as it was inserted.
pub fn insert_remove_trial<T: MockValue>(generator: &mut Generator, n: usize) -> (actions: Vec<
    SetAction<T>,
>)
    requires
        old(generator).wf(),
    ensures
        final(generator).wf(),
        actions@.len() == 2 * (n / 2),
        actions@.map_values(|a: SetAction<T>| a@) == insert_remove_actions::<T>(
            old(generator).words(),
            n as nat,
        ),
        final(generator).words() == words_after_insert_remove::<T>(
            old(generator).words(),
            n as nat,
        ),
        ({
            let domain = generated::<T>(old(generator).words(), Seq::empty(), (n / 2) as nat).0;
            let order = shuffled_from(
                generated::<T>(old(generator).words(), Seq::empty(), (n / 2) as nat).1,
                (n / 2) as nat,
            ).0;
            reordered(domain, order).to_multiset() == domain.to_multiset()
        }),
{
    let half: usize = n / 2;
    let ghost start = generator.words();
    let (domain, elements) = domain_and_shuffled::<T>(generator, half);
    let ghost views = domain@.map_values(|v: T| v@);
    let ghost order = shuffled_from(
        generated::<T>(start, Seq::empty(), half as nat).1,
        half as nat,
    ).0;
    let mut actions: Vec<SetAction<T>> = Vec::new();
    assert(actions@.map_values(|a: SetAction<T>| a@) =~= Seq::<SetAction<T::V>>::empty());
    push_actions(SetKind::Insert, &domain, half, &mut actions);
    push_actions(SetKind::Remove, &elements, half, &mut actions);
    assert(views.take(half as int) =~= views);
    assert(reordered(views, order).take(half as int) =~= reordered(views, order));
    assert(actions@.map_values(|a: SetAction<T>| a@) =~= actions_on(SetKind::Insert, views)
        + actions_on(SetKind::Remove, reordered(views, order)));
    assert(actions@.len() == actions@.map_values(|a: SetAction<T>| a@).len());
    actions
}

/// What the trials hold.
pub open spec fn trial_views<T: View>(trials: Seq<Vec<T>>) -> Seq<Seq<T::V>> {
    trials.map_values(|trial: Vec<T>| trial@.map_values(|v: T| v@))
}

/// The values of `trials` trials that follow one another from the state
/// `words`.
pub open spec fn workload_from<T: Draw>(
    words: Seq<u32>,
    trials: nat,
    discipline: Discipline,
) -> Seq<Seq<T::V>>
    decreases trials,
{
    if trials == 0 {
        Seq::empty()
    } else {
        let first = trial_from::<T>(words, discipline);
        seq![first.0] + workload_from::<T>(first.1, (trials - 1) as nat, discipline)
    }
}

/// The workload of a whole run: `trials` trials, drawn one after the other
/// from the stream that `seed` starts. The seed, the number of trials and
/// the discipline fix every value of it; under the count-bounded
/// discipline every trial has exactly the count of values.
pub fn workload<T: Draw>(seed: u64, trials: usize, discipline: Discipline) -> (made: Vec<Vec<T>>)
    ensures
        made@.len() == trials,
        trial_views(made@) == workload_from::<T>(seeded_words(seed), trials as nat, discipline),
        discipline matches Discipline::CountBounded(n) ==> forall|i: int|
            0 <= i < trials ==> (#[trigger] made@[i])@.len() == n,
{
    let mut generator = Generator::new(seed);
    let mut made: Vec<Vec<T>> = Vec::new();
    let ghost start = generator.words();
    assert(trial_views(made@) =~= Seq::<Seq<T::V>>::empty());
    assert(Seq::<Seq<T::V>>::empty() + workload_from::<T>(start, trials as nat, discipline)
        =~= workload_from::<T>(start, trials as nat, discipline));
    while made.len() < trials
        invariant
            generator.wf(),
            made@.len() <= trials,
            discipline matches Discipline::CountBounded(n) ==> forall|i: int|
                0 <= i < made@.len() ==> (#[trigger] made@[i])@.len() == n,
            workload_from::<T>(start, trials as nat, discipline) == trial_views(made@)
                + workload_from::<T>(
                generator.words(),
                (trials - made@.len()) as nat,
                discipline,
            ),
        decreases trials - made@.len(),
    {
        let ghost had = trial_views(made@);
        let ghost left = (trials - made@.len()) as nat;
        let trial = generator.next_trial::<T>(discipline);
        let ghost view = trial@.map_values(|v: T| v@);
        made.push(trial);
        proof {
            let rest = workload_from::<T>(generator.words(), (left - 1) as nat, discipline);
            assert(trial_views(made@) =~= had.push(view));
            assert(had + (seq![view] + rest) =~= had.push(view) + rest);
        }
    }
    assert(trial_views(made@) + Seq::<Seq<T::V>>::empty() =~= trial_views(made@));
    made
}

/// The number of hits among the lookups of a trial.
fn hits(n: usize, percentage: usize) -> (count: usize)
    requires
        percentage <= 100,
    ensures
        count == hits_of(n as nat, percentage as nat),
        count <= n / 2,
{
    let half: u128 = (n / 2) as u128;
    assert(half * (percentage as u128) <= 0xffff_ffff_ffff_ffff * 100) by (nonlinear_arith)
        requires
            half <= 0xffff_ffff_ffff_ffff,
            percentage <= 100,
    ;
    let scaled: u128 = half * (percentage as u128);
    assert(scaled / 100 <= half) by (nonlinear_arith)
        requires
            scaled == half * (percentage as u128),
            percentage <= 100,
    ;
    (scaled / 100) as usize
}

/// The trial that inserts a domain of `n / 2` values and then asks `n / 2`
/// times, `percentage` of a hundred of the times for a value of the
/// domain and the other times for a fresh value. The percentage is at most
/// a hundred.
pub fn percentage_trial<T: MockValue>(generator: &mut Generator, n: usize, percentage: usize) -> (
    actions: Vec<SetAction<T>>
)
    requires
        old(generator).wf(),
        percentage <= 100,
    ensures
        final(generator).wf(),
        actions@.len() == 2 * (n / 2),
        actions@.map_values(|a: SetAction<T>| a@) == percentage_actions::<T>(
            old(generator).words(),
            n as nat,
            percentage as nat,
        ),
        final(generator).words() == words_after_percentage::<T>(
            old(generator).words(),
            n as nat,
            percentage as nat,
        ),
{
    let half: usize = n / 2;
    let hits: usize = hits(n, percentage);
    let misses: usize = half - hits;
    let ghost begin = generator.words();
    let (domain, elements) = domain_and_shuffled::<T>(generator, half);
    let ghost views = domain@.map_values(|v: T| v@);
    let ghost order = shuffled_from(
        generated::<T>(begin, Seq::empty(), half as nat).1,
        half as nat,
    ).0;
    let mut actions: Vec<SetAction<T>> = Vec::new();
    assert(actions@.map_values(|a: SetAction<T>| a@) =~= Seq::<SetAction<T::V>>::empty());
    push_actions(SetKind::Insert, &domain, half, &mut actions);
    push_actions(SetKind::Contains, &elements, hits, &mut actions);
    let ghost head = actions@.map_values(|a: SetAction<T>| a@);
    assert(views.take(half as int) =~= views);
    assert(head =~= actions_on(SetKind::Insert, views) + actions_on(
        SetKind::Contains,
        reordered(views, order).take(hits as int),
    ));
    assert(head.len() == actions@.len());
    let ghost start = generator.words();
    let mut made: usize = 0;
    proof {
        assert(fresh_values::<T>(generator.words(), misses as nat).0 =~= Seq::<T::V>::empty()
            + fresh_values::<T>(generator.words(), misses as nat).0);
    }
    let ghost mut fresh: Seq<T::V> = Seq::empty();
    while made < misses
        invariant
            made <= misses,
            generator.wf(),
            fresh.len() == made,
            actions@.len() == half + hits + made,
            actions@.map_values(|a: SetAction<T>| a@) == head + actions_on(
                SetKind::Contains,
                fresh,
            ),
            fresh_values::<T>(start, misses as nat).0 == fresh + fresh_values::<T>(
                generator.words(),
                (misses - made) as nat,
            ).0,
            fresh_values::<T>(start, misses as nat).1 == fresh_values::<T>(
                generator.words(),
                (misses - made) as nat,
            ).1,
        decreases misses - made,
    {
        let ghost had = actions@.map_values(|a: SetAction<T>| a@);
        let value = generator.next_value::<T>();
        proof {
            let rest = fresh_values::<T>(generator.words(), (misses - made - 1) as nat).0;
            assert(fresh + (seq![value@] + rest) =~= fresh.push(value@) + rest);
            assert(actions_on(SetKind::Contains, fresh.push(value@)) =~= actions_on(
                SetKind::Contains,
                fresh,
            ).push(SetAction::Contains(value@)));
            fresh = fresh.push(value@);
        }
        actions.push(SetAction::Contains(value));
        assert(actions@.map_values(|a: SetAction<T>| a@) =~= had.push(
            SetAction::Contains(fresh.last()),
        ));
        made += 1;
    }
    assert(fresh + Seq::<T::V>::empty() =~= fresh);
    actions
}

/// The values of a list are those of the list without its last one, and
/// the last one.
proof fn lemma_set_with_last<V>(values: Seq<V>)
    requires
        values.len() > 0,
    ensures
        values.to_set() == values.drop_last().to_set().insert(values.last()),
{
    assert forall|v: V| values.to_set().contains(v) <==> (values.drop_last().to_set().contains(v)
        || v == values.last()) by {
        if values.contains(v) {
            let i = choose|i: int| 0 <= i < values.len() && values[i] == v;
            if i < values.len() - 1 {
                assert(values.drop_last()[i] == v);
            }
        }
        if values.drop_last().contains(v) {
            let i = choose|i: int| 0 <= i < values.drop_last().len() && values.drop_last()[i] == v;
            assert(values[i] == v);
        }
        assert(values[values.len() - 1] == values.last());
    }
    assert(values.to_set() =~= values.drop_last().to_set().insert(values.last()));
}

/// Behind the inserts of some values a set holds what it held and the
/// values.
pub proof fn lemma_inserts_add<V>(contents: Set<V>, values: Seq<V>)
    ensures
        set_trial_after(contents, actions_on(SetKind::Insert, values)) == contents.union(
            values.to_set(),
        ),
    decreases values.len(),
{
    let actions = actions_on(SetKind::Insert, values);
    if values.len() == 0 {
        assert(contents.union(values.to_set()) =~= contents);
    } else {
        lemma_inserts_add(contents, values.drop_last());
        assert(actions.drop_last() =~= actions_on(SetKind::Insert, values.drop_last()));
        lemma_set_with_last(values);
        assert(contents.union(values.drop_last().to_set()).insert(values.last())
            =~= contents.union(values.to_set()));
    }
}

/// Behind the removals of some values a set holds what it held but for the
/// values.
pub proof fn lemma_removes_take_away<V>(contents: Set<V>, values: Seq<V>)
    ensures
        set_trial_after(contents, actions_on(SetKind::Remove, values)) == contents.difference(
            values.to_set(),
        ),
    decreases values.len(),
{
    let actions = actions_on(SetKind::Remove, values);
    if values.len() == 0 {
        assert(contents.difference(values.to_set()) =~= contents);
    } else {
        lemma_removes_take_away(contents, values.drop_last());
        assert(actions.drop_last() =~= actions_on(SetKind::Remove, values.drop_last()));
        lemma_set_with_last(values);
        assert(contents.difference(values.drop_last().to_set()).remove(values.last())
            =~= contents.difference(values.to_set()));
    }
}

/// A trial that inserts some values and then removes the same values, in
/// whatever order, leaves in a set none of them: what the set held besides
/// them is all that it holds afterwards.
pub proof fn lemma_insert_remove_clears<V>(contents: Set<V>, domain: Seq<V>, removed: Seq<V>)
    requires
        removed.to_multiset() == domain.to_multiset(),
    ensures
        set_trial_after(
            contents,
            actions_on(SetKind::Insert, domain) + actions_on(SetKind::Remove, removed),
        ) == contents.difference(domain.to_set()),
{
    broadcast use vstd::seq_lib::group_to_multiset_ensures;

    domain.to_multiset_ensures();
    removed.to_multiset_ensures();
    assert(removed.to_set() =~= domain.to_set()) by {
        assert forall|v: V| removed.contains(v) <==> domain.contains(v) by {
            assert(removed.contains(v) <==> removed.to_multiset().count(v) > 0);
            assert(domain.contains(v) <==> domain.to_multiset().count(v) > 0);
        }
    }
    lemma_set_trials_in_a_row(
        contents,
        actions_on(SetKind::Insert, domain),
        actions_on(SetKind::Remove, removed),
    );
    lemma_inserts_add(contents, domain);
    lemma_removes_take_away(contents.union(domain.to_set()), removed);
    assert(contents.union(domain.to_set()).difference(domain.to_set()) =~= contents.difference(
        domain.to_set(),
    ));
}

/// Lists that hold the same items, each as often in the one as in the
/// other, still do so when every item is replaced by what `f` makes of it.
pub proof fn lemma_map_keeps_multiset<A, B>(s: Seq<A>, t: Seq<A>, f: spec_fn(A) -> B)
    requires
        s.to_multiset() == t.to_multiset(),
    ensures
        s.map_values(f).to_multiset() == t.map_values(f).to_multiset(),
    decreases s.len(),
{
    broadcast use vstd::seq_lib::group_to_multiset_ensures;

    s.to_multiset_ensures();
    t.to_multiset_ensures();
    s.map_values(f).to_multiset_ensures();
    t.map_values(f).to_multiset_ensures();
    if s.len() == 0 {
        assert(t.len() == 0);
        assert(s.map_values(f) =~= t.map_values(f));
    } else {
        let last = s.last();
        assert(s.to_multiset().count(last) > 0);
        assert(t.contains(last));
        let i = choose|i: int| 0 <= i < t.len() && t[i] == last;
        let shorter = t.remove(i);
        assert(s.drop_last() =~= s.remove(s.len() - 1));
        assert(s.drop_last().to_multiset() =~= s.to_multiset().remove(last));
        assert(shorter.to_multiset() =~= t.to_multiset().remove(last));
        lemma_map_keeps_multiset(s.drop_last(), shorter, f);
        assert(s.map_values(f).remove(s.len() - 1) =~= s.drop_last().map_values(f));
        assert(t.map_values(f).remove(i) =~= shorter.map_values(f));
        assert(s.map_values(f).to_multiset() =~= s.drop_last().map_values(f).to_multiset().insert(
            f(last),
        )) by {
            assert(s.map_values(f).remove(s.len() - 1).to_multiset() =~= s.map_values(
                f,
            ).to_multiset().remove(f(last)));
        }
        assert(t.map_values(f).to_multiset() =~= shorter.map_values(f).to_multiset().insert(
            f(last),
        )) by {
            assert(t.map_values(f).remove(i).to_multiset() =~= t.map_values(
                f,
            ).to_multiset().remove(f(last)));
        }
    }
}

} // verus!
