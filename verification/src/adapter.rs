//! What an instance does with an action.
//!
//! An instance owns one collection and applies each action of a trial to it
//! by one call, or by none. Two generations of collections are compared.
//! The newer one buffers its writes, has a call that stores or removes
//! without an answer, and a call that commits; the older one writes through
//! and has neither. Seen from outside, both leave the same contents behind
//! the same trial.

use crate::legacy_set::SetAction as LegacySetAction;
use crate::lookup_map::MapAction;
use crate::set::SetAction;
use crate::tree_map::MapAction as TreeAction;
use vstd::prelude::*;

verus! {

/// A call on a map.
#[derive(Clone, Debug, PartialEq, Eq)]
pub enum MapCall<K, V> {
    /// Stores the value under the key; the answer is the value before.
    Insert(K, V),
    /// Stores the value under the key, or removes the key; no answer.
    Assign(K, Option<V>),
    /// Removes the key; the answer is its value.
    Remove(K),
    /// Looks the key up.
    Get(K),
    /// Commits what is buffered.
    Flush,
    /// Walks all entries.
    Scan,
    /// No call at all.
    Nothing,
}

/// A call on a set.
#[derive(Clone, Debug, PartialEq, Eq)]
pub enum SetCall<T> {
    /// Adds the value.
    Insert(T),
    /// Removes the value.
    Remove(T),
    /// Asks whether the value is there.
    Contains(T),
    /// No call at all.
    Nothing,
}

/// The call of the newer map for an action: each kind has its own.
pub open spec fn store_map_call_of<K, V>(action: MapAction<K, V>) -> MapCall<K, V> {
    match action {
        MapAction::Insert(k, v) => MapCall::Insert(k, v),
        MapAction::Assign(k, v) => MapCall::Assign(k, v),
        MapAction::Remove(k) => MapCall::Remove(k),
        MapAction::Flush => MapCall::Flush,
        MapAction::Get(k) => MapCall::Get(k),
    }
}

/// The call of the older map for an action: to assign is to insert the
/// value or, where there is none, to remove the key, and to flush is
/// nothing.
pub open spec fn legacy_map_call_of<K, V>(action: MapAction<K, V>) -> MapCall<K, V> {
    match action {
        MapAction::Insert(k, v) => MapCall::Insert(k, v),
        MapAction::Assign(k, Some(v)) => MapCall::Insert(k, v),
        MapAction::Assign(k, None) => MapCall::Remove(k),
        MapAction::Remove(k) => MapCall::Remove(k),
        MapAction::Flush => MapCall::Nothing,
        MapAction::Get(k) => MapCall::Get(k),
    }
}

/// The calls of a tree map for an action, the same for both generations:
/// an insert is followed by a commit, and to iterate is to walk all
/// entries.
pub open spec fn tree_map_calls_of<K, V>(action: TreeAction<K, V>) -> Seq<MapCall<K, V>> {
    match action {
        TreeAction::Insert(k, v) => seq![MapCall::Insert(k, v), MapCall::Flush],
        TreeAction::Iter => seq![MapCall::Scan],
    }
}

/// The calls of a tree map for a trial, in order.
pub open spec fn tree_map_trial_calls<K, V>(actions: Seq<TreeAction<K, V>>) -> Seq<MapCall<K, V>>
    decreases actions.len(),
{
    if actions.len() == 0 {
        Seq::empty()
    } else {
        tree_map_trial_calls(actions.drop_last()) + tree_map_calls_of(actions.last())
    }
}

/// The call of a set for an action, the same for both generations: each
/// kind has its own.
pub open spec fn set_call_of<T>(action: SetAction<T>) -> SetCall<T> {
    match action {
        SetAction::Insert(v) => SetCall::Insert(v),
        SetAction::Remove(v) => SetCall::Remove(v),
        SetAction::Contains(v) => SetCall::Contains(v),
    }
}

/// The call of the older set for an action of its entry point: to flush is
/// nothing, since that set writes through.
pub open spec fn legacy_set_call_of<T>(action: LegacySetAction<T>) -> SetCall<T> {
    match action {
        LegacySetAction::Insert(v) => SetCall::Insert(v),
        LegacySetAction::Remove(v) => SetCall::Remove(v),
        LegacySetAction::Flush => SetCall::Nothing,
        LegacySetAction::Contains(v) => SetCall::Contains(v),
    }
}

/// The contents of a map behind a call.
pub open spec fn map_after<K, V>(contents: Map<K, V>, call: MapCall<K, V>) -> Map<K, V> {
    match call {
        MapCall::Insert(k, v) => contents.insert(k, v),
        MapCall::Assign(k, Some(v)) => contents.insert(k, v),
        MapCall::Assign(k, None) => contents.remove(k),
        MapCall::Remove(k) => contents.remove(k),
        MapCall::Get(k) => contents,
        MapCall::Flush => contents,
        MapCall::Scan => contents,
        MapCall::Nothing => contents,
    }
}

/// The contents of a set behind a call.
pub open spec fn set_after<T>(contents: Set<T>, call: SetCall<T>) -> Set<T> {
    match call {
        SetCall::Insert(v) => contents.insert(v),
        SetCall::Remove(v) => contents.remove(v),
        SetCall::Contains(v) => contents,
        SetCall::Nothing => contents,
    }
}

/// The contents of a set behind a trial.
pub open spec fn set_trial_after<T>(contents: Set<T>, actions: Seq<SetAction<T>>) -> Set<T>
    decreases actions.len(),
{
    if actions.len() == 0 {
        contents
    } else {
        set_after(set_trial_after(contents, actions.drop_last()), set_call_of(actions.last()))
    }
}

/// The contents of the newer map behind a trial.
pub open spec fn store_map_after<K, V>(contents: Map<K, V>, actions: Seq<MapAction<K, V>>) -> Map<
    K,
    V,
>
    decreases actions.len(),
{
    if actions.len() == 0 {
        contents
    } else {
        map_after(
            store_map_after(contents, actions.drop_last()),
            store_map_call_of(actions.last()),
        )
    }
}

/// The contents of the older map behind a trial.
pub open spec fn legacy_map_after<K, V>(contents: Map<K, V>, actions: Seq<MapAction<K, V>>) -> Map<
    K,
    V,
>
    decreases actions.len(),
{
    if actions.len() == 0 {
        contents
    } else {
        map_after(
            legacy_map_after(contents, actions.drop_last()),
            legacy_map_call_of(actions.last()),
        )
    }
}

/// Picks the call of the newer map for an action.
pub fn store_map_call<K, V>(action: MapAction<K, V>) -> (call: MapCall<K, V>)
    ensures
        call == store_map_call_of(action),
{
    match action {
        MapAction::Insert(k, v) => MapCall::Insert(k, v),
        MapAction::Assign(k, v) => MapCall::Assign(k, v),
        MapAction::Remove(k) => MapCall::Remove(k),
        MapAction::Flush => MapCall::Flush,
        MapAction::Get(k) => MapCall::Get(k),
    }
}

/// Picks the call of the older map for an action.
pub fn legacy_map_call<K, V>(action: MapAction<K, V>) -> (call: MapCall<K, V>)
    ensures
        call == legacy_map_call_of(action),
{
    match action {
        MapAction::Insert(k, v) => MapCall::Insert(k, v),
        MapAction::Assign(k, Some(v)) => MapCall::Insert(k, v),
        MapAction::Assign(k, None) => MapCall::Remove(k),
        MapAction::Remove(k) => MapCall::Remove(k),
        MapAction::Flush => MapCall::Nothing,
        MapAction::Get(k) => MapCall::Get(k),
    }
}

/// Picks the call of a set for an action.
pub fn set_call<T>(action: SetAction<T>) -> (call: SetCall<T>)
    ensures
        call == set_call_of(action),
{
    match action {
        SetAction::Insert(v) => SetCall::Insert(v),
        SetAction::Remove(v) => SetCall::Remove(v),
        SetAction::Contains(v) => SetCall::Contains(v),
    }
}

/// Picks the call of the older set for an action of its entry point.
pub fn legacy_set_call<T>(action: LegacySetAction<T>) -> (call: SetCall<T>)
    ensures
        call == legacy_set_call_of(action),
{
    match action {
        LegacySetAction::Insert(v) => SetCall::Insert(v),
        LegacySetAction::Remove(v) => SetCall::Remove(v),
        LegacySetAction::Flush => SetCall::Nothing,
        LegacySetAction::Contains(v) => SetCall::Contains(v),
    }
}

/// Picks the calls of a whole trial for the newer map, in order.
pub fn store_map_calls<K, V>(actions: Vec<MapAction<K, V>>) -> (calls: Vec<MapCall<K, V>>)
    ensures
        calls@ == actions@.map_values(|a: MapAction<K, V>| store_map_call_of(a)),
{
    let mut calls: Vec<MapCall<K, V>> = Vec::new();
    let ghost all = actions@;
    for action in iter: actions.into_iter()
        invariant
            iter.seq() == all,
            calls@ == all.take(iter.index() as int).map_values(
                |a: MapAction<K, V>| store_map_call_of(a),
            ),
    {
        calls.push(store_map_call(action));
        assert(calls@ =~= all.take(iter.index() + 1).map_values(
            |a: MapAction<K, V>| store_map_call_of(a),
        ));
    }
    assert(all.take(all.len() as int) =~= all);
    calls
}

/// Picks the calls of a whole trial for the older map, in order.
pub fn legacy_map_calls<K, V>(actions: Vec<MapAction<K, V>>) -> (calls: Vec<MapCall<K, V>>)
    ensures
        calls@ == actions@.map_values(|a: MapAction<K, V>| legacy_map_call_of(a)),
{
    let mut calls: Vec<MapCall<K, V>> = Vec::new();
    let ghost all = actions@;
    for action in iter: actions.into_iter()
        invariant
            iter.seq() == all,
            calls@ == all.take(iter.index() as int).map_values(
                |a: MapAction<K, V>| legacy_map_call_of(a),
            ),
    {
        calls.push(legacy_map_call(action));
        assert(calls@ =~= all.take(iter.index() + 1).map_values(
            |a: MapAction<K, V>| legacy_map_call_of(a),
        ));
    }
    assert(all.take(all.len() as int) =~= all);
    calls
}

/// Picks the calls of a whole trial for a tree map, in order.
pub fn tree_map_calls<K, V>(actions: Vec<TreeAction<K, V>>) -> (calls: Vec<MapCall<K, V>>)
    ensures
        calls@ == tree_map_trial_calls(actions@),
{
    let mut calls: Vec<MapCall<K, V>> = Vec::new();
    let ghost all = actions@;
    assert(all.take(0) =~= Seq::<TreeAction<K, V>>::empty());
    for action in iter: actions.into_iter()
        invariant
            iter.seq() == all,
            calls@ == tree_map_trial_calls(all.take(iter.index() as int)),
    {
        let ghost had = calls@;
        assert(all.take(iter.index() + 1).drop_last() =~= all.take(iter.index() as int));
        match action {
            TreeAction::Insert(k, v) => {
                calls.push(MapCall::Insert(k, v));
                calls.push(MapCall::Flush);
                assert(calls@ =~= had + seq![MapCall::Insert(k, v), MapCall::Flush]);
            },
            TreeAction::Iter => {
                calls.push(MapCall::Scan);
                assert(calls@ =~= had + seq![MapCall::<K, V>::Scan]);
            },
        }
    }
    assert(all.take(all.len() as int) =~= all);
    calls
}

/// Picks the calls of a whole trial for a set, in order.
pub fn set_calls<T>(actions: Vec<SetAction<T>>) -> (calls: Vec<SetCall<T>>)
    ensures
        calls@ == actions@.map_values(|a: SetAction<T>| set_call_of(a)),
{
    let mut calls: Vec<SetCall<T>> = Vec::new();
    let ghost all = actions@;
    for action in iter: actions.into_iter()
        invariant
            iter.seq() == all,
            calls@ == all.take(iter.index() as int).map_values(
                |a: SetAction<T>| set_call_of(a),
            ),
    {
        calls.push(set_call(action));
        assert(calls@ =~= all.take(iter.index() + 1).map_values(
            |a: SetAction<T>| set_call_of(a),
        ));
    }
    assert(all.take(all.len() as int) =~= all);
    calls
}

/// Picks the calls of a whole trial for the older set, in order.
pub fn legacy_set_calls<T>(actions: Vec<LegacySetAction<T>>) -> (calls: Vec<SetCall<T>>)
    ensures
        calls@ == actions@.map_values(|a: LegacySetAction<T>| legacy_set_call_of(a)),
{
    let mut calls: Vec<SetCall<T>> = Vec::new();
    let ghost all = actions@;
    for action in iter: actions.into_iter()
        invariant
            iter.seq() == all,
            calls@ == all.take(iter.index() as int).map_values(
                |a: LegacySetAction<T>| legacy_set_call_of(a),
            ),
    {
        calls.push(legacy_set_call(action));
        assert(calls@ =~= all.take(iter.index() + 1).map_values(
            |a: LegacySetAction<T>| legacy_set_call_of(a),
        ));
    }
    assert(all.take(all.len() as int) =~= all);
    calls
}

/// Behind two trials in a row a set holds what it holds behind the second,
/// started from what it holds behind the first.
pub proof fn lemma_set_trials_in_a_row<T>(
    contents: Set<T>,
    first: Seq<SetAction<T>>,
    second: Seq<SetAction<T>>,
)
    ensures
        set_trial_after(contents, first + second) == set_trial_after(
            set_trial_after(contents, first),
            second,
        ),
    decreases second.len(),
{
    if second.len() == 0 {
        assert(first + second =~= first);
    } else {
        lemma_set_trials_in_a_row(contents, first, second.drop_last());
        assert((first + second).drop_last() =~= first + second.drop_last());
        assert((first + second).last() == second.last());
    }
}

/// Both generations of maps leave the same contents behind an action.
pub proof fn lemma_map_calls_agree<K, V>(contents: Map<K, V>, action: MapAction<K, V>)
    ensures
        map_after(contents, store_map_call_of(action)) == map_after(
            contents,
            legacy_map_call_of(action),
        ),
{
}

/// Both generations of maps leave the same contents behind a trial.
pub proof fn lemma_map_trials_agree<K, V>(contents: Map<K, V>, actions: Seq<MapAction<K, V>>)
    ensures
        store_map_after(contents, actions) == legacy_map_after(contents, actions),
    decreases actions.len(),
{
    if actions.len() > 0 {
        lemma_map_trials_agree(contents, actions.drop_last());
        lemma_map_calls_agree(store_map_after(contents, actions.drop_last()), actions.last());
    }
}

} // verus!
