use collections_bench::adapter::{
    legacy_map_call, legacy_map_calls, legacy_set_call, legacy_set_calls, set_call, set_calls,
    store_map_call, store_map_calls, tree_map_calls, MapCall, SetCall,
};
use collections_bench::generator::Generator;
use collections_bench::legacy_set::SetAction as LegacySetAction;
use collections_bench::lookup_map::MapAction;
use collections_bench::scenario::insert_remove_trial;
use collections_bench::set::SetAction;
use collections_bench::tree_map::MapAction as TreeAction;
use collections_bench::types::{HeavyMock, LightDenseMock, LightSparseMock};
use std::collections::{BTreeMap, BTreeSet};

fn k(a: u32) -> LightSparseMock {
    LightSparseMock::new(a)
}

fn apply(map: &mut BTreeMap<LightSparseMock, u32>, call: MapCall<LightSparseMock, u32>) {
    match call {
        MapCall::Insert(key, value) => {
            map.insert(key, value);
        }
        MapCall::Assign(key, Some(value)) => {
            map.insert(key, value);
        }
        MapCall::Assign(key, None) => {
            map.remove(&key);
        }
        MapCall::Remove(key) => {
            map.remove(&key);
        }
        MapCall::Get(_) | MapCall::Flush | MapCall::Scan | MapCall::Nothing => {}
    }
}

#[test]
fn newer_map_has_a_call_for_each_kind() {
    assert_eq!(store_map_call(MapAction::Insert(k(1), 2u32)), MapCall::Insert(k(1), 2));
    assert_eq!(
        store_map_call(MapAction::Assign(k(1), Some(2u32))),
        MapCall::Assign(k(1), Some(2))
    );
    assert_eq!(
        store_map_call(MapAction::<_, u32>::Assign(k(1), None)),
        MapCall::Assign(k(1), None)
    );
    assert_eq!(store_map_call(MapAction::<_, u32>::Remove(k(1))), MapCall::Remove(k(1)));
    assert_eq!(
        store_map_call(MapAction::<LightSparseMock, u32>::Flush),
        MapCall::Flush
    );
    assert_eq!(store_map_call(MapAction::<_, u32>::Get(k(1))), MapCall::Get(k(1)));
}

#[test]
fn older_map_inserts_or_removes_to_assign() {
    assert_eq!(legacy_map_call(MapAction::Insert(k(1), 2u32)), MapCall::Insert(k(1), 2));
    assert_eq!(
        legacy_map_call(MapAction::Assign(k(1), Some(2u32))),
        MapCall::Insert(k(1), 2)
    );
    assert_eq!(
        legacy_map_call(MapAction::<_, u32>::Assign(k(1), None)),
        MapCall::Remove(k(1))
    );
    assert_eq!(legacy_map_call(MapAction::<_, u32>::Remove(k(1))), MapCall::Remove(k(1)));
    assert_eq!(
        legacy_map_call(MapAction::<LightSparseMock, u32>::Flush),
        MapCall::Nothing
    );
    assert_eq!(legacy_map_call(MapAction::<_, u32>::Get(k(1))), MapCall::Get(k(1)));
}

#[test]
fn set_calls_of_every_kind() {
    let v = HeavyMock::new(1, None, vec![2]);
    assert_eq!(set_call(SetAction::Insert(v.clone())), SetCall::Insert(v.clone()));
    assert_eq!(set_call(SetAction::Remove(v.clone())), SetCall::Remove(v.clone()));
    assert_eq!(set_call(SetAction::Contains(v.clone())), SetCall::Contains(v.clone()));
    assert_eq!(
        set_calls(vec![
            SetAction::Insert(k(1)),
            SetAction::Contains(k(1)),
            SetAction::Remove(k(2))
        ]),
        vec![SetCall::Insert(k(1)), SetCall::Contains(k(1)), SetCall::Remove(k(2))]
    );
    assert_eq!(set_calls(Vec::<SetAction<HeavyMock>>::new()), vec![]);
}

#[test]
fn older_set_calls_of_every_kind() {
    let v = HeavyMock::new(1, None, vec![2]);
    assert_eq!(
        legacy_set_call(LegacySetAction::Insert(v.clone())),
        SetCall::Insert(v.clone())
    );
    assert_eq!(
        legacy_set_call(LegacySetAction::Remove(v.clone())),
        SetCall::Remove(v.clone())
    );
    assert_eq!(legacy_set_call(LegacySetAction::<HeavyMock>::Flush), SetCall::Nothing);
    assert_eq!(
        legacy_set_call(LegacySetAction::Contains(v.clone())),
        SetCall::Contains(v.clone())
    );
    assert_eq!(
        legacy_set_calls(vec![
            LegacySetAction::Insert(k(1)),
            LegacySetAction::Flush,
            LegacySetAction::Remove(k(2)),
            LegacySetAction::Contains(k(3))
        ]),
        vec![
            SetCall::Insert(k(1)),
            SetCall::Nothing,
            SetCall::Remove(k(2)),
            SetCall::Contains(k(3))
        ]
    );
    assert_eq!(legacy_set_calls(Vec::<LegacySetAction<HeavyMock>>::new()), vec![]);
}

#[test]
fn both_maps_hold_the_same_behind_a_trial() {
    let trial = vec![
        MapAction::Insert(k(1), 10u32),
        MapAction::Assign(k(2), Some(20)),
        MapAction::Flush,
        MapAction::Assign(k(1), None),
        MapAction::Insert(k(3), 30),
        MapAction::Get(k(3)),
        MapAction::Remove(k(9)),
        MapAction::Assign(k(3), Some(31)),
        MapAction::Remove(k(2)),
        MapAction::Insert(k(4), 40),
    ];
    let store = store_map_calls(trial.clone());
    let legacy = legacy_map_calls(trial.clone());
    assert_eq!(store.len(), trial.len());
    assert_eq!(legacy.len(), trial.len());
    assert_eq!(store[1], MapCall::Assign(k(2), Some(20)));
    assert_eq!(legacy[1], MapCall::Insert(k(2), 20));
    assert_eq!(store[2], MapCall::Flush);
    assert_eq!(legacy[2], MapCall::Nothing);
    let mut newer = BTreeMap::new();
    let mut older = BTreeMap::new();
    for call in store {
        apply(&mut newer, call);
    }
    for call in legacy {
        apply(&mut older, call);
    }
    assert_eq!(newer, older);
    let expected: BTreeMap<LightSparseMock, u32> =
        [(k(3), 31), (k(4), 40)].into_iter().collect();
    assert_eq!(newer, expected);
}

#[test]
fn set_trial_contents() {
    let calls = set_calls(vec![
        SetAction::Insert(k(1)),
        SetAction::Insert(k(2)),
        SetAction::Contains(k(1)),
        SetAction::Remove(k(1)),
        SetAction::Insert(k(3)),
    ]);
    let mut set = BTreeSet::new();
    for call in calls {
        match call {
            SetCall::Insert(v) => {
                set.insert(v);
            }
            SetCall::Remove(v) => {
                set.remove(&v);
            }
            SetCall::Contains(_) | SetCall::Nothing => {}
        }
    }
    assert_eq!(set, [k(2), k(3)].into_iter().collect());
}

#[test]
fn tree_map_commits_each_insert() {
    let calls = tree_map_calls(vec![
        TreeAction::Insert(k(1), 10u32),
        TreeAction::Iter,
        TreeAction::Insert(k(1), 11),
        TreeAction::Iter,
        TreeAction::Iter,
    ]);
    assert_eq!(
        calls,
        vec![
            MapCall::Insert(k(1), 10),
            MapCall::Flush,
            MapCall::Scan,
            MapCall::Insert(k(1), 11),
            MapCall::Flush,
            MapCall::Scan,
            MapCall::Scan,
        ]
    );
    let mut map = BTreeMap::new();
    for call in calls {
        apply(&mut map, call);
    }
    let expected: BTreeMap<LightSparseMock, u32> = [(k(1), 11)].into_iter().collect();
    assert_eq!(map, expected);
    assert_eq!(tree_map_calls(Vec::<TreeAction<HeavyMock, HeavyMock>>::new()), vec![]);
}

#[test]
fn insert_remove_trial_leaves_none_of_its_values() {
    let mut generator = Generator::new(4);
    let trial: Vec<SetAction<LightDenseMock>> = insert_remove_trial(&mut generator, 64);
    let domain: BTreeSet<LightDenseMock> = trial
        .iter()
        .filter_map(|a| match a {
            SetAction::Insert(v) => Some(v.clone()),
            _ => None,
        })
        .collect();
    let mut set: BTreeSet<LightDenseMock> =
        (0..12).map(LightDenseMock::new).collect();
    let before = set.clone();
    for call in set_calls(trial) {
        match call {
            SetCall::Insert(v) => {
                set.insert(v);
            }
            SetCall::Remove(v) => {
                set.remove(&v);
            }
            SetCall::Contains(_) | SetCall::Nothing => {}
        }
    }
    let expected: BTreeSet<LightDenseMock> = before.difference(&domain).cloned().collect();
    assert_eq!(set, expected);
    assert!(set.iter().all(|v| v.a() >= 8));
}
