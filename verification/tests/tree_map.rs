use arbitrary::Unstructured;
use collections_bench::draw::{arbitrary_take_rest, Draw};
use collections_bench::generator::Generator;
use collections_bench::tree_map::{is_insert, tree_weights, MapAction};
use collections_bench::types::{HeavyMock, LightDenseMock, LightSparseMock};
use collections_bench::wire::{try_from_slice, try_to_vec, WireError};

#[test]
fn tree_weight_table_is_even() {
    assert_eq!(tree_weights(), [49]);
    assert!(is_insert(0));
    assert!(is_insert(0x7fff_ffff));
    assert!(!is_insert(0x8000_0000));
    assert!(!is_insert(u32::MAX));
    for draw in [0u32, 1, 0x7fff_ffff, 0x8000_0000, 0xdead_beef, u32::MAX] {
        assert_eq!(is_insert(draw), (draw as u64 * 2) >> 32 == 0);
    }
}

#[test]
fn tree_actions_of_both_kinds() {
    let bytes = [
        0u8, 0, 0, 0, 3, 0, 0, 0, 4, 0, 0, 0, // an insert
        0, 0, 0, 0x80, 9, 9, 9, 9, 9, 9, 9, 9, // an iter, which leaves the nines
    ];
    let mut u = Unstructured::new(&bytes);
    assert_eq!(
        <MapAction<LightSparseMock, LightSparseMock>>::draw(&mut u),
        MapAction::Insert(LightSparseMock::new(3), LightSparseMock::new(4))
    );
    assert_eq!(u.len(), 12);
    assert_eq!(
        <MapAction<LightSparseMock, LightSparseMock>>::draw(&mut u),
        MapAction::Iter
    );
    assert_eq!(u.len(), 8);
    assert_eq!(
        <MapAction<LightSparseMock, LightSparseMock>>::size_hint(0),
        (12, Some(12))
    );
    assert_eq!(<MapAction<HeavyMock, HeavyMock>>::size_hint(0), (102, None));
    assert_eq!(
        <MapAction<LightDenseMock, LightDenseMock>>::size_hint(0),
        (12, Some(12))
    );
}

#[test]
fn tree_take_rest() {
    let bytes = [
        0u8, 0, 0, 0x80, // iter
        0, 0, 0, 0, 3, 0, 0, 0, 4, 0, 0, 0, // insert
        0, 0, 0, 0x80, // iter
        1, 2, 3, 4, 5, 6, 7, 8, 0, 0, 0, 0x80, // insert
        0xff, 0xff, 0xff, 0xff, // iter
        0, 0, 0, 0, 1, 1, 1, 1, 2, 2, 2, // an insert that lacks a byte
    ];
    let actions: Vec<MapAction<LightSparseMock, LightSparseMock>> = arbitrary_take_rest(&bytes);
    assert_eq!(
        actions,
        vec![
            MapAction::Iter,
            MapAction::Insert(LightSparseMock::new(3), LightSparseMock::new(4)),
            MapAction::Iter,
            MapAction::Insert(LightSparseMock::new(0x0807_0605), LightSparseMock::new(0x8000_0000)),
            MapAction::Iter,
        ]
    );
}

#[test]
fn tree_actions_on_the_wire() {
    let actions = vec![
        MapAction::Insert(LightSparseMock::new(1), LightSparseMock::new(2)),
        MapAction::Iter,
    ];
    let bytes = try_to_vec(&actions).unwrap();
    assert_eq!(bytes, vec![2, 0, 0, 0, 0, 1, 0, 0, 0, 2, 0, 0, 0, 1]);
    assert_eq!(
        try_from_slice::<MapAction<LightSparseMock, LightSparseMock>>(&bytes),
        Ok(actions)
    );
    type A = MapAction<LightSparseMock, LightSparseMock>;
    assert_eq!(try_from_slice::<A>(&[1, 0, 0, 0, 2]), Err(WireError::InvalidTag));
    assert_eq!(
        try_from_slice::<A>(&[1, 0, 0, 0, 0, 1, 0, 0, 0, 2, 0, 0]),
        Err(WireError::UnexpectedEnd)
    );
    assert_eq!(try_from_slice::<A>(&[1, 0, 0, 0, 1, 1]), Err(WireError::TrailingBytes));
}

#[test]
fn tree_trials_of_heavy_values() {
    for n in [16usize, 32, 48, 64] {
        let mut generator = Generator::new(0);
        let first: Vec<MapAction<HeavyMock, HeavyMock>> = generator.generate_n_elements(n);
        let mut generator = Generator::new(0);
        let second: Vec<MapAction<HeavyMock, HeavyMock>> = generator.generate_n_elements(n);
        assert_eq!(first.len(), n);
        assert_eq!(first, second);
        let bytes = try_to_vec(&first).unwrap();
        assert_eq!(try_to_vec(&second).unwrap(), bytes);
        assert_eq!(try_from_slice::<MapAction<HeavyMock, HeavyMock>>(&bytes), Ok(first));
    }
}
