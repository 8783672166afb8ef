use collections_bench::legacy_set::SetAction as LegacySetAction;
use collections_bench::lookup_map::MapAction;
use collections_bench::set::SetAction;
use collections_bench::types::{HeavyMock, LightDenseMock, LightSparseMock};
use collections_bench::wire::{get_le, put_le, try_from_slice, try_to_vec, Wire, WireError};

fn heavy() -> HeavyMock {
    HeavyMock::new(0x0102_0304, Some([5u8; 32]), vec![6, 7, 8])
}

#[test]
fn numbers_are_little_endian() {
    let mut out = vec![9u8];
    put_le(&mut out, 0x0102_0304, 4);
    assert_eq!(out, vec![9, 4, 3, 2, 1]);
    put_le(&mut out, 0x0102, 1);
    assert_eq!(out, vec![9, 4, 3, 2, 1, 2]);
    put_le(&mut out, 7, 0);
    assert_eq!(out.len(), 6);
    assert_eq!(get_le(&out, 1, 4), 0x0102_0304);
    assert_eq!(get_le(&out, 0, 2), 0x0409);
    assert_eq!(get_le(&out, 3, 0), 0);
    let mut wide = Vec::new();
    put_le(&mut wide, u128::MAX - 1, 16);
    assert_eq!(wide[0], 0xFE);
    assert_eq!(get_le(&wide, 0, 16), u128::MAX - 1);
}

#[test]
fn numbers_match_borsh() {
    let mut out = Vec::new();
    put_le(&mut out, 0xDEAD_BEEF, 4);
    assert_eq!(out, borsh::to_vec(&0xDEAD_BEEFu32).unwrap());
    let mut out = Vec::new();
    put_le(&mut out, 0x0123_4567_89AB_CDEF_0011_2233_4455_6677, 16);
    assert_eq!(
        out,
        borsh::to_vec(&0x0123_4567_89AB_CDEF_0011_2233_4455_6677u128).unwrap()
    );
}

#[test]
fn light_values_are_four_bytes() {
    let mut out = Vec::new();
    assert!(LightSparseMock::new(0x0A0B_0C0D).can_encode());
    LightSparseMock::new(0x0A0B_0C0D).encode(&mut out);
    LightDenseMock::new(5).encode(&mut out);
    assert_eq!(out, vec![0x0D, 0x0C, 0x0B, 0x0A, 5, 0, 0, 0]);
    assert_eq!(
        LightSparseMock::decode(&out, 0),
        Ok((LightSparseMock::new(0x0A0B_0C0D), 4))
    );
    assert_eq!(LightDenseMock::decode(&out, 4), Ok((LightDenseMock::new(5), 8)));
    assert_eq!(LightDenseMock::decode(&out, 5), Err(WireError::UnexpectedEnd));
    assert_eq!(LightDenseMock::decode(&out, 8), Err(WireError::UnexpectedEnd));
}

#[test]
fn dense_values_are_read_as_written() {
    let bytes = [0xFFu8, 0xFF, 0xFF, 0xFF];
    assert_eq!(
        LightDenseMock::decode(&bytes, 0),
        Ok((LightDenseMock::new(u32::MAX), 4))
    );
}

#[test]
fn heavy_value_matches_borsh() {
    let mut out = Vec::new();
    heavy().encode(&mut out);
    let expected = borsh::to_vec(&(0x0102_0304u128, Some([5u8; 32]), vec![6u8, 7, 8])).unwrap();
    assert_eq!(out, expected);
    assert_eq!(out.len(), 16 + 33 + 4 + 3);
    let mut out = Vec::new();
    HeavyMock::default().encode(&mut out);
    let expected = borsh::to_vec(&(0u128, None::<[u8; 32]>, Vec::<u8>::new())).unwrap();
    assert_eq!(out, expected);
    assert_eq!(out.len(), 16 + 1 + 4);
}

#[test]
fn heavy_value_round_trip() {
    let mut out = vec![0xEEu8];
    heavy().encode(&mut out);
    out.push(0xEE);
    assert_eq!(HeavyMock::decode(&out, 1), Ok((heavy(), out.len() - 1)));
}

#[test]
fn heavy_value_errors() {
    let mut out = Vec::new();
    heavy().encode(&mut out);
    for cut in 0..out.len() {
        assert_eq!(HeavyMock::decode(&out[..cut], 0), Err(WireError::UnexpectedEnd));
    }
    let mut wrong = out.clone();
    wrong[16] = 2;
    assert_eq!(HeavyMock::decode(&wrong, 0), Err(WireError::InvalidTag));
}

#[test]
fn set_actions_are_tagged_by_place() {
    let v = LightSparseMock::new(1);
    let actions = vec![
        SetAction::Insert(v.clone()),
        SetAction::Remove(v.clone()),
        SetAction::Contains(v.clone()),
    ];
    let bytes = try_to_vec(&actions).unwrap();
    assert_eq!(
        bytes,
        vec![3, 0, 0, 0, 0, 1, 0, 0, 0, 1, 1, 0, 0, 0, 2, 1, 0, 0, 0]
    );
    assert_eq!(try_from_slice::<SetAction<LightSparseMock>>(&bytes), Ok(actions));
    let mut one = Vec::new();
    SetAction::Remove(heavy()).encode(&mut one);
    assert_eq!(one[0], 1);
    let mut payload = Vec::new();
    heavy().encode(&mut payload);
    assert_eq!(one[1..], payload[..]);
}

#[test]
fn older_set_actions_are_tagged_by_place() {
    let v = LightSparseMock::new(1);
    let actions = vec![
        LegacySetAction::Insert(v.clone()),
        LegacySetAction::Remove(v.clone()),
        LegacySetAction::Flush,
        LegacySetAction::Contains(v.clone()),
    ];
    let bytes = try_to_vec(&actions).unwrap();
    assert_eq!(
        bytes,
        vec![4, 0, 0, 0, 0, 1, 0, 0, 0, 1, 1, 0, 0, 0, 2, 3, 1, 0, 0, 0]
    );
    assert_eq!(
        try_from_slice::<LegacySetAction<LightSparseMock>>(&bytes),
        Ok(actions)
    );
    let actions = vec![
        LegacySetAction::Contains(heavy()),
        LegacySetAction::Flush,
        LegacySetAction::Flush,
        LegacySetAction::Remove(HeavyMock::default()),
        LegacySetAction::Insert(heavy()),
    ];
    let bytes = try_to_vec(&actions).unwrap();
    assert_eq!(try_from_slice::<LegacySetAction<HeavyMock>>(&bytes), Ok(actions));
    type L = LegacySetAction<LightSparseMock>;
    assert_eq!(try_from_slice::<L>(&[1, 0, 0, 0, 4]), Err(WireError::InvalidTag));
    assert_eq!(try_from_slice::<L>(&[1, 0, 0, 0, 2, 2]), Err(WireError::TrailingBytes));
    assert_eq!(try_from_slice::<L>(&[2, 0, 0, 0, 2]), Err(WireError::UnexpectedEnd));
    assert_eq!(
        try_from_slice::<L>(&[1, 0, 0, 0, 3, 1, 0, 0]),
        Err(WireError::UnexpectedEnd)
    );
}

#[test]
fn map_actions_are_tagged_by_place() {
    let k = LightSparseMock::new(1);
    let v = LightDenseMock::new(2);
    let actions = vec![
        MapAction::Insert(k.clone(), v.clone()),
        MapAction::Assign(k.clone(), Some(v.clone())),
        MapAction::Assign(k.clone(), None),
        MapAction::Remove(k.clone()),
        MapAction::Flush,
        MapAction::Get(k.clone()),
    ];
    let bytes = try_to_vec(&actions).unwrap();
    let expected: Vec<u8> = vec![
        6, 0, 0, 0, // six actions
        0, 1, 0, 0, 0, 2, 0, 0, 0, // insert
        1, 1, 0, 0, 0, 1, 2, 0, 0, 0, // assign a value
        1, 1, 0, 0, 0, 0, // assign none
        2, 1, 0, 0, 0, // remove
        3, // flush
        4, 1, 0, 0, 0, // get
    ];
    assert_eq!(bytes, expected);
    assert_eq!(
        try_from_slice::<MapAction<LightSparseMock, LightDenseMock>>(&bytes),
        Ok(actions)
    );
}

#[test]
fn heavy_actions_round_trip() {
    let actions = vec![
        MapAction::Insert(heavy(), HeavyMock::default()),
        MapAction::Assign(HeavyMock::default(), Some(heavy())),
        MapAction::Assign(heavy(), None),
        MapAction::Remove(heavy()),
        MapAction::Flush,
        MapAction::Get(HeavyMock::new(u128::MAX, None, vec![0; 300])),
    ];
    let bytes = try_to_vec(&actions).unwrap();
    assert_eq!(try_from_slice::<MapAction<HeavyMock, HeavyMock>>(&bytes), Ok(actions));
    let actions = vec![
        SetAction::Insert(heavy()),
        SetAction::Insert(HeavyMock::default()),
        SetAction::Remove(heavy()),
        SetAction::Contains(heavy()),
    ];
    let bytes = try_to_vec(&actions).unwrap();
    assert_eq!(try_from_slice::<SetAction<HeavyMock>>(&bytes), Ok(actions));
}

#[test]
fn empty_list_is_its_length() {
    let actions: Vec<SetAction<HeavyMock>> = Vec::new();
    let bytes = try_to_vec(&actions).unwrap();
    assert_eq!(bytes, vec![0, 0, 0, 0]);
    assert_eq!(try_from_slice::<SetAction<HeavyMock>>(&bytes), Ok(actions));
}

#[test]
fn list_errors() {
    type A = SetAction<LightSparseMock>;
    assert_eq!(try_from_slice::<A>(&[]), Err(WireError::UnexpectedEnd));
    assert_eq!(try_from_slice::<A>(&[1, 0, 0]), Err(WireError::UnexpectedEnd));
    assert_eq!(try_from_slice::<A>(&[1, 0, 0, 0]), Err(WireError::UnexpectedEnd));
    assert_eq!(
        try_from_slice::<A>(&[1, 0, 0, 0, 0, 1, 0, 0]),
        Err(WireError::UnexpectedEnd)
    );
    assert_eq!(
        try_from_slice::<A>(&[2, 0, 0, 0, 3, 5, 1, 0, 0, 0]),
        Err(WireError::InvalidTag)
    );
    assert_eq!(
        try_from_slice::<A>(&[1, 0, 0, 0, 0, 1, 0, 0, 0, 9]),
        Err(WireError::TrailingBytes)
    );
    assert_eq!(try_from_slice::<A>(&[1, 0, 0, 0, 3]), Err(WireError::InvalidTag));
    assert_eq!(try_from_slice::<A>(&[0, 0, 0, 0, 0]), Err(WireError::TrailingBytes));
    assert_eq!(
        try_from_slice::<A>(&[0xff, 0xff, 0xff, 0xff, 2]),
        Err(WireError::UnexpectedEnd)
    );
    type M = MapAction<LightSparseMock, LightSparseMock>;
    assert_eq!(
        try_from_slice::<M>(&[1, 0, 0, 0, 1, 1, 0, 0, 0, 2]),
        Err(WireError::InvalidTag)
    );
    assert_eq!(try_from_slice::<M>(&[1, 0, 0, 0, 5]), Err(WireError::InvalidTag));
}

#[test]
fn reading_need_not_give_the_bytes_back_but_writing_does() {
    // Every list that is read is written back to the same bytes, and read
    // again gives the same list.
    let bytes = vec![2u8, 0, 0, 0, 2, 9, 0, 0, 0, 1, 3, 0, 0, 0];
    let actions = try_from_slice::<SetAction<LightDenseMock>>(&bytes).unwrap();
    assert_eq!(
        actions,
        vec![
            SetAction::Contains(LightDenseMock::new(9)),
            SetAction::Remove(LightDenseMock::new(3))
        ]
    );
    assert_eq!(try_to_vec(&actions), Ok(bytes));
}
