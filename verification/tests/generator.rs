use collections_bench::draw::arbitrary_take_rest;
use collections_bench::generator::{Discipline, Generator, BUFFER_SIZE};
use collections_bench::lookup_map::MapAction;
use collections_bench::scenario::{
    insert_remove_trial, insert_same_trial, percentage_trial, workload,
};
use collections_bench::set::SetAction;
use collections_bench::types::{HeavyMock, LightDenseMock, LightSparseMock};
use rand::{RngCore, SeedableRng};
use rand_xorshift::XorShiftRng;

fn inserted<T: Clone>(action: &SetAction<T>) -> Option<T> {
    match action {
        SetAction::Insert(v) => Some(v.clone()),
        _ => None,
    }
}

#[test]
fn buffer_size() {
    assert_eq!(BUFFER_SIZE, 4096);
}

#[test]
fn count_bounded_gives_exactly_the_count() {
    for n in [0usize, 1, 2, 63, 64, 65, 128, 512, 1000] {
        let mut generator = Generator::new(0);
        let actions: Vec<SetAction<HeavyMock>> = generator.generate_n_elements(n);
        assert_eq!(actions.len(), n);
        let values: Vec<LightDenseMock> = generator.generate_n_elements(n);
        assert_eq!(values.len(), n);
        let actions: Vec<MapAction<HeavyMock, HeavyMock>> = generator.generate_n_elements(n);
        assert_eq!(actions.len(), n);
    }
}

#[test]
fn same_seed_same_workload() {
    let first: Vec<Vec<SetAction<HeavyMock>>> = workload(0, 24, Discipline::CountBounded(64));
    let second: Vec<Vec<SetAction<HeavyMock>>> = workload(0, 24, Discipline::CountBounded(64));
    assert_eq!(first.len(), 24);
    assert!(first.iter().all(|trial| trial.len() == 64));
    assert_eq!(first, second);
    let other: Vec<Vec<SetAction<HeavyMock>>> = workload(1, 24, Discipline::CountBounded(64));
    assert_ne!(first, other);
}

#[test]
fn same_seed_same_take_rest_workload() {
    let first: Vec<Vec<MapAction<HeavyMock, HeavyMock>>> = workload(0, 24, Discipline::TakeRest);
    let second: Vec<Vec<MapAction<HeavyMock, HeavyMock>>> = workload(0, 24, Discipline::TakeRest);
    assert_eq!(first.len(), 24);
    assert_eq!(first, second);
    assert!(first.iter().any(|trial| !trial.is_empty()));
    let none: Vec<Vec<SetAction<LightSparseMock>>> = workload(7, 0, Discipline::TakeRest);
    assert!(none.is_empty());
}

#[test]
fn workload_is_the_trials_one_after_the_other() {
    let made: Vec<Vec<SetAction<LightSparseMock>>> = workload(5, 3, Discipline::CountBounded(10));
    let mut generator = Generator::new(5);
    for trial in made {
        let again: Vec<SetAction<LightSparseMock>> = generator.generate_n_elements(10);
        assert_eq!(trial, again);
    }
    let made: Vec<Vec<SetAction<LightSparseMock>>> = workload(5, 3, Discipline::TakeRest);
    let mut generator = Generator::new(5);
    for trial in made {
        let again: Vec<SetAction<LightSparseMock>> = generator.next_take_rest();
        assert_eq!(trial, again);
    }
}

#[test]
fn take_rest_round_draws_from_the_stream() {
    let mut rng = XorShiftRng::seed_from_u64(3);
    let mut generator = Generator::new(3);
    for _ in 0..5 {
        let mut buf = vec![0u8; 4096];
        rng.fill_bytes(&mut buf);
        let len = (rng.next_u64() % 4096) as usize;
        let expected: Vec<SetAction<LightSparseMock>> = arbitrary_take_rest(&buf[..len]);
        let values: Vec<SetAction<LightSparseMock>> = generator.next_take_rest();
        assert_eq!(values, expected);
        // Every action takes eight bytes, and what is left over is less.
        assert_eq!(values.len(), len / 8);
    }
}

#[test]
fn round_uses_at_least_the_capacity() {
    // Looks for a stream whose first number, reduced to the buffer, is less
    // than the eight bytes of one action.
    let mut seed = 0u64;
    loop {
        let mut rng = XorShiftRng::seed_from_u64(seed);
        let mut buf = vec![0u8; 4096];
        rng.fill_bytes(&mut buf);
        let picked = (rng.next_u64() % 4096) as usize;
        if picked < 8 {
            let expected: Vec<SetAction<LightDenseMock>> = arbitrary_take_rest(&buf[..8]);
            assert_eq!(expected.len(), 1);
            let mut generator = Generator::new(seed);
            let values: Vec<SetAction<LightDenseMock>> = generator.next_round();
            assert_eq!(values, expected);
            let mut generator = Generator::new(seed);
            let none: Vec<SetAction<LightDenseMock>> = generator.next_take_rest();
            assert!(none.is_empty());
            let mut generator = Generator::new(seed);
            let value: LightDenseMock = generator.next_value();
            let first: Vec<LightDenseMock> = arbitrary_take_rest(&buf[..4]);
            assert_eq!(vec![value], first);
            break;
        }
        seed += 1;
    }
}

// The recurrence of the stream, written out: the state is four words, a
// step mixes the first word into the last and moves the others up, and a
// 64-bit number is two steps, the low half first.
fn step(words: &mut [u32; 4]) -> u32 {
    let t = words[0] ^ (words[0] << 11);
    let last = words[3] ^ (words[3] >> 19) ^ (t ^ (t >> 8));
    *words = [words[1], words[2], words[3], last];
    last
}

#[test]
fn stream_numbers_follow_the_recurrence() {
    let states: [[u32; 4]; 4] = [
        [1, 2, 3, 4],
        [0xffff_ffff, 0, 0x8000_0000, 0x1234_5678],
        [0xdead_beef, 0xcafe_f00d, 0x0bad_5eed, 0xffff_ffff],
        [0, 0, 0, 1],
    ];
    for state in states {
        let mut seed = [0u8; 16];
        for (i, word) in state.iter().enumerate() {
            seed[4 * i..4 * i + 4].copy_from_slice(&word.to_le_bytes());
        }
        let mut rng = XorShiftRng::from_seed(seed);
        let mut words = state;
        for _ in 0..100 {
            let low = step(&mut words) as u64;
            let high = step(&mut words) as u64;
            assert_eq!(rng.next_u64(), (high << 32) | low);
        }
    }
}

#[test]
fn count_bounded_is_the_rounds_cut_to_the_count() {
    let mut rounds = Generator::new(11);
    let mut expected: Vec<MapAction<HeavyMock, LightSparseMock>> = Vec::new();
    while expected.len() < 700 {
        expected.append(&mut rounds.next_round());
    }
    expected.truncate(700);
    let mut generator = Generator::new(11);
    let actions: Vec<MapAction<HeavyMock, LightSparseMock>> = generator.generate_n_elements(700);
    assert_eq!(actions, expected);
    // Both streams stand at the same place afterwards.
    let a: Vec<LightSparseMock> = rounds.next_round();
    let b: Vec<LightSparseMock> = generator.next_round();
    assert_eq!(a, b);
}

#[test]
fn refill_moves_the_stream_by_one_buffer() {
    let mut rng = XorShiftRng::seed_from_u64(0);
    let mut buf = vec![0u8; 4096];
    rng.fill_bytes(&mut buf);
    rng.fill_bytes(&mut buf);
    let len = (rng.next_u64() % 4096) as usize;
    let expected: Vec<LightSparseMock> = arbitrary_take_rest(&buf[..len]);
    let mut generator = Generator::new(0);
    generator.refill();
    let values: Vec<LightSparseMock> = generator.next_take_rest();
    assert_eq!(values, expected);
}

#[test]
fn shuffle_rearranges() {
    let mut generator = Generator::new(2);
    let mut items: Vec<u32> = (0..100).collect();
    generator.shuffle(&mut items);
    assert_ne!(items, (0..100).collect::<Vec<u32>>());
    let mut sorted = items.clone();
    sorted.sort();
    assert_eq!(sorted, (0..100).collect::<Vec<u32>>());
    let mut again = Generator::new(2);
    let mut others: Vec<u32> = (0..100).collect();
    again.shuffle(&mut others);
    assert_eq!(items, others);
}

#[test]
fn insert_same_inserts_the_blank_value() {
    let actions: Vec<SetAction<LightSparseMock>> = insert_same_trial(64);
    assert_eq!(actions.len(), 64);
    assert!(actions
        .iter()
        .all(|a| *a == SetAction::Insert(LightSparseMock::default())));
    let actions: Vec<SetAction<HeavyMock>> = insert_same_trial(3);
    assert_eq!(
        actions,
        vec![
            SetAction::Insert(HeavyMock::default()),
            SetAction::Insert(HeavyMock::default()),
            SetAction::Insert(HeavyMock::default())
        ]
    );
    let none: Vec<SetAction<HeavyMock>> = insert_same_trial(0);
    assert!(none.is_empty());
}

#[test]
fn insert_remove_removes_what_it_inserted() {
    for n in [0usize, 1, 2, 64, 65, 128] {
        let mut generator = Generator::new(0);
        generator.refill();
        let actions: Vec<SetAction<LightSparseMock>> = insert_remove_trial(&mut generator, n);
        let half = n / 2;
        assert_eq!(actions.len(), 2 * half);
        let mut domain = Generator::new(0);
        domain.refill();
        let expected: Vec<LightSparseMock> = domain.generate_n_elements(half);
        let mut inserts: Vec<LightSparseMock> = Vec::new();
        for action in &actions[..half] {
            inserts.push(inserted(action).unwrap());
        }
        assert_eq!(inserts, expected);
        let mut removes: Vec<LightSparseMock> = Vec::new();
        for action in &actions[half..] {
            match action {
                SetAction::Remove(v) => removes.push(v.clone()),
                other => panic!("not a removal: {:?}", other),
            }
        }
        let mut shuffled = expected.clone();
        domain.shuffle(&mut shuffled);
        assert_eq!(removes, shuffled);
        inserts.sort();
        removes.sort();
        assert_eq!(inserts, removes);
    }
}

#[test]
fn percentage_trial_hits_and_misses() {
    for (percentage, hits) in [(0usize, 0usize), (50, 16), (75, 24), (100, 32), (1, 0), (99, 31)] {
        let mut generator = Generator::new(0);
        generator.refill();
        let actions: Vec<SetAction<LightSparseMock>> =
            percentage_trial(&mut generator, 64, percentage);
        assert_eq!(actions.len(), 64);
        let domain: Vec<LightSparseMock> =
            actions[..32].iter().map(|a| inserted(a).unwrap()).collect();
        let mut replay = Generator::new(0);
        replay.refill();
        let expected: Vec<LightSparseMock> = replay.generate_n_elements(32);
        assert_eq!(domain, expected);
        let mut shuffled = expected.clone();
        replay.shuffle(&mut shuffled);
        for (i, action) in actions[32..].iter().enumerate() {
            let asked = match action {
                SetAction::Contains(v) => v.clone(),
                other => panic!("not a lookup: {:?}", other),
            };
            if i < hits {
                assert_eq!(asked, shuffled[i]);
            } else {
                let fresh: LightSparseMock = replay.next_value();
                assert_eq!(asked, fresh);
            }
        }
    }
}

#[test]
fn percentage_trial_of_odd_and_small_counts() {
    let mut generator = Generator::new(9);
    let actions: Vec<SetAction<HeavyMock>> = percentage_trial(&mut generator, 7, 50);
    // Three inserts, one hit and two misses.
    assert_eq!(actions.len(), 6);
    assert!(actions[..3].iter().all(|a| matches!(a, SetAction::Insert(_))));
    assert!(actions[3..].iter().all(|a| matches!(a, SetAction::Contains(_))));
    let actions: Vec<SetAction<HeavyMock>> = percentage_trial(&mut generator, 1, 100);
    assert!(actions.is_empty());
}

#[test]
fn dense_inserts_meet_a_key_again() {
    for seed in 0..20u64 {
        let mut generator = Generator::new(seed);
        let values: Vec<LightDenseMock> = generator.generate_n_elements(64);
        assert_eq!(values.len(), 64);
        assert!(values.iter().all(|v| v.a() <= 7));
        for window in values.chunks(9) {
            if window.len() == 9 {
                let mut seen = [false; 8];
                let mut met = false;
                for v in window {
                    met = met || seen[v.a() as usize];
                    seen[v.a() as usize] = true;
                }
                assert!(met);
            }
        }
    }
}

#[test]
fn trial_under_either_discipline() {
    let mut generator = Generator::new(0);
    let mut replay = Generator::new(0);
    let counted: Vec<SetAction<HeavyMock>> = generator.next_trial(Discipline::CountBounded(64));
    let expected: Vec<SetAction<HeavyMock>> = replay.generate_n_elements(64);
    assert_eq!(counted, expected);
    let rest: Vec<SetAction<HeavyMock>> = generator.next_trial(Discipline::TakeRest);
    let expected: Vec<SetAction<HeavyMock>> = replay.next_take_rest();
    assert_eq!(rest, expected);
    let none: Vec<SetAction<HeavyMock>> = generator.next_trial(Discipline::CountBounded(0));
    assert!(none.is_empty());
}
