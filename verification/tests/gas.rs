use collections_bench::gas::{
    accumulate, check_pinned, check_within, GasAccumulator, GasError, Verdict,
};

#[test]
fn accumulate_sums_each_side() {
    assert_eq!(accumulate(&vec![]), Ok((0, 0)));
    assert_eq!(accumulate(&vec![(5, 7)]), Ok((5, 7)));
    assert_eq!(
        accumulate(&vec![(1, 10), (2, 20), (3, 30), (0, 0)]),
        Ok((6, 60))
    );
    assert_eq!(
        accumulate(&vec![(u64::MAX - 1, 0), (1, u64::MAX)]),
        Ok((u64::MAX, u64::MAX))
    );
}

#[test]
fn accumulate_overflow() {
    assert_eq!(accumulate(&vec![(u64::MAX, 0), (1, 0)]), Err(GasError::Overflow));
    assert_eq!(accumulate(&vec![(0, u64::MAX), (0, 1)]), Err(GasError::Overflow));
    assert_eq!(
        accumulate(&vec![(1, 1), (u64::MAX, 1), (0, 0)]),
        Err(GasError::Overflow)
    );
}

#[test]
fn accumulate_in_any_order() {
    let trials = vec![(9u64, 1u64), (4, 2), (7, 3), (4, 2), (0, 11)];
    let mut turned = trials.clone();
    turned.reverse();
    let mut rotated = trials.clone();
    rotated.rotate_left(2);
    assert_eq!(accumulate(&trials), Ok((24, 19)));
    assert_eq!(accumulate(&turned), Ok((24, 19)));
    assert_eq!(accumulate(&rotated), Ok((24, 19)));
}

#[test]
fn totals_never_shrink() {
    let mut acc = GasAccumulator::new();
    assert_eq!(acc.totals(), (0, 0));
    let mut before = acc.totals();
    for cost in [(3u64, 0u64), (0, 0), (10, 1), (0, 5), (1 << 40, 1 << 41)] {
        assert_eq!(acc.record(cost.0, cost.1), Ok(()));
        let after = acc.totals();
        assert!(after.0 >= before.0 && after.1 >= before.1);
        assert_eq!(after, (before.0 + cost.0, before.1 + cost.1));
        before = after;
    }
    assert_eq!(acc.totals(), (13 + (1 << 40), 6 + (1 << 41)));
}

#[test]
fn record_that_overflows_changes_nothing() {
    let mut acc = GasAccumulator::new();
    assert_eq!(acc.record(u64::MAX - 5, 9), Ok(()));
    assert_eq!(acc.record(6, 1), Err(GasError::Overflow));
    assert_eq!(acc.totals(), (u64::MAX - 5, 9));
    assert_eq!(acc.record(1, u64::MAX - 8), Err(GasError::Overflow));
    assert_eq!(acc.totals(), (u64::MAX - 5, 9));
    assert_eq!(acc.record(5, u64::MAX - 9), Ok(()));
    assert_eq!(acc.totals(), (u64::MAX, u64::MAX));
}

#[test]
fn pinned_sums() {
    assert_eq!(
        check_pinned((635133853758771, 912612606379644), (635133853758771, 912612606379644)),
        Verdict::Accepted
    );
    assert_eq!(
        check_pinned((635133853758771, 912612606379644), (635133853758771, 912612606379645)),
        Verdict::Mismatch { candidate: 635133853758771, baseline: 912612606379644 }
    );
    assert_eq!(
        check_pinned((1, 2), (2, 1)),
        Verdict::Mismatch { candidate: 1, baseline: 2 }
    );
}

#[test]
fn sums_within_a_delta() {
    assert_eq!(check_within((10, 10), 0), Verdict::Accepted);
    assert_eq!(check_within((10, 13), 3), Verdict::Accepted);
    assert_eq!(check_within((13, 10), 3), Verdict::Accepted);
    assert_eq!(
        check_within((10, 14), 3),
        Verdict::Mismatch { candidate: 10, baseline: 14 }
    );
    assert_eq!(
        check_within((14, 10), 3),
        Verdict::Mismatch { candidate: 14, baseline: 10 }
    );
    assert_eq!(check_within((0, u64::MAX), u64::MAX), Verdict::Accepted);
    assert_eq!(
        check_within((u64::MAX, 0), u64::MAX - 1),
        Verdict::Mismatch { candidate: u64::MAX, baseline: 0 }
    );
}
