use collections_bench::comparison::{Comparison, Order};
use collections_bench::generator::Discipline;
use collections_bench::lookup_map::MapAction;
use collections_bench::runner::{Event, Failure};
use collections_bench::scenario::workload;
use collections_bench::set::SetAction;
use collections_bench::types::{HeavyMock, LightDenseMock};
use collections_bench::wire::{try_from_slice, try_to_vec};

fn deployed() -> Event {
    Event::Deployed { candidate_up: true, baseline_up: true }
}

fn submitted(candidate: u64, baseline: u64) -> Event {
    Event::Submitted { candidate: Some(candidate), baseline: Some(baseline) }
}

#[test]
fn comparison_submits_the_workload_of_its_seed() {
    type A = SetAction<HeavyMock>;
    let trials: Vec<Vec<A>> = workload(0, 24, Discipline::CountBounded(64));
    let mut comparison = Comparison::new(0, 24, Discipline::CountBounded(64));
    let mut order = comparison.step::<A>(deployed());
    let mut candidate = 0u64;
    let mut baseline = 0u64;
    for (i, trial) in trials.iter().enumerate() {
        match &order {
            Order::Submit(bytes) => {
                assert_eq!(*bytes, try_to_vec(trial).unwrap());
                let read: Vec<A> = try_from_slice(bytes).unwrap();
                assert_eq!(read.len(), 64);
                assert_eq!(read, *trial);
            }
            other => panic!("trial {} is not submitted: {:?}", i, other),
        }
        let costs = (bytes_cost(&order), 7 * i as u64);
        candidate += costs.0;
        baseline += costs.1;
        order = comparison.step::<A>(submitted(costs.0, costs.1));
    }
    assert_eq!(order, Order::Finish(candidate, baseline));
    assert_eq!(
        comparison.step::<A>(submitted(1, 1)),
        Order::Abort(Failure::OutOfTurn)
    );
}

fn bytes_cost(order: &Order) -> u64 {
    match order {
        Order::Submit(bytes) => bytes.len() as u64,
        _ => 0,
    }
}

#[test]
fn comparison_under_take_rest() {
    type A = MapAction<HeavyMock, HeavyMock>;
    let trials: Vec<Vec<A>> = workload(42, 24, Discipline::TakeRest);
    let mut comparison = Comparison::new(42, 24, Discipline::TakeRest);
    let mut order = comparison.step::<A>(deployed());
    for trial in &trials {
        assert_eq!(order, Order::Submit(try_to_vec(trial).unwrap()));
        order = comparison.step::<A>(submitted(3, 5));
    }
    assert_eq!(order, Order::Finish(72, 120));
}

#[test]
fn comparison_is_repeatable() {
    type A = SetAction<LightDenseMock>;
    let run = |seed: u64| -> Vec<Order> {
        let mut comparison = Comparison::new(seed, 5, Discipline::CountBounded(64));
        let mut orders = vec![comparison.step::<A>(deployed())];
        for _ in 0..5 {
            orders.push(comparison.step::<A>(submitted(1, 2)));
        }
        orders
    };
    assert_eq!(run(0), run(0));
    assert_ne!(run(0), run(1));
    assert_eq!(run(0).last(), Some(&Order::Finish(5, 10)));
}

#[test]
fn comparison_failures() {
    type A = SetAction<LightDenseMock>;
    let mut comparison = Comparison::new(0, 24, Discipline::TakeRest);
    assert_eq!(
        comparison.step::<A>(Event::Deployed { candidate_up: true, baseline_up: false }),
        Order::Abort(Failure::Deployment)
    );
    let mut comparison = Comparison::new(0, 24, Discipline::TakeRest);
    assert!(matches!(comparison.step::<A>(deployed()), Order::Submit(_)));
    assert_eq!(
        comparison.step::<A>(Event::Submitted { candidate: Some(1), baseline: None }),
        Order::Abort(Failure::Submission)
    );
    let mut comparison = Comparison::new(0, 24, Discipline::TakeRest);
    assert_eq!(
        comparison.step::<A>(submitted(1, 1)),
        Order::Abort(Failure::OutOfTurn)
    );
    let mut comparison = Comparison::new(0, 24, Discipline::TakeRest);
    assert!(matches!(comparison.step::<A>(deployed()), Order::Submit(_)));
    assert!(matches!(comparison.step::<A>(submitted(u64::MAX, 0)), Order::Submit(_)));
    assert_eq!(
        comparison.step::<A>(submitted(1, 0)),
        Order::Abort(Failure::CostOverflow)
    );
    let mut comparison = Comparison::new(0, 0, Discipline::CountBounded(3));
    assert_eq!(comparison.step::<A>(deployed()), Order::Finish(0, 0));
}
