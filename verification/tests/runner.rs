use collections_bench::runner::{Directive, Event, Failure, Phase, Runner, DEFAULT_TRIALS};

fn deployed() -> Event {
    Event::Deployed { candidate_up: true, baseline_up: true }
}

fn submitted(candidate: u64, baseline: u64) -> Event {
    Event::Submitted { candidate: Some(candidate), baseline: Some(baseline) }
}

#[test]
fn default_trials() {
    assert_eq!(DEFAULT_TRIALS, 24);
}

#[test]
fn full_comparison() {
    let mut runner = Runner::new(DEFAULT_TRIALS);
    assert_eq!(runner.phase(), Phase::Uninitialized);
    assert_eq!(runner.step(deployed()), Directive::Submit);
    assert_eq!(runner.phase(), Phase::Deployed);
    let mut candidate = 0u64;
    let mut baseline = 0u64;
    for trial in 0..24u64 {
        assert_eq!(runner.trials_done(), trial as usize);
        let costs = (1000 + trial, 2000 + 3 * trial);
        candidate += costs.0;
        baseline += costs.1;
        let directive = runner.step(submitted(costs.0, costs.1));
        if trial < 23 {
            assert_eq!(directive, Directive::Submit);
            assert_eq!(runner.phase(), Phase::Active);
        } else {
            assert_eq!(directive, Directive::Finish(candidate, baseline));
            assert_eq!(directive, Directive::Finish(24_276, 48_828));
            assert_eq!(runner.phase(), Phase::Terminated);
        }
    }
    assert_eq!(runner.trials_done(), 24);
    assert_eq!(runner.step(submitted(1, 1)), Directive::Abort(Failure::OutOfTurn));
    assert_eq!(runner.step(deployed()), Directive::Abort(Failure::OutOfTurn));
    assert_eq!(runner.trials_done(), 24);
}

#[test]
fn one_trial() {
    let mut runner = Runner::new(1);
    assert_eq!(runner.step(deployed()), Directive::Submit);
    assert_eq!(runner.step(submitted(7, 9)), Directive::Finish(7, 9));
    assert_eq!(runner.phase(), Phase::Terminated);
}

#[test]
fn no_trial() {
    let mut runner = Runner::new(0);
    assert_eq!(runner.step(deployed()), Directive::Finish(0, 0));
    assert_eq!(runner.phase(), Phase::Terminated);
}

#[test]
fn failed_deployment_is_fatal() {
    for (candidate_up, baseline_up) in [(false, true), (true, false), (false, false)] {
        let mut runner = Runner::new(24);
        assert_eq!(
            runner.step(Event::Deployed { candidate_up, baseline_up }),
            Directive::Abort(Failure::Deployment)
        );
        assert_eq!(runner.phase(), Phase::Terminated);
        assert_eq!(runner.step(submitted(1, 1)), Directive::Abort(Failure::OutOfTurn));
    }
}

#[test]
fn failed_submission_is_fatal() {
    for (candidate, baseline) in [(None, Some(1u64)), (Some(1u64), None), (None, None)] {
        let mut runner = Runner::new(24);
        assert_eq!(runner.step(deployed()), Directive::Submit);
        assert_eq!(runner.step(submitted(5, 6)), Directive::Submit);
        assert_eq!(
            runner.step(Event::Submitted { candidate, baseline }),
            Directive::Abort(Failure::Submission)
        );
        assert_eq!(runner.phase(), Phase::Terminated);
        assert_eq!(runner.trials_done(), 1);
        assert_eq!(runner.step(submitted(1, 1)), Directive::Abort(Failure::OutOfTurn));
    }
}

#[test]
fn failed_first_submission_is_fatal() {
    let mut runner = Runner::new(2);
    assert_eq!(runner.step(deployed()), Directive::Submit);
    assert_eq!(
        runner.step(Event::Submitted { candidate: None, baseline: Some(3) }),
        Directive::Abort(Failure::Submission)
    );
    assert_eq!(runner.trials_done(), 0);
}

#[test]
fn events_out_of_turn() {
    let mut runner = Runner::new(24);
    assert_eq!(runner.step(submitted(1, 1)), Directive::Abort(Failure::OutOfTurn));
    assert_eq!(runner.phase(), Phase::Terminated);
    let mut runner = Runner::new(24);
    assert_eq!(runner.step(deployed()), Directive::Submit);
    assert_eq!(runner.step(deployed()), Directive::Abort(Failure::OutOfTurn));
    assert_eq!(runner.phase(), Phase::Terminated);
    let mut runner = Runner::new(24);
    assert_eq!(runner.step(deployed()), Directive::Submit);
    assert_eq!(runner.step(submitted(1, 1)), Directive::Submit);
    assert_eq!(runner.step(deployed()), Directive::Abort(Failure::OutOfTurn));
}

#[test]
fn cost_overflow_is_fatal() {
    let mut runner = Runner::new(24);
    assert_eq!(runner.step(deployed()), Directive::Submit);
    assert_eq!(runner.step(submitted(u64::MAX, 1)), Directive::Submit);
    assert_eq!(
        runner.step(submitted(1, 1)),
        Directive::Abort(Failure::CostOverflow)
    );
    assert_eq!(runner.phase(), Phase::Terminated);
    assert_eq!(runner.trials_done(), 1);
}

#[test]
fn abandoned_comparison_is_over() {
    let mut runner = Runner::new(24);
    assert_eq!(runner.step(deployed()), Directive::Submit);
    assert_eq!(runner.step(submitted(4, 5)), Directive::Submit);
    runner.abandon();
    assert_eq!(runner.phase(), Phase::Terminated);
    assert_eq!(runner.trials_done(), 1);
    assert_eq!(runner.step(submitted(1, 1)), Directive::Abort(Failure::OutOfTurn));
}
