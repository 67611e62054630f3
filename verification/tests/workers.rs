use zip_cracker::coordination::CoordinationState;
use zip_cracker::oracle::{classify_attempt, Verdict};
use zip_cracker::workers::{
    feeder_next, planned_worker_count, worker_next, worker_on_verdict, FeederProgress, FeederStep,
    WorkerAction, WorkerStep,
};

#[test]
fn feeder_stops_as_soon_as_cancellation_is_observed() {
    assert!(matches!(
        feeder_next(true, Some(String::from("next"))),
        FeederStep::Stop
    ));
    assert!(matches!(feeder_next(true, None), FeederStep::Stop));
}

#[test]
fn feeder_sends_each_line_until_the_input_ends() {
    match feeder_next(false, Some(String::from("hunter2"))) {
        FeederStep::Send(l) => assert_eq!(l, "hunter2"),
        _ => panic!("expected a send"),
    }
    assert!(matches!(feeder_next(false, None), FeederStep::Stop));
}

#[test]
fn worker_halts_on_cancellation_or_disconnect() {
    assert!(matches!(
        worker_next(true, Some(String::from("queued"))),
        WorkerStep::Halt
    ));
    assert!(matches!(worker_next(true, None), WorkerStep::Halt));
    assert!(matches!(worker_next(false, None), WorkerStep::Halt));
}

#[test]
fn worker_tests_what_it_received() {
    match worker_next(false, Some(String::from("guess"))) {
        WorkerStep::Test(c) => assert_eq!(c, "guess"),
        _ => panic!("expected a test"),
    }
}

#[test]
fn a_miss_continues_and_a_fault_halts_fatally() {
    let mut state = CoordinationState::new();
    assert!(matches!(
        worker_on_verdict(Verdict::NoMatch, String::from("x"), &mut state),
        WorkerAction::Continue
    ));
    assert!(!state.is_found());
    assert!(matches!(
        worker_on_verdict(Verdict::Fatal, String::from("x"), &mut state),
        WorkerAction::FatalHalt
    ));
    assert!(!state.is_found());
    assert_eq!(state.found_password(), None);
}

#[test]
fn progress_counts_pushes() {
    let mut progress = FeederProgress::new();
    assert_eq!(progress.sent_so_far(), 0);
    progress.record_push();
    progress.record_push();
    progress.record_push();
    assert_eq!(progress.sent_so_far(), 3);
}

#[test]
fn one_worker_is_planned_per_physical_core_at_least_one() {
    assert!(planned_worker_count() >= 1);
}

#[test]
fn attempts_are_classified_by_their_raw_outcome() {
    assert_eq!(classify_attempt(false, false, false), Verdict::Fatal);
    assert_eq!(classify_attempt(true, false, false), Verdict::NoMatch);
    assert_eq!(classify_attempt(true, true, false), Verdict::NoMatch);
    assert_eq!(classify_attempt(true, true, true), Verdict::Match);
}
