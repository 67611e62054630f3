use zip_cracker::coordination::CoordinationState;
use zip_cracker::oracle::Verdict;
use zip_cracker::workers::{worker_on_verdict, WorkerAction};

#[test]
fn fresh_state_has_nothing() {
    let state = CoordinationState::new();
    assert!(!state.is_found());
    assert_eq!(state.found_password(), None);
}

#[test]
fn only_the_first_caller_wins_the_transition() {
    let mut state = CoordinationState::new();
    assert!(state.try_set_found(String::from("first")));
    assert!(!state.try_set_found(String::from("second")));
    assert!(!state.try_set_found(String::from("third")));
    assert!(state.is_found());
    assert_eq!(state.found_password(), Some(String::from("first")));
}

#[test]
fn losing_attempts_never_touch_the_slot() {
    let mut state = CoordinationState::new();
    assert!(state.try_set_found(String::from("winner")));
    for i in 0..100 {
        assert!(!state.try_set_found(format!("loser{}", i)));
        assert_eq!(state.found_password(), Some(String::from("winner")));
    }
}

#[test]
fn cancel_is_idempotent_and_preserves_the_slot() {
    let mut state = CoordinationState::new();
    state.cancel();
    assert!(state.is_found());
    assert_eq!(state.found_password(), None);
    state.cancel();
    assert!(state.is_found());

    let mut state = CoordinationState::new();
    assert!(state.try_set_found(String::from("pw")));
    state.cancel();
    assert_eq!(state.found_password(), Some(String::from("pw")));
}

#[test]
fn no_attempt_wins_after_cancellation() {
    let mut state = CoordinationState::new();
    state.cancel();
    assert!(!state.try_set_found(String::from("late")));
    assert_eq!(state.found_password(), None);
}

#[test]
fn two_concurrent_matches_yield_a_single_publication() {
    // two workers whose candidates both match, arbitrated in some order:
    // exactly one publishes, and the slot holds that one value
    let mut state = CoordinationState::new();
    let first = worker_on_verdict(Verdict::Match, String::from("alpha"), &mut state);
    let second = worker_on_verdict(Verdict::Match, String::from("beta"), &mut state);
    assert!(matches!(first, WorkerAction::PublishAndHalt));
    assert!(matches!(second, WorkerAction::Halt));
    assert_eq!(state.found_password(), Some(String::from("alpha")));
}
