use zip_cracker::coordination::CoordinationState;
use zip_cracker::engine::{
    dispatch, new_run, probe_indicates_encrypted, run_brute_force, run_dictionary,
    scan_candidates, settle, start_run, Phase, SearchOutcome,
};
use zip_cracker::oracle::{FaultyOracle, FixedOracle, Oracle, ScriptedOracle, Verdict};

fn dictionary_of_1000_with_password_at_line_42(password: &str) -> Vec<String> {
    let mut lines = Vec::new();
    for i in 0..1000 {
        if i == 41 {
            lines.push(String::from(password));
        } else {
            lines.push(format!("word{}", i));
        }
    }
    lines
}

#[test]
fn dictionary_reports_the_planted_password() {
    let oracle = FixedOracle::new(String::from("abc123"));
    let lines = dictionary_of_1000_with_password_at_line_42("abc123");
    match run_dictionary(&oracle, true, &lines) {
        Phase::Found(pw) => assert_eq!(pw, "abc123"),
        _ => panic!("expected the planted password to be reported"),
    }
}

#[test]
fn dictionary_without_the_password_reports_not_found() {
    let oracle = FixedOracle::new(String::from("not-in-the-list"));
    let mut lines = Vec::new();
    for i in 0..500 {
        lines.push(format!("word{}", i));
    }
    assert!(matches!(run_dictionary(&oracle, true, &lines), Phase::NotFound));
}

#[test]
fn empty_dictionary_reports_not_found() {
    let oracle = FixedOracle::new(String::from("anything"));
    let lines: Vec<String> = Vec::new();
    assert!(matches!(run_dictionary(&oracle, true, &lines), Phase::NotFound));
}

#[test]
fn unprotected_archive_is_fatal_before_any_test() {
    let oracle = FixedOracle::new(String::from("abc123"));
    let lines = vec![String::from("abc123")];
    assert!(matches!(run_dictionary(&oracle, false, &lines), Phase::Fatal));
    assert!(matches!(run_brute_force(&oracle, false, 2), Phase::Fatal));
}

#[test]
fn unreadable_archive_is_fatal_mid_run() {
    let oracle = FaultyOracle::new();
    let lines = vec![String::from("aa"), String::from("bb")];
    assert!(matches!(run_dictionary(&oracle, true, &lines), Phase::Fatal));
    assert!(matches!(run_brute_force(&oracle, true, 2), Phase::Fatal));
}

#[test]
fn brute_force_finds_length_three_password() {
    let oracle = FixedOracle::new(String::from("Zz9"));
    match run_brute_force(&oracle, true, 8) {
        Phase::Found(pw) => assert_eq!(pw, "Zz9"),
        _ => panic!("expected the password to be found at length 3"),
    }
}

#[test]
fn brute_force_exhausts_short_lengths_without_match() {
    let oracle = FixedOracle::new(String::from("toolong"));
    assert!(matches!(run_brute_force(&oracle, true, 2), Phase::NotFound));
}

#[test]
fn brute_force_ignores_words_outside_the_alphabet() {
    let oracle = FixedOracle::new(String::from("a_b"));
    assert!(matches!(run_brute_force(&oracle, true, 3), Phase::NotFound));
}

#[test]
fn scan_reports_the_first_match_and_publishes_it() {
    let oracle = FixedOracle::new(String::from("bb"));
    let candidates = vec![String::from("aa"), String::from("bb"), String::from("cc")];
    let mut state = CoordinationState::new();
    match scan_candidates(&oracle, &candidates, &mut state) {
        SearchOutcome::Found(p) => assert_eq!(p, "bb"),
        _ => panic!("expected a match"),
    }
    assert!(state.is_found());
    assert_eq!(state.found_password(), Some(String::from("bb")));
}

#[test]
fn scan_on_a_missing_password_exhausts_and_leaves_the_state_fresh() {
    let oracle = FixedOracle::new(String::from("zz"));
    let candidates = vec![String::from("aa"), String::from("bb")];
    let mut state = CoordinationState::new();
    assert!(matches!(
        scan_candidates(&oracle, &candidates, &mut state),
        SearchOutcome::Exhausted
    ));
    assert!(!state.is_found());
    assert_eq!(state.found_password(), None);
}

#[test]
fn coordinator_phases_follow_the_lifecycle() {
    let p = new_run();
    assert!(matches!(p, Phase::Idle));
    assert!(matches!(start_run(new_run(), false), Phase::Fatal));
    let p = start_run(p, true);
    assert!(matches!(p, Phase::Dispatching));
    let p = dispatch(p);
    assert!(matches!(p, Phase::WaitingForResult));

    let mut state = CoordinationState::new();
    let q = settle(p, &mut state, false);
    assert!(matches!(q, Phase::NotFound));
    assert!(state.is_found(), "settling must fire cancellation");
}

#[test]
fn settle_reports_the_slot_and_a_fatal_report_trumps_it() {
    let mut state = CoordinationState::new();
    assert!(state.try_set_found(String::from("pw")));
    let q = settle(dispatch(start_run(new_run(), true)), &mut state, false);
    match q {
        Phase::Found(pw) => assert_eq!(pw, "pw"),
        _ => panic!("expected the slot's value"),
    }

    let mut state = CoordinationState::new();
    assert!(state.try_set_found(String::from("pw")));
    let q = settle(dispatch(start_run(new_run(), true)), &mut state, true);
    assert!(matches!(q, Phase::Fatal));
}

#[test]
fn probe_recognizes_only_the_password_demand() {
    assert!(probe_indicates_encrypted(Some(String::from(
        "Password required to decrypt file"
    ))));
    assert!(!probe_indicates_encrypted(Some(String::from(
        "Invalid Zip archive"
    ))));
    assert!(!probe_indicates_encrypted(None));
}

#[test]
fn two_matching_candidates_yield_a_single_report() {
    // two candidates of the list both unlock the archive: the engine still
    // reports exactly one password, the first the arbitration reaches
    let oracle = ScriptedOracle::new(vec![String::from("early"), String::from("late")]);
    let lines = vec![
        String::from("miss1"),
        String::from("early"),
        String::from("miss2"),
        String::from("late"),
    ];
    match run_dictionary(&oracle, true, &lines) {
        Phase::Found(pw) => assert_eq!(pw, "early"),
        _ => panic!("expected a single found report"),
    }

    let mut state = CoordinationState::new();
    match scan_candidates(&oracle, &lines, &mut state) {
        SearchOutcome::Found(p) => assert_eq!(p, "early"),
        _ => panic!("expected a match"),
    }
    assert_eq!(state.found_password(), Some(String::from("early")));
}

#[test]
fn oracle_verdicts_are_scripted() {
    let oracle = FixedOracle::new(String::from("pw"));
    assert_eq!(oracle.test(&String::from("pw")), Verdict::Match);
    assert_eq!(oracle.test(&String::from("px")), Verdict::NoMatch);
    let faulty = FaultyOracle::new();
    assert_eq!(faulty.test(&String::from("pw")), Verdict::Fatal);

    let scripted = ScriptedOracle::new(vec![String::from("one"), String::from("two")]);
    assert_eq!(scripted.test(&String::from("one")), Verdict::Match);
    assert_eq!(scripted.test(&String::from("two")), Verdict::Match);
    assert_eq!(scripted.test(&String::from("three")), Verdict::NoMatch);
}
