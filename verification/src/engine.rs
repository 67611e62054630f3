use vstd::prelude::*;

use crate::alphabet::word_in_alphabet;
use crate::coordination::{CoordModel, CoordinationState};
use crate::generator::{all_words, generate_passwords, lemma_generator_exact};
use crate::oracle::{Oracle, Verdict};
use vstd::string::StringExecFns;

verus! {

/// The message with which the archive reader refuses entry zero when, and
/// only when, a password is required.
pub open spec fn password_required_message() -> Seq<char> {
    "Password required to decrypt file"@
}

/// Decides the coordinator's precondition from the probe of entry zero:
/// `probe_error` carries the reader's refusal, if it refused. The archive
/// counts as password-protected exactly when that refusal is the reader's
/// password demand; an entry that opened without a password, or failed for
/// any other reason, is no protected archive to attack.
pub fn probe_indicates_encrypted(probe_error: Option<String>) -> (b: bool)
    ensures
        b <==> (probe_error matches Some(m) && m@ == password_required_message()),
{
    match probe_error {
        Some(m) => {
            let expected = String::from_str("Password required to decrypt file");
            m.eq(&expected)
        },
        None => false,
    }
}

/// How a scan over one candidate set ended.
pub enum SearchOutcome {
    /// The matching candidate, as published to the result slot.
    Found(String),
    /// Every candidate was tested and missed.
    Exhausted,
    /// The oracle reported the archive unreadable.
    Fatal,
}

/// The attack coordinator's lifecycle: one run moves from `Idle` through
/// `Dispatching` and `WaitingForResult` into exactly one of the three
/// terminal states.
pub enum Phase {
    Idle,
    Dispatching,
    WaitingForResult,
    /// The result slot was populated with this password.
    Found(String),
    /// The candidate space was exhausted, or the wait timed out: a normal
    /// outcome, not an error.
    NotFound,
    /// A precondition or mid-run failure of the archive itself.
    Fatal,
}

/// The first `n` candidates of the set all miss.
pub open spec fn all_miss<O: Oracle>(oracle: &O, cs: Seq<Seq<char>>, n: int) -> bool {
    forall|j: int| 0 <= j < n ==> oracle.spec_verdict(#[trigger] cs[j]) is NoMatch
}

/// No candidate of the set provokes a fatal report.
pub open spec fn no_fatal<O: Oracle>(oracle: &O, cs: Seq<Seq<char>>) -> bool {
    forall|j: int| 0 <= j < cs.len() ==> !(oracle.spec_verdict(#[trigger] cs[j]) is Fatal)
}

/// Some candidate of the set matches.
pub open spec fn has_match<O: Oracle>(oracle: &O, cs: Seq<Seq<char>>) -> bool {
    exists|j: int| 0 <= j < cs.len() && oracle.spec_verdict(#[trigger] cs[j]) is Match
}

/// Tests the candidates in order against one oracle instance, arbitrating
/// any match through the shared coordination state exactly as a worker
/// does: stop at the first match or fatal report, miss on everything else.
pub fn scan_candidates<O: Oracle>(
    oracle: &O,
    candidates: &Vec<String>,
    state: &mut CoordinationState,
) -> (out: SearchOutcome)
    requires
        old(state)@ == CoordModel::fresh(),
    ensures
        match out {
            SearchOutcome::Found(p) => exists|i: int|
                0 <= i < candidates.deep_view().len() && p@ == candidates.deep_view()[i]
                    && oracle.spec_verdict(candidates.deep_view()[i]) is Match && all_miss(
                    oracle,
                    candidates.deep_view(),
                    i,
                ),
            SearchOutcome::Exhausted => all_miss(
                oracle,
                candidates.deep_view(),
                candidates.deep_view().len() as int,
            ),
            SearchOutcome::Fatal => exists|i: int|
                0 <= i < candidates.deep_view().len() && oracle.spec_verdict(
                    candidates.deep_view()[i],
                ) is Fatal && all_miss(oracle, candidates.deep_view(), i),
        },
        match out {
            SearchOutcome::Found(p) => final(state)@.found && final(state)@.result == Some(p@),
            _ => final(state)@ == old(state)@,
        },
        final(state)@.wf(),
{
    let ghost cs = candidates.deep_view();
    let mut i: usize = 0;
    while i < candidates.len()
        invariant
            i <= candidates@.len(),
            cs == candidates.deep_view(),
            all_miss(oracle, cs, i as int),
            state@ == CoordModel::fresh(),
            old(state)@ == CoordModel::fresh(),
        decreases candidates@.len() - i,
    {
        let candidate = &candidates[i];
        assert(candidate@ == cs[i as int]);
        let v = oracle.test(candidate);
        match v {
            Verdict::Match => {
                let won = state.try_set_found(candidate.clone());
                assert(won);
                let out = SearchOutcome::Found(candidate.clone());
                assert(oracle.spec_verdict(cs[i as int]) is Match);
                return out;
            },
            Verdict::Fatal => {
                assert(oracle.spec_verdict(cs[i as int]) is Fatal);
                return SearchOutcome::Fatal;
            },
            Verdict::NoMatch => {
                assert(oracle.spec_verdict(cs[i as int]) is NoMatch);
                assert(all_miss(oracle, cs, i as int + 1));
            },
        }
        i = i + 1;
    }
    assert(cs.len() == candidates@.len());
    SearchOutcome::Exhausted
}

/// A run before anything has happened.
pub fn new_run() -> (p: Phase)
    ensures
        p is Idle,
{
    Phase::Idle
}

/// Validates the run's precondition before anything is dispatched: the
/// archive must actually be password-protected. On failure the run is
/// fatal before any source or worker starts.
pub fn start_run(p: Phase, encrypted: bool) -> (q: Phase)
    requires
        p is Idle,
    ensures
        encrypted ==> q is Dispatching,
        !encrypted ==> q is Fatal,
{
    if encrypted {
        Phase::Dispatching
    } else {
        Phase::Fatal
    }
}

/// The chosen candidate source and worker pool (or parallel scan) have been
/// started; the coordinator now waits for a result, exhaustion, or a
/// timeout.
pub fn dispatch(p: Phase) -> (q: Phase)
    requires
        p is Dispatching,
    ensures
        q is WaitingForResult,
{
    Phase::WaitingForResult
}

/// Leaves the waiting state: fires cancellation first, whatever the path
/// out, then reports what the result slot holds. A fatal mid-run report
/// trumps the slot; an empty slot is the normal not-found outcome.
pub fn settle(p: Phase, state: &mut CoordinationState, fatal: bool) -> (q: Phase)
    requires
        p is WaitingForResult,
    ensures
        final(state)@.found,
        final(state)@.result == old(state)@.result,
        fatal ==> q is Fatal,
        !fatal && old(state)@.result is Some ==> q is Found && old(state)@.result == Some(
            q->Found_0@,
        ),
        !fatal && old(state)@.result is None ==> q is NotFound,
{
    state.cancel();
    if fatal {
        return Phase::Fatal;
    }
    match state.found_password() {
        Some(pw) => Phase::Found(pw),
        None => Phase::NotFound,
    }
}

/// Runs the dictionary attack end to end against one oracle instance:
/// precondition check, dispatch, scan of the word list in its order, then
/// teardown through cancellation. The engine reports the first matching
/// candidate of the list, not-found on exhaustion, and a fatal outcome for
/// an unprotected or unreadable archive.
pub fn run_dictionary<O: Oracle>(oracle: &O, encrypted: bool, candidates: &Vec<String>) -> (p:
    Phase)
    ensures
        !encrypted ==> p is Fatal,
        encrypted ==> match p {
            Phase::Found(pw) => exists|i: int|
                0 <= i < candidates.deep_view().len() && pw@ == candidates.deep_view()[i]
                    && oracle.spec_verdict(pw@) is Match && all_miss(
                    oracle,
                    candidates.deep_view(),
                    i,
                ),
            Phase::NotFound => all_miss(
                oracle,
                candidates.deep_view(),
                candidates.deep_view().len() as int,
            ),
            Phase::Fatal => exists|i: int|
                0 <= i < candidates.deep_view().len() && oracle.spec_verdict(
                    candidates.deep_view()[i],
                ) is Fatal && all_miss(oracle, candidates.deep_view(), i),
            _ => false,
        },
        encrypted && has_match(oracle, candidates.deep_view()) && no_fatal(
            oracle,
            candidates.deep_view(),
        ) ==> p is Found,
        encrypted && all_miss(oracle, candidates.deep_view(), candidates.deep_view().len() as int)
            ==> p is NotFound,
{
    let phase = start_run(new_run(), encrypted);
    if !encrypted {
        return phase;
    }
    let phase = dispatch(phase);
    let mut state = CoordinationState::new();
    let out = scan_candidates(oracle, candidates, &mut state);
    match out {
        SearchOutcome::Found(pw) => settle(phase, &mut state, false),
        SearchOutcome::Exhausted => settle(phase, &mut state, false),
        SearchOutcome::Fatal => settle(phase, &mut state, true),
    }
}

/// Some word of the brute-force space, up to the given length, matches.
pub open spec fn space_has_match<O: Oracle>(oracle: &O, max_len: int) -> bool {
    exists|s: Seq<char>|
        1 <= s.len() <= max_len && word_in_alphabet(s) && oracle.spec_verdict(s) is Match
}

/// No word of the brute-force space provokes a fatal report.
pub open spec fn space_no_fatal<O: Oracle>(oracle: &O, max_len: int) -> bool {
    forall|s: Seq<char>|
        1 <= s.len() <= max_len && word_in_alphabet(s) ==> !(oracle.spec_verdict(s) is Fatal)
}

/// Every word of the brute-force space misses.
pub open spec fn space_all_miss<O: Oracle>(oracle: &O, max_len: int) -> bool {
    forall|s: Seq<char>|
        1 <= s.len() <= max_len && word_in_alphabet(s) ==> oracle.spec_verdict(s) is NoMatch
}

/// Runs the brute-force attack end to end: precondition check, then a scan
/// of every length's full candidate set in increasing order, stopping at
/// the first match or fatal report. A found password therefore has no
/// shorter rival: lengths beyond it are never generated, let alone
/// scanned. When the space holds the password and the archive stays
/// readable, the engine reports a match; when every word of the space
/// misses, it reports not-found.
pub fn run_brute_force<O: Oracle>(oracle: &O, encrypted: bool, max_len: usize) -> (p: Phase)
    ensures
        !encrypted ==> p is Fatal,
        encrypted ==> match p {
            Phase::Found(pw) => oracle.spec_verdict(pw@) is Match && word_in_alphabet(pw@) && 1
                <= pw@.len() <= max_len && (forall|s: Seq<char>|
                1 <= s.len() < pw@.len() && word_in_alphabet(s) ==> oracle.spec_verdict(
                    s,
                ) is NoMatch),
            Phase::NotFound => space_all_miss(oracle, max_len as int),
            Phase::Fatal => exists|s: Seq<char>|
                1 <= s.len() <= max_len && word_in_alphabet(s) && oracle.spec_verdict(s) is Fatal,
            _ => false,
        },
        encrypted && space_has_match(oracle, max_len as int) && space_no_fatal(
            oracle,
            max_len as int,
        ) ==> p is Found,
        encrypted && space_all_miss(oracle, max_len as int) ==> p is NotFound,
{
    let phase = start_run(new_run(), encrypted);
    if !encrypted {
        return phase;
    }
    let phase = dispatch(phase);
    let mut state = CoordinationState::new();
    let mut l: usize = 0;
    while l < max_len
        invariant
            l <= max_len,
            encrypted,
            state@ == CoordModel::fresh(),
            phase is WaitingForResult,
            forall|s: Seq<char>|
                1 <= s.len() <= l && word_in_alphabet(s) ==> oracle.spec_verdict(s) is NoMatch,
        decreases max_len - l,
    {
        let length = l + 1;
        let candidates = generate_passwords(length);
        let ghost cs = candidates.deep_view();
        assert(cs == all_words(length as nat));
        let out = scan_candidates(oracle, &candidates, &mut state);
        match out {
            SearchOutcome::Found(pw) => {
                proof {
                    let i = choose|i: int|
                        0 <= i < cs.len() && pw@ == cs[i] && oracle.spec_verdict(cs[i]) is Match
                            && all_miss(oracle, cs, i);
                    assert(cs.contains(pw@));
                    lemma_generator_exact(length as nat, pw@);
                }
                return settle(phase, &mut state, false);
            },
            SearchOutcome::Exhausted => {
                proof {
                    assert forall|s: Seq<char>|
                        1 <= s.len() <= length && word_in_alphabet(s) implies oracle.spec_verdict(
                        s,
                    ) is NoMatch by {
                        if s.len() == length {
                            lemma_generator_exact(length as nat, s);
                            assert(cs.contains(s));
                            let j = choose|j: int| 0 <= j < cs.len() && cs[j] == s;
                            assert(oracle.spec_verdict(cs[j]) is NoMatch);
                        }
                    }
                }
            },
            SearchOutcome::Fatal => {
                proof {
                    let i = choose|i: int|
                        0 <= i < cs.len() && oracle.spec_verdict(cs[i]) is Fatal && all_miss(
                            oracle,
                            cs,
                            i,
                        );
                    assert(cs.contains(cs[i]));
                    lemma_generator_exact(length as nat, cs[i]);
                }
                return settle(phase, &mut state, true);
            },
        }
        l = l + 1;
    }
    settle(phase, &mut state, false)
}

} // verus!
