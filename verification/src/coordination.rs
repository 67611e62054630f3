use vstd::prelude::*;

verus! {

/// The mathematical model of the shared coordination state: the monotonic
/// cancellation flag and the single-slot result.
pub struct CoordModel {
    pub found: bool,
    pub result: Option<Seq<char>>,
}

impl CoordModel {
    /// A state as it is created at the start of a run: nothing found,
    /// nothing in the slot.
    pub open spec fn fresh() -> CoordModel {
        CoordModel { found: false, result: None }
    }

    /// The slot is only ever populated by the winner of the flag's
    /// transition, so a populated slot implies a raised flag.
    pub open spec fn wf(self) -> bool {
        self.result is Some ==> self.found
    }
}

/// One arbitration attempt on the model: the state afterwards, and whether
/// the caller performed the flag's `false` to `true` transition.
pub open spec fn attempt(m: CoordModel, candidate: Seq<char>) -> (CoordModel, bool) {
    if m.found {
        (m, false)
    } else {
        (CoordModel { found: true, result: Some(candidate) }, true)
    }
}

/// The model after a sequence of arbitration attempts, one per candidate,
/// in arbitration order.
pub open spec fn run_attempts(m: CoordModel, cs: Seq<Seq<char>>) -> CoordModel
    decreases cs.len(),
{
    if cs.len() == 0 {
        m
    } else {
        run_attempts(attempt(m, cs[0]).0, cs.drop_first())
    }
}

/// How many attempts of the sequence win the transition.
pub open spec fn count_wins(m: CoordModel, cs: Seq<Seq<char>>) -> nat
    decreases cs.len(),
{
    if cs.len() == 0 {
        0
    } else {
        (if attempt(m, cs[0]).1 {
            1nat
        } else {
            0nat
        }) + count_wins(attempt(m, cs[0]).0, cs.drop_first())
    }
}

/// Once the flag is raised it never resets, and the slot never changes
/// again: any further attempts leave the state exactly as it is.
pub proof fn lemma_flag_monotonic(m: CoordModel, cs: Seq<Seq<char>>)
    requires
        m.found,
    ensures
        run_attempts(m, cs) == m,
    decreases cs.len(),
{
    if cs.len() == 0 {
    } else {
        lemma_flag_monotonic(m, cs.drop_first());
    }
}

/// However many attempts race on one run's state, at most one wins; from a
/// fresh state, exactly one wins as soon as any attempt is made.
pub proof fn lemma_at_most_one_winner(m: CoordModel, cs: Seq<Seq<char>>)
    ensures
        m.found ==> count_wins(m, cs) == 0,
        !m.found && cs.len() > 0 ==> count_wins(m, cs) == 1,
        !m.found && cs.len() == 0 ==> count_wins(m, cs) == 0,
    decreases cs.len(),
{
    if cs.len() == 0 {
    } else {
        lemma_at_most_one_winner(attempt(m, cs[0]).0, cs.drop_first());
    }
}

/// A well-formed state stays well-formed, and a populated slot is stable:
/// once it holds a value, no number of further attempts changes it.
pub proof fn lemma_slot_is_stable(m: CoordModel, cs: Seq<Seq<char>>)
    requires
        m.wf(),
    ensures
        run_attempts(m, cs).wf(),
        m.result is Some ==> run_attempts(m, cs).result == m.result,
    decreases cs.len(),
{
    if cs.len() == 0 {
    } else {
        lemma_slot_is_stable(attempt(m, cs[0]).0, cs.drop_first());
    }
}

/// The slot holds at most one value for the run's entire lifetime: from a
/// fresh state, whatever attempts are made in whatever order, the slot
/// holds the first attempted candidate and never anything else.
pub proof fn lemma_slot_write_once(cs: Seq<Seq<char>>)
    ensures
        cs.len() == 0 ==> run_attempts(CoordModel::fresh(), cs) == CoordModel::fresh(),
        cs.len() > 0 ==> run_attempts(CoordModel::fresh(), cs).result == Some(cs[0]),
{
    if cs.len() > 0 {
        let m1 = attempt(CoordModel::fresh(), cs[0]).0;
        lemma_flag_monotonic(m1, cs.drop_first());
    }
}

/// The shared coordination state of one run: a cancellation flag that only
/// ever moves from `false` to `true`, and a result slot written once, by
/// the single caller that wins that transition.
pub struct CoordinationState {
    found: bool,
    result: Option<String>,
}

impl View for CoordinationState {
    type V = CoordModel;

    closed spec fn view(&self) -> CoordModel {
        CoordModel {
            found: self.found,
            result: match self.result {
                Some(p) => Some(p@),
                None => None,
            },
        }
    }
}

impl CoordinationState {
    /// Creates the state for one run.
    pub fn new() -> (s: CoordinationState)
        ensures
            s@ == CoordModel::fresh(),
    {
        CoordinationState { found: false, result: None }
    }

    /// Non-blocking poll of the cancellation flag.
    pub fn is_found(&self) -> (r: bool)
        ensures
            r == self@.found,
    {
        self.found
    }

    /// Atomically checks and sets the flag, and returns true only for the
    /// caller that performs the transition from `false` to `true`; that
    /// caller alone publishes its candidate to the result slot. A losing
    /// caller's candidate is discarded, which is not an error.
    pub fn try_set_found(&mut self, candidate: String) -> (won: bool)
        ensures
            (final(self)@, won) == attempt(old(self)@, candidate@),
            won == !old(self)@.found,
            final(self)@.found,
            old(self)@.wf() ==> final(self)@.wf(),
    {
        if self.found {
            false
        } else {
            self.found = true;
            self.result = Some(candidate);
            true
        }
    }

    /// Fires cancellation: raises the flag and touches nothing else. Safe
    /// to call at any time, and idempotent.
    pub fn cancel(&mut self)
        ensures
            final(self)@.found,
            final(self)@.result == old(self)@.result,
    {
        self.found = true;
    }

    /// Reads the result slot.
    pub fn found_password(&self) -> (r: Option<String>)
        ensures
            match r {
                Some(p) => self@.result == Some(p@),
                None => self@.result is None,
            },
    {
        match &self.result {
            Some(p) => Some(p.clone()),
            None => None,
        }
    }
}

} // verus!
