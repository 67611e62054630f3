use vstd::prelude::*;

verus! {

/// What one decryption attempt reports about one candidate.
#[derive(Clone, Copy, PartialEq, Eq, Structural, Debug)]
pub enum Verdict {
    /// The candidate unlocked entry zero.
    Match,
    /// The candidate is not the password: an expected miss, not an error.
    NoMatch,
    /// The archive itself could not be read: a fatal condition of the run,
    /// not a statement about the candidate.
    Fatal,
}

/// The decryption capability handed to the engine: given a candidate,
/// attempt to unlock entry zero of the archive. Each worker owns its own
/// instance; instances share no mutable state, so concurrent testing needs
/// no synchronization.
pub trait Oracle {
    /// The verdict this oracle holds for the candidate.
    spec fn spec_verdict(&self, candidate: Seq<char>) -> Verdict;

    /// Tests one candidate against entry zero.
    fn test(&self, candidate: &String) -> (v: Verdict)
        ensures
            v == self.spec_verdict(candidate@),
    ;
}

/// Interprets the raw outcome of one decryption attempt: whether the entry
/// could be opened at all, whether the cipher accepted the candidate's key,
/// and whether the entry then decrypted to readable bytes. A candidate is
/// the password only when all three hold; a rejected or corrupting key is
/// an expected miss; an unopenable entry is fatal for the run.
pub fn classify_attempt(entry_opened: bool, key_accepted: bool, content_read: bool) -> (v:
    Verdict)
    ensures
        !entry_opened ==> v is Fatal,
        entry_opened && key_accepted && content_read ==> v is Match,
        entry_opened && !(key_accepted && content_read) ==> v is NoMatch,
{
    if !entry_opened {
        Verdict::Fatal
    } else if key_accepted && content_read {
        Verdict::Match
    } else {
        Verdict::NoMatch
    }
}

/// An oracle that matches exactly one password and never fails fatally:
/// the scripted stand-in that tests inject in place of a real archive.
pub struct FixedOracle {
    password: String,
}

impl FixedOracle {
    /// The one password this oracle accepts.
    pub closed spec fn spec_password(&self) -> Seq<char> {
        self.password@
    }

    pub fn new(password: String) -> (o: FixedOracle)
        ensures
            o.spec_password() == password@,
    {
        FixedOracle { password }
    }
}

impl Oracle for FixedOracle {
    open spec fn spec_verdict(&self, candidate: Seq<char>) -> Verdict {
        if candidate == self.spec_password() {
            Verdict::Match
        } else {
            Verdict::NoMatch
        }
    }

    fn test(&self, candidate: &String) -> (v: Verdict) {
        if candidate.eq(&self.password) {
            Verdict::Match
        } else {
            Verdict::NoMatch
        }
    }
}

/// An oracle scripted to match any of a set of candidates and never fail
/// fatally: it lets a test stage several matching candidates in one run
/// and watch the arbitration pick a single winner.
pub struct ScriptedOracle {
    accepted: Vec<String>,
}

impl ScriptedOracle {
    /// The candidates this oracle accepts.
    pub closed spec fn spec_accepted(&self) -> Seq<Seq<char>> {
        self.accepted.deep_view()
    }

    pub fn new(accepted: Vec<String>) -> (o: ScriptedOracle)
        ensures
            o.spec_accepted() == accepted.deep_view(),
    {
        ScriptedOracle { accepted }
    }
}

impl Oracle for ScriptedOracle {
    open spec fn spec_verdict(&self, candidate: Seq<char>) -> Verdict {
        if self.spec_accepted().contains(candidate) {
            Verdict::Match
        } else {
            Verdict::NoMatch
        }
    }

    fn test(&self, candidate: &String) -> (v: Verdict) {
        let ghost accepted = self.spec_accepted();
        let mut i: usize = 0;
        while i < self.accepted.len()
            invariant
                i <= self.accepted@.len(),
                accepted == self.spec_accepted(),
                accepted.len() == self.accepted@.len(),
                forall|j: int| 0 <= j < i ==> accepted[j] != candidate@,
            decreases self.accepted@.len() - i,
        {
            assert(accepted[i as int] == self.accepted@[i as int]@);
            if self.accepted[i].eq(candidate) {
                assert(accepted.contains(candidate@));
                return Verdict::Match;
            }
            i = i + 1;
        }
        proof {
            if accepted.contains(candidate@) {
                let j = choose|j: int| 0 <= j < accepted.len() && accepted[j] == candidate@;
                assert(false);
            }
        }
        Verdict::NoMatch
    }
}

/// A found report is exact under an oracle that accepts a single password:
/// a matching verdict identifies that password and nothing else.
pub proof fn lemma_fixed_oracle_is_exact(o: &FixedOracle, candidate: Seq<char>)
    ensures
        o.spec_verdict(candidate) is Match <==> candidate == o.spec_password(),
{
}

/// An oracle standing for an archive that cannot be read at all: every
/// attempt reports the fatal condition.
pub struct FaultyOracle {}

impl FaultyOracle {
    pub fn new() -> (o: FaultyOracle) {
        FaultyOracle {  }
    }
}

impl Oracle for FaultyOracle {
    open spec fn spec_verdict(&self, candidate: Seq<char>) -> Verdict {
        Verdict::Fatal
    }

    fn test(&self, candidate: &String) -> (v: Verdict) {
        Verdict::Fatal
    }
}

} // verus!
