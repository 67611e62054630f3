use vstd::prelude::*;

use crate::coordination::{attempt, CoordinationState};
use crate::oracle::Verdict;

verus! {

/// What the dictionary feeder does next.
pub enum FeederStep {
    /// Stop producing: cancellation was observed or the input is exhausted.
    Stop,
    /// Push this candidate onto the queue.
    Send(String),
}

/// One decision of the dictionary feeder, taken before every push: once
/// cancellation is observed, or once the input has no further line, the
/// feeder stops immediately without draining the rest of its input;
/// otherwise it pushes the line as the next candidate.
pub fn feeder_next(cancelled: bool, line: Option<String>) -> (d: FeederStep)
    ensures
        cancelled ==> d is Stop,
        !cancelled ==> match line {
            Some(l) => d is Send && d->Send_0@ == l@,
            None => d is Stop,
        },
{
    if cancelled {
        FeederStep::Stop
    } else {
        match line {
            Some(l) => FeederStep::Send(l),
            None => FeederStep::Stop,
        }
    }
}

/// What a worker does with one queue delivery.
pub enum WorkerStep {
    /// Exit the loop: cancellation was observed or the queue disconnected.
    Halt,
    /// Test this candidate against the worker's own oracle instance.
    Test(String),
}

/// One decision at the top of a worker's loop: exit once cancellation is
/// observed, or once the queue's sending side has disconnected; otherwise
/// test the candidate that was received. A worker therefore takes up no
/// new candidate after cancellation fires, though a test already under way
/// elsewhere runs to completion.
pub fn worker_next(cancelled: bool, received: Option<String>) -> (d: WorkerStep)
    ensures
        cancelled ==> d is Halt,
        !cancelled ==> match received {
            Some(c) => d is Test && d->Test_0@ == c@,
            None => d is Halt,
        },
{
    if cancelled {
        WorkerStep::Halt
    } else {
        match received {
            Some(c) => WorkerStep::Test(c),
            None => WorkerStep::Halt,
        }
    }
}

/// What a worker does after the oracle's verdict on one candidate.
pub enum WorkerAction {
    /// An expected miss: go on to the next candidate.
    Continue,
    /// This worker won the arbitration and published its candidate: exit.
    PublishAndHalt,
    /// Another worker already won: exit without publishing.
    Halt,
    /// The archive itself failed mid-run: exit and surface the failure.
    FatalHalt,
}

/// Acts on one verdict exactly as a worker does: a match is arbitrated
/// through the shared state, so that even when several workers match
/// concurrently, only the one that wins the flag's transition publishes,
/// and every other one exits discarding its result.
pub fn worker_on_verdict(v: Verdict, candidate: String, state: &mut CoordinationState) -> (a:
    WorkerAction)
    ensures
        v is NoMatch ==> a is Continue && final(state)@ == old(state)@,
        v is Fatal ==> a is FatalHalt && final(state)@ == old(state)@,
        v is Match ==> final(state)@ == attempt(old(state)@, candidate@).0 && (a
            is PublishAndHalt <==> attempt(old(state)@, candidate@).1) && (a is PublishAndHalt || a
            is Halt),
{
    match v {
        Verdict::NoMatch => WorkerAction::Continue,
        Verdict::Fatal => WorkerAction::FatalHalt,
        Verdict::Match => {
            if state.try_set_found(candidate) {
                WorkerAction::PublishAndHalt
            } else {
                WorkerAction::Halt
            }
        },
    }
}

/// The feeder's progress count: how many candidates it has pushed so far,
/// exposed for an external progress sink and never on the critical path.
pub struct FeederProgress {
    sent: u64,
}

impl FeederProgress {
    /// How many candidates were pushed.
    pub closed spec fn spec_sent(&self) -> u64 {
        self.sent
    }

    pub fn new() -> (f: FeederProgress)
        ensures
            f.spec_sent() == 0,
    {
        FeederProgress { sent: 0 }
    }

    /// Notes one successful push.
    pub fn record_push(&mut self)
        requires
            old(self).spec_sent() < u64::MAX,
        ensures
            final(self).spec_sent() == old(self).spec_sent() + 1,
    {
        self.sent = self.sent + 1;
    }

    /// The count so far.
    pub fn sent_so_far(&self) -> (n: u64)
        ensures
            n == self.spec_sent(),
    {
        self.sent
    }
}

/// Relies on `num_cpus::get_physical`: the number of physical cores of the
/// machine, which that crate documents to always be at least one.
#[verifier::external_body]
fn physical_cores() -> (n: usize)
    ensures
        1 <= n,
{
    num_cpus::get_physical()
}

/// The size of the dictionary-mode worker pool: exactly one worker per
/// detected physical processing unit — never an extra worker beyond that
/// count — and at least one whatever the detection reports.
pub fn planned_worker_count() -> (n: usize)
    ensures
        1 <= n,
{
    physical_cores()
}

} // verus!
