//! Decisions of the loop that waits for a host's SSH port to accept TCP
//! connections. The caller makes each attempt, bounded by
//! [`ATTEMPT_TIMEOUT_SECS`], and waits for the next tick of a timer of period
//! [`RETRY_INTERVAL_SECS`] whenever told to retry.

use vstd::prelude::*;
use vstd::string::*;

verus! {

/// How long one connection attempt may take, in seconds.
pub const ATTEMPT_TIMEOUT_SECS: u64 = 5;

/// Period of the timer that spaces failed attempts, in seconds.
pub const RETRY_INTERVAL_SECS: u64 = 10;

/// What one connection attempt came to.
pub enum ProbeOutcome {
    /// The TCP connection was established.
    Connected,
    /// The attempt did not finish within the attempt timeout.
    TimedOut,
    /// The connection failed; `reason` describes the error.
    Failed { reason: String },
}

/// What to do after an attempt.
pub enum ProbeStep {
    /// The port is reachable: stop waiting at once.
    Ready,
    /// Print `message` as a diagnostic, wait for the next tick, try again.
    Retry { message: String },
}

/// The diagnostic printed after an attempt, `None` after a successful one.
pub open spec fn diagnostic(outcome: ProbeOutcome) -> Option<Seq<char>> {
    match outcome {
        ProbeOutcome::Connected => None,
        ProbeOutcome::TimedOut => Some("waiting for ssh: "@ + "timeout"@),
        ProbeOutcome::Failed { reason } => Some("waiting for ssh: "@ + reason@),
    }
}

/// Whether an attempt reached the port.
pub open spec fn reached(outcome: ProbeOutcome) -> bool {
    outcome is Connected
}

/// Decides what follows an attempt.
pub fn probe_step(outcome: ProbeOutcome) -> (r: ProbeStep)
    ensures
        r is Ready <==> reached(outcome),
        r matches ProbeStep::Retry { message } ==> diagnostic(outcome) == Some(message@),
{
    match outcome {
        ProbeOutcome::Connected => ProbeStep::Ready,
        ProbeOutcome::TimedOut => {
            let mut message = String::from_str("waiting for ssh: ");
            message.append("timeout");
            ProbeStep::Retry { message }
        },
        ProbeOutcome::Failed { reason } => {
            let mut message = String::from_str("waiting for ssh: ");
            message.append(reason.as_str());
            ProbeStep::Retry { message }
        },
    }
}

/// Number of attempts that the waiting loop makes when its attempts come to
/// `outcomes` in turn: it stops after the first that reaches the port.
pub open spec fn attempts_made(outcomes: Seq<ProbeOutcome>) -> nat
    decreases outcomes.len(),
{
    if outcomes.len() == 0 {
        0
    } else if reached(outcomes[0]) {
        1
    } else {
        1 + attempts_made(outcomes.drop_first())
    }
}

/// The diagnostic lines that the waiting loop prints when its attempts come
/// to `outcomes` in turn.
pub open spec fn probe_log(outcomes: Seq<ProbeOutcome>) -> Seq<Seq<char>>
    decreases outcomes.len(),
{
    if outcomes.len() == 0 {
        seq![]
    } else {
        match diagnostic(outcomes[0]) {
            None => seq![],
            Some(line) => seq![line] + probe_log(outcomes.drop_first()),
        }
    }
}

/// While no attempt reaches the port the loop keeps trying: it makes every
/// attempt and prints one diagnostic line for each.
pub proof fn lemma_failures_keep_waiting(outcomes: Seq<ProbeOutcome>)
    requires
        forall|i: int| 0 <= i < outcomes.len() ==> !reached(#[trigger] outcomes[i]),
    ensures
        attempts_made(outcomes) == outcomes.len(),
        probe_log(outcomes).len() == outcomes.len(),
    decreases outcomes.len(),
{
    if outcomes.len() > 0 {
        let rest = outcomes.drop_first();
        assert forall|i: int| 0 <= i < rest.len() implies !reached(#[trigger] rest[i]) by {
            assert(rest[i] == outcomes[i + 1]);
        }
        lemma_failures_keep_waiting(rest);
        assert(!reached(outcomes[0]));
    }
}

/// Where the first attempt reaches the port the loop stops after it, with no
/// diagnostic and no wait.
pub proof fn lemma_first_success_stops(outcomes: Seq<ProbeOutcome>)
    requires
        outcomes.len() > 0,
        reached(outcomes[0]),
    ensures
        attempts_made(outcomes) == 1,
        probe_log(outcomes) == Seq::<Seq<char>>::empty(),
{
}

} // verus!
