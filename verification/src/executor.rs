//! How one execution of the target ended, and how long the next one may take.

use vstd::prelude::*;

verus! {

/// The outcome of one execution.
#[derive(Clone, Copy, Debug, PartialEq, Eq, Structural)]
pub enum Outcome {
    /// The target returned within its time limit.
    Completed,
    /// The target ended abnormally: a fault signal or an abort.
    Crashed,
    /// The target ran past its time limit and was stopped.
    TimedOut,
}

/// How the process that ran the target came to its end.
#[derive(Clone, Copy, Debug, PartialEq, Eq, Structural)]
pub enum Termination {
    /// The target function returned.
    Returned,
    /// The process died of a fault signal or an abort.
    Faulted,
}

/// The per-execution time limit used when none is configured, in milliseconds.
pub const DEFAULT_TIMEOUT_MS: u64 = 12000;

/// Executions that record comparisons get this many times the ordinary limit.
pub const TRACING_TIMEOUT_FACTOR: u64 = 10;

/// The outcome that a termination and an elapsed time stand for: an execution that
/// ran longer than its limit timed out, whatever else happened to it; within the
/// limit, a fault is a crash and a return is a completion.
pub open spec fn outcome_of(termination: Termination, elapsed_ms: u64, timeout_ms: u64) -> Outcome {
    if elapsed_ms > timeout_ms {
        Outcome::TimedOut
    } else if termination == Termination::Faulted {
        Outcome::Crashed
    } else {
        Outcome::Completed
    }
}

/// Maps the end of an execution to its outcome.
pub fn classify(termination: Termination, elapsed_ms: u64, timeout_ms: u64) -> (outcome: Outcome)
    ensures
        outcome == outcome_of(termination, elapsed_ms, timeout_ms),
        outcome == Outcome::TimedOut <==> elapsed_ms > timeout_ms,
{
    if elapsed_ms > timeout_ms {
        Outcome::TimedOut
    } else if termination == Termination::Faulted {
        Outcome::Crashed
    } else {
        Outcome::Completed
    }
}

/// One millisecond past the limit is a timeout; one millisecond short of it, with a
/// target that returns, is a completion.
pub proof fn lemma_timeout_boundary(timeout_ms: u64)
    requires
        0 < timeout_ms < u64::MAX,
    ensures
        outcome_of(Termination::Returned, (timeout_ms + 1) as u64, timeout_ms) == Outcome::TimedOut,
        outcome_of(Termination::Faulted, (timeout_ms + 1) as u64, timeout_ms) == Outcome::TimedOut,
        outcome_of(Termination::Returned, (timeout_ms - 1) as u64, timeout_ms)
            == Outcome::Completed,
{
}

/// The limit for an execution that records comparisons: ten times the ordinary
/// limit, held at the largest representable value where the product exceeds it.
pub open spec fn tracing_timeout_of(timeout_ms: u64) -> u64 {
    if timeout_ms * TRACING_TIMEOUT_FACTOR <= u64::MAX {
        (timeout_ms * TRACING_TIMEOUT_FACTOR) as u64
    } else {
        u64::MAX
    }
}

/// Computes the limit for an execution that records comparisons.
pub fn tracing_timeout(timeout_ms: u64) -> (limit: u64)
    ensures
        limit == tracing_timeout_of(timeout_ms),
        limit >= timeout_ms,
{
    if timeout_ms <= u64::MAX / TRACING_TIMEOUT_FACTOR {
        timeout_ms * TRACING_TIMEOUT_FACTOR
    } else {
        u64::MAX
    }
}

} // verus!
