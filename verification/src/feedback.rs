//! The feedback engine: after an execution, is the input worth keeping, and did it
//! reach the objective?

use crate::coverage::{lemma_union_is_least_upper_bound, novel_bits, subset_bits, union_bits, CoverageMap};
use crate::executor::Outcome;
use vstd::prelude::*;

verus! {

/// What the observation channels reported for one execution.
#[derive(Debug)]
pub struct Observation {
    /// The coverage map of the run, absent when the channel delivered nothing.
    pub coverage: Option<CoverageMap>,
    /// Wall-clock duration of the run, in milliseconds.
    pub elapsed_ms: u64,
}

/// The judgement on one execution.
#[derive(Clone, Copy, Debug, PartialEq, Eq, Structural)]
pub struct Verdict {
    /// The input belongs in the working corpus.
    pub is_interesting: bool,
    /// The input reached the objective: the target crashed on it.
    pub is_objective: bool,
}

/// The vote of the coverage feedback: a completed run whose map sets a location that
/// was never seen. A crash or a timeout adds no coverage, and a missing or mis-sized
/// map counts as nothing new.
pub open spec fn coverage_vote(
    cumulative: Seq<bool>,
    outcome: Outcome,
    coverage: Option<CoverageMap>,
) -> bool {
    &&& outcome == Outcome::Completed
    &&& coverage is Some
    &&& novel_bits(cumulative, coverage->0@)
}

/// The vote of the time feedback. It records the duration of a run that is kept and
/// never asks for a run to be kept.
pub open spec fn time_vote(elapsed_ms: u64) -> bool {
    false
}

/// The cumulative map after an execution has been judged.
pub open spec fn cumulative_after(
    cumulative: Seq<bool>,
    outcome: Outcome,
    coverage: Option<CoverageMap>,
) -> Seq<bool> {
    if coverage_vote(cumulative, outcome, coverage) {
        union_bits(cumulative, coverage->0@)
    } else {
        cumulative
    }
}

/// Runs the time feedback. Its vote is fixed; it is evaluated all the same so that
/// every feedback sees every execution.
pub fn evaluate_time(observation: &Observation) -> (vote: bool)
    ensures
        vote == time_vote(observation.elapsed_ms),
{
    false
}

/// Runs the coverage feedback and unions new locations into the cumulative map.
pub fn evaluate_coverage(
    cumulative: &mut CoverageMap,
    outcome: Outcome,
    observation: &Observation,
) -> (vote: bool)
    ensures
        vote == coverage_vote(old(cumulative)@, outcome, observation.coverage),
        final(cumulative)@ == cumulative_after(old(cumulative)@, outcome, observation.coverage),
        subset_bits(old(cumulative)@, final(cumulative)@),
{
    if outcome != Outcome::Completed {
        return false;
    }
    match &observation.coverage {
        Some(map) => cumulative.absorb(map),
        None => false,
    }
}

/// Judges one execution. Every feedback is evaluated, none is skipped because an
/// earlier one already voted, and the votes are joined by OR. The objective is
/// reached exactly by a crash. The cumulative map only ever grows.
pub fn evaluate(cumulative: &mut CoverageMap, outcome: Outcome, observation: &Observation) -> (verdict:
    Verdict)
    ensures
        verdict.is_objective == (outcome == Outcome::Crashed),
        verdict.is_interesting == (coverage_vote(old(cumulative)@, outcome, observation.coverage)
            || time_vote(observation.elapsed_ms)),
        final(cumulative)@ == cumulative_after(old(cumulative)@, outcome, observation.coverage),
        subset_bits(old(cumulative)@, final(cumulative)@),
        !(verdict.is_interesting && verdict.is_objective),
{
    let by_coverage = evaluate_coverage(cumulative, outcome, observation);
    let by_time = evaluate_time(observation);
    Verdict { is_interesting: by_coverage || by_time, is_objective: outcome == Outcome::Crashed }
}

/// Once an execution has been judged, its completed coverage is part of the
/// cumulative map: judging the same observation again finds nothing new.
pub proof fn lemma_accepted_coverage_is_retained(
    cumulative: Seq<bool>,
    outcome: Outcome,
    coverage: Option<CoverageMap>,
)
    ensures
        subset_bits(cumulative, cumulative_after(cumulative, outcome, coverage)),
        coverage_vote(cumulative, outcome, coverage) ==> subset_bits(
            coverage->0@,
            cumulative_after(cumulative, outcome, coverage),
        ),
        !coverage_vote(cumulative_after(cumulative, outcome, coverage), outcome, coverage),
{
    if coverage_vote(cumulative, outcome, coverage) {
        lemma_union_is_least_upper_bound(cumulative, coverage->0@);
    }
}

} // verus!
