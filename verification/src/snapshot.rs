//! Snapshots: what is saved before every execution so that a freshly started process
//! can take over where the last one died.

use crate::corpus::Lineage;
use crate::dictionary::tokens_copy;
use crate::corpus::holds_bytes;
use crate::engine::{
    accepted_entry, bumped, objective_coverage, vocabulary, ExecResult, FuzzState, InFlight, RunKind,
    StagePhase,
};
use crate::generalize::judged;
use crate::executor::Outcome;
use crate::feedback::{Observation, Verdict};
use crate::generalize::Generalizer;
use crate::input::copy_bytes;
use crate::rng::rng_fork;
use crate::scheduler::Scheduler;
use vstd::prelude::*;

verus! {

/// A saved campaign state. The execution that was in flight when it was taken is
/// part of it.
#[derive(Debug)]
pub struct Snapshot {
    pub state: FuzzState,
}

/// Why a child process was found dead.
#[derive(Clone, Copy, Debug, PartialEq, Eq, Structural)]
pub enum Death {
    /// The target crashed the process.
    Crash,
    /// The target hung and the process was killed at the time limit.
    Hang,
}

/// The outcome that a death stands for.
pub open spec fn death_outcome(death: Death) -> Outcome {
    match death {
        Death::Crash => Outcome::Crashed,
        Death::Hang => Outcome::TimedOut,
    }
}

/// The duration recorded for an execution that ended in a death: nothing for a
/// crash, the whole limit for a hang.
pub open spec fn death_elapsed(death: Death, timeout_ms: u64) -> u64 {
    match death {
        Death::Crash => 0,
        Death::Hang => timeout_ms,
    }
}

/// Copies a vector of plain values.
pub fn copy_plain<T: Copy>(values: &Vec<T>) -> (copy: Vec<T>)
    ensures
        copy@ == values@,
{
    let mut copy: Vec<T> = Vec::new();
    let mut i: usize = 0;
    while i < values.len()
        invariant
            i <= values.len(),
            copy@.len() == i,
            forall|k: int| 0 <= k < i ==> copy@[k] == values@[k],
        decreases values.len() - i,
    {
        copy.push(values[i]);
        i = i + 1;
    }
    assert(copy@ =~= values@);
    copy
}

/// Copies a list of byte strings.
pub fn copy_byte_strings(list: &Vec<Vec<u8>>) -> (copy: Vec<Vec<u8>>)
    ensures
        copy.deep_view() == list.deep_view(),
        copy@.len() == list@.len(),
{
    let mut copy: Vec<Vec<u8>> = Vec::new();
    let mut i: usize = 0;
    while i < list.len()
        invariant
            i <= list.len(),
            copy@.len() == i,
            forall|k: int| 0 <= k < i ==> (#[trigger] copy@[k])@ == list@[k]@,
        decreases list.len() - i,
    {
        copy.push(copy_bytes(&list[i]));
        i = i + 1;
    }
    proof {
        assert forall|k: int| 0 <= k < list@.len() implies copy.deep_view()[k]
            == list.deep_view()[k] by {
            assert(copy.deep_view()[k] == copy@[k].deep_view());
            assert(list.deep_view()[k] == list@[k].deep_view());
            assert(copy@[k].deep_view() =~= copy@[k]@);
            assert(list@[k].deep_view() =~= list@[k]@);
        }
        assert(copy.deep_view() =~= list.deep_view());
    }
    copy
}

/// The scheduler bookkeeping of two states is the same.
pub open spec fn same_scheduler(a: Scheduler, b: Scheduler) -> bool {
    &&& a.cursor == b.cursor
    &&& a.demoted@ == b.demoted@
    &&& a.scores@ == b.scores@
    &&& a.order@ == b.order@
}

/// Two generalizations stand at the same point.
pub open spec fn same_generalizer(a: Option<Generalizer>, b: Option<Generalizer>) -> bool {
    &&& a is Some <==> b is Some
    &&& a is Some ==> {
        &&& a->0.mask@ == b->0.mask@
        &&& a->0.required@ == b->0.required@
        &&& a->0.level == b->0.level
        &&& a->0.start == b->0.start
        &&& a->0.attempts_left == b->0.attempts_left
        &&& a->0.pending == b->0.pending
        &&& a->0.verified == b->0.verified
        &&& a->0.abandoned == b->0.abandoned
    }
}

/// The same execution is in flight in both states, or none in either.
pub open spec fn same_flight(a: Option<InFlight>, b: Option<InFlight>) -> bool {
    &&& a is Some <==> b is Some
    &&& a is Some ==> {
        &&& a->0.input.deep_view() == b->0.input.deep_view()
        &&& a->0.kind == b->0.kind
        &&& a->0.lineage == b->0.lineage
    }
}

/// `saved` holds what `state` held: the random generator, the stores, the cumulative
/// map, the dictionary, the counters, the stage, the seeds and the execution in
/// flight.
pub open spec fn captures(state: FuzzState, saved: FuzzState) -> bool {
    &&& saved.rng == state.rng
    &&& saved.seeds.deep_view() == state.seeds.deep_view()
    &&& saved.seeds@.len() == state.seeds@.len()
    &&& saved.next_seed == state.next_seed
    &&& saved.corpus.deep_view() == state.corpus.deep_view()
    &&& saved.objectives.deep_view() == state.objectives.deep_view()
    &&& saved.cumulative@ == state.cumulative@
    &&& vocabulary(saved.dictionary) == vocabulary(state.dictionary)
    &&& saved.dictionary is Some <==> state.dictionary is Some
    &&& same_scheduler(saved.scheduler, state.scheduler)
    &&& saved.executions == state.executions
    &&& saved.timeout_ms == state.timeout_ms
    &&& saved.minimize_every == state.minimize_every
    &&& saved.phase == state.phase
    &&& saved.base == state.base
    &&& same_generalizer(saved.generalizer, state.generalizer)
    &&& saved.trace_mutants.deep_view() == state.trace_mutants.deep_view()
    &&& saved.trace_mutants@.len() == state.trace_mutants@.len()
    &&& saved.next_mutant == state.next_mutant
    &&& saved.remaining == state.remaining
    &&& same_flight(saved.in_flight, state.in_flight)
}

/// Resume: a child that starts from a snapshot of a consistent state continues from
/// that state. The corpus has as many entries, with the same content, the
/// cumulative coverage is the same, and the execution that was about to run is still
/// recorded as in flight; nothing is rolled back to an earlier execution.
pub proof fn lemma_resume_matches_snapshot(
    before: FuzzState,
    snapshot: Snapshot,
    resumed: Option<FuzzState>,
)
    requires
        before.wf(),
        captures(before, snapshot.state),
        before.wf() ==> snapshot.state.wf(),
        resumed is Some <==> snapshot.state.wf(),
        resumed is Some ==> resumed->0 == snapshot.state,
    ensures
        resumed is Some,
        resumed->0.corpus.deep_view().len() == before.corpus.deep_view().len(),
        resumed->0.corpus.deep_view() == before.corpus.deep_view(),
        resumed->0.objectives.deep_view() == before.objectives.deep_view(),
        resumed->0.cumulative@ == before.cumulative@,
        resumed->0.executions == before.executions,
        resumed->0.rng == before.rng,
        resumed->0.next_seed == before.next_seed,
        same_flight(resumed->0.in_flight, before.in_flight),
{
}

impl Scheduler {
    /// A copy of the bookkeeping.
    pub fn duplicate(&self) -> (copy: Scheduler)
        ensures
            same_scheduler(copy, *self),
    {
        Scheduler {
            cursor: self.cursor,
            demoted: copy_plain(&self.demoted),
            scores: copy_plain(&self.scores),
            order: copy_plain(&self.order),
        }
    }
}

impl Generalizer {
    /// A copy of the generalization as it stands.
    pub fn duplicate(&self) -> (copy: Generalizer)
        ensures
            same_generalizer(Some(copy), Some(*self)),
            self.wf() ==> copy.wf(),
    {
        Generalizer {
            mask: copy_plain(&self.mask),
            required: self.required.duplicate(),
            level: self.level,
            start: self.start,
            attempts_left: self.attempts_left,
            pending: self.pending,
            verified: self.verified,
            abandoned: self.abandoned,
        }
    }
}

impl FuzzState {
    /// Saves the state. Taken after an execution has been handed out and before it
    /// runs, the snapshot names that execution as in flight.
    pub fn snapshot(&self) -> (snapshot: Snapshot)
        ensures
            captures(*self, snapshot.state),
            self.wf() ==> snapshot.state.wf(),
    {
        let dictionary = match &self.dictionary {
            Some(tokens) => Some(tokens_copy(tokens)),
            None => None,
        };
        let generalizer = match &self.generalizer {
            Some(generalizer) => Some(generalizer.duplicate()),
            None => None,
        };
        let in_flight = match &self.in_flight {
            Some(flight) => Some(
                InFlight {
                    input: flight.input.duplicate(),
                    kind: flight.kind,
                    lineage: flight.lineage,
                },
            ),
            None => None,
        };
        let state = FuzzState {
            rng: rng_fork(&self.rng),
            corpus: self.corpus.duplicate(),
            objectives: self.objectives.duplicate(),
            cumulative: self.cumulative.duplicate(),
            dictionary,
            scheduler: self.scheduler.duplicate(),
            executions: self.executions,
            timeout_ms: self.timeout_ms,
            minimize_every: self.minimize_every,
            phase: self.phase,
            base: self.base,
            generalizer,
            trace_mutants: copy_byte_strings(&self.trace_mutants),
            next_mutant: self.next_mutant,
            remaining: self.remaining,
            seeds: copy_byte_strings(&self.seeds),
            next_seed: self.next_seed,
            in_flight,
        };
        Snapshot { state }
    }

    /// Rebuilds the state from a snapshot. A snapshot whose state is not consistent
    /// stands for a corrupted campaign and yields nothing.
    pub fn restore(snapshot: Snapshot) -> (state: Option<FuzzState>)
        ensures
            state is Some <==> snapshot.state.wf(),
            state is Some ==> state->0 == snapshot.state,
    {
        if snapshot.state.is_consistent() {
            Some(snapshot.state)
        } else {
            None
        }
    }

    /// Accounts for the execution that was in flight when the process died, as a
    /// report of that execution would: a crash or a timeout, with nothing observed,
    /// after no time for a crash and after the whole limit for a hang. After a crash
    /// a seed or a mutant joins the objective store with its lineage and an empty
    /// map, unless the store holds its bytes already; after a hang it is discarded.
    /// Neither adds coverage or touches the working corpus.
    pub fn report_death(&mut self, death: Death) -> (verdict: Verdict)
        requires
            old(self).wf(),
        ensures
            final(self).wf(),
            final(self).in_flight is None,
            final(self).cumulative@ == old(self).cumulative@,
            final(self).corpus.deep_view() == old(self).corpus.deep_view(),
            final(self).timeout_ms == old(self).timeout_ms,
            final(self).minimize_every == old(self).minimize_every,
            final(self).dictionary == old(self).dictionary,
            final(self).seeds == old(self).seeds,
            final(self).next_seed == old(self).next_seed,
            final(self).rng == old(self).rng,
            final(self).scheduler == old(self).scheduler,
            final(self).base == old(self).base,
            final(self).remaining == old(self).remaining,
            !verdict.is_interesting,
            old(self).in_flight is None ==> *final(self) == *old(self) && !verdict.is_objective,
            old(self).in_flight is Some ==> final(self).executions == bumped(old(self).executions),
            old(self).in_flight is Some && (old(self).in_flight->0.kind == RunKind::Seed || old(self).in_flight->0.kind == RunKind::Mutant) ==> {
                let flight = old(self).in_flight->0;
                &&& verdict.is_objective == (death == Death::Crash)
                &&& final(self).objectives.deep_view() == if death == Death::Crash && !holds_bytes(
                    old(self).objectives.deep_view(),
                    flight.input.bytes@,
                ) {
                    old(self).objectives.deep_view().push(
                        accepted_entry(
                            old(self).objectives.deep_view().len(),
                            flight,
                            objective_coverage(old(self).cumulative@, None),
                            death_elapsed(death, old(self).timeout_ms),
                        ),
                    )
                } else {
                    old(self).objectives.deep_view()
                }
                &&& final(self).phase == old(self).phase
                &&& final(self).generalizer == old(self).generalizer
                &&& final(self).trace_mutants == old(self).trace_mutants
                &&& final(self).next_mutant == old(self).next_mutant
            },
            old(self).in_flight is Some && (old(self).in_flight->0.kind == RunKind::Trial || old(self).in_flight->0.kind == RunKind::Trace) ==> !verdict.is_objective && final(self).objectives == old(self).objectives,
            old(self).in_flight is Some && old(self).in_flight->0.kind == RunKind::Trial ==> {
                &&& final(self).phase == old(self).phase
                &&& final(self).trace_mutants == old(self).trace_mutants
                &&& final(self).next_mutant == old(self).next_mutant
                &&& final(self).generalizer is Some <==> old(self).generalizer is Some
                &&& old(self).generalizer is Some ==> judged(
                    old(self).generalizer->0,
                    final(self).generalizer->0,
                    death_outcome(death),
                    None,
                )
            },
            old(self).in_flight is Some && old(self).in_flight->0.kind == RunKind::Trace ==> {
                &&& final(self).generalizer == old(self).generalizer
                &&& old(self).phase == StagePhase::Tracing ==> final(self).phase
                    == StagePhase::InputToState && final(self).next_mutant == 0 && final(self).trace_mutants.deep_view() == Seq::<Seq<u8>>::empty()
                &&& old(self).phase != StagePhase::Tracing ==> final(self).phase == old(self).phase
                    && final(self).trace_mutants == old(self).trace_mutants && final(self).next_mutant == old(self).next_mutant
            },
    {
        let outcome = match death {
            Death::Crash => Outcome::Crashed,
            Death::Hang => Outcome::TimedOut,
        };
        let elapsed_ms = match death {
            Death::Crash => 0,
            Death::Hang => self.timeout_ms,
        };
        let result = ExecResult {
            outcome,
            observation: Observation { coverage: None, elapsed_ms },
            comparisons: Vec::new(),
        };
        self.report(result)
    }
}

} // verus!
