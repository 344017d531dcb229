//! The fuzz loop as a state machine: the engine hands out one execution at a time and
//! consumes its result before it hands out the next.

use crate::corpus::{holds_bytes, Corpus, EntryView, Lineage, Origin};
use crate::coverage::{lemma_subset_transitive, lemma_union_is_least_upper_bound, subset_bits, CoverageMap};
use crate::executor::{tracing_timeout, tracing_timeout_of, Outcome};
use crate::feedback::{coverage_vote, cumulative_after, evaluate, Observation, Verdict};
use crate::generalize::{blanked, candidate_of, judged, proposed, started, Generalizer};
use crate::input::Input;
use crate::input_to_state::{mutants_upto, capped, trace_mutants, Comparison, MAX_TRACE_MUTANTS};
use crate::dictionary::{is_usable, no_empty_tokens, token_list, tokens_new};
use crate::grimoire::{
    donor_at, donor_of, gap_bounded, structural_mutant, structurally_stacked,
};
use crate::havoc::{havoc_mutant, stacked};
use crate::input::{chunks_of_mask, copy_bytes, flatten, Segment};
use crate::minimizer::{is_due, minimize_due, minimized};
use crate::rng::{rng_below, rng_with_seed};
use crate::scheduler::{cursor_after, pick_of};
use crate::scheduler::Scheduler;
use libafl::mutators::Tokens;
use libafl_bolts::rands::StdRand;
use vstd::prelude::*;

verus! {

/// A mutational stage makes between one and this many mutants of a base input.
pub const MAX_STAGE_MUTANTS: usize = 128;

/// The minimizer's cadence unless a campaign chooses another: it runs once in this
/// many executions.
pub const DEFAULT_MINIMIZE_EVERY: u64 = 4096;

/// A generalization makes no more proposals than this.
pub const MAX_GENERALIZATION_TRIALS: usize = 16384;

/// The stage that the current base input is in.
#[derive(Clone, Copy, Debug, PartialEq, Eq, Structural)]
pub enum StagePhase {
    /// No base input is chosen.
    Idle,
    Generalizing,
    Tracing,
    InputToState,
    Havoc,
    Grimoire,
}

/// What an execution is made for.
#[derive(Clone, Copy, Debug, PartialEq, Eq, Structural)]
pub enum RunKind {
    /// A seed, offered to the feedback like any candidate.
    Seed,
    /// A proposal of the generalization stage.
    Trial,
    /// The base input, run to record comparisons.
    Trace,
    /// A mutant, offered to the feedback.
    Mutant,
}

/// The execution that has been handed out and not yet reported.
#[derive(Debug)]
pub struct InFlight {
    pub input: Input,
    pub kind: RunKind,
    pub lineage: Lineage,
}

/// One execution to perform.
#[derive(Debug)]
pub struct Request {
    /// The bytes to hand to the target.
    pub bytes: Vec<u8>,
    /// The wall-clock limit of the execution, in milliseconds.
    pub timeout_ms: u64,
    /// Whether the comparison-recording channel is to be attached.
    pub record_comparisons: bool,
}

/// What one execution gave.
#[derive(Debug)]
pub struct ExecResult {
    pub outcome: Outcome,
    pub observation: Observation,
    /// The recorded comparisons; empty unless they were asked for.
    pub comparisons: Vec<Comparison>,
}

/// The state of a campaign.
#[derive(Debug)]
pub struct FuzzState {
    pub rng: StdRand,
    /// The inputs kept for mutation.
    pub corpus: Corpus,
    /// The crashing inputs found.
    pub objectives: Corpus,
    /// Every location that a kept execution has ever covered.
    pub cumulative: CoverageMap,
    /// The mutation vocabulary, if the campaign has one.
    pub dictionary: Option<Tokens>,
    pub scheduler: Scheduler,
    /// The number of executions reported so far.
    pub executions: u64,
    /// The limit of an ordinary execution, in milliseconds.
    pub timeout_ms: u64,
    /// The minimizer runs whenever the execution count is a multiple of this; zero
    /// switches it off.
    pub minimize_every: u64,
    pub phase: StagePhase,
    /// The handle of the base input, while one is chosen.
    pub base: usize,
    pub generalizer: Option<Generalizer>,
    /// The mutants that the recorded comparisons suggested for the base input.
    pub trace_mutants: Vec<Vec<u8>>,
    /// How many of them have been handed out.
    pub next_mutant: usize,
    /// How many mutants the current mutational stage still has to make.
    pub remaining: usize,
    /// The seeds of the campaign, in the order in which they are offered.
    pub seeds: Vec<Vec<u8>>,
    /// How many of them have been handed out.
    pub next_seed: usize,
    pub in_flight: Option<InFlight>,
}

/// Every entry's coverage is part of the cumulative map.
pub open spec fn retained(entries: Seq<EntryView>, cumulative: Seq<bool>) -> bool {
    forall|i: int| 0 <= i < entries.len() ==> subset_bits((#[trigger] entries[i]).coverage, cumulative)
}

/// The execution count after one more execution; it stops at the largest value.
pub open spec fn bumped(executions: u64) -> u64 {
    if executions < u64::MAX {
        (executions + 1) as u64
    } else {
        executions
    }
}

/// The entry that an accepted execution becomes.
pub open spec fn accepted_entry(
    id: nat,
    flight: InFlight,
    coverage: Seq<bool>,
    elapsed_ms: u64,
) -> EntryView {
    EntryView {
        id,
        input: flight.input.deep_view(),
        coverage,
        exec_time_ms: elapsed_ms,
        lineage: flight.lineage,
    }
}

/// The map stored with a crashing input: what the run reported, or an empty map of
/// the cumulative map's size when it reported nothing.
pub open spec fn objective_coverage(cumulative: Seq<bool>, coverage: Option<CoverageMap>) -> Seq<
    bool,
> {
    match coverage {
        Some(map) => map@,
        None => Seq::new(cumulative.len(), |i: int| false),
    }
}

/// Growing the cumulative map keeps every entry's coverage inside it.
pub proof fn lemma_retained_grows(entries: Seq<EntryView>, before: Seq<bool>, after: Seq<bool>)
    requires
        retained(entries, before),
        subset_bits(before, after),
    ensures
        retained(entries, after),
{
    assert forall|i: int| 0 <= i < entries.len() implies subset_bits(
        (#[trigger] entries[i]).coverage,
        after,
    ) by {
        lemma_subset_transitive(entries[i].coverage, before, after);
    }
}

/// Monotone coverage: an entry of the working corpus was accepted for coverage that
/// the cumulative map retains, so executing it again with the same result brings
/// nothing new.
pub proof fn lemma_kept_input_brings_nothing_new(state: FuzzState, id: int, again: CoverageMap)
    requires
        state.wf(),
        0 <= id < state.corpus.deep_view().len(),
        again@ == state.corpus.deep_view()[id].coverage,
    ensures
        subset_bits(again@, state.cumulative@),
        !coverage_vote(state.cumulative@, Outcome::Completed, Some(again)),
{
    assert(subset_bits(state.corpus.deep_view()[id].coverage, state.cumulative@));
}

/// An upper bound on the number of stage changes before the next execution is
/// handed out.
pub open spec fn steps_to_request(phase: StagePhase) -> int {
    match phase {
        StagePhase::Tracing => 1,
        StagePhase::Generalizing => 2,
        StagePhase::Idle => 3,
        StagePhase::Grimoire => 4,
        StagePhase::Havoc => 5,
        StagePhase::InputToState => 6,
    }
}

/// The origin recorded for a mutant of a stage.
pub open spec fn origin_of(phase: StagePhase) -> Origin {
    match phase {
        StagePhase::InputToState => Origin::InputToState,
        StagePhase::Grimoire => Origin::Grimoire,
        _ => Origin::Havoc,
    }
}

/// The tokens of the campaign's dictionary; none without a dictionary.
pub open spec fn vocabulary(dictionary: Option<Tokens>) -> Seq<Seq<u8>> {
    match dictionary {
        Some(tokens) => token_list(tokens),
        None => Seq::empty(),
    }
}

/// Two views of a corpus that differ in generalized forms at most.
pub open spec fn same_but_forms(before: Seq<EntryView>, after: Seq<EntryView>) -> bool {
    &&& before.len() == after.len()
    &&& forall|i: int|
        0 <= i < before.len() ==> {
            &&& (#[trigger] after[i]).id == before[i].id
            &&& after[i].input.bytes == before[i].input.bytes
            &&& after[i].coverage == before[i].coverage
            &&& after[i].exec_time_ms == before[i].exec_time_ms
            &&& after[i].lineage == before[i].lineage
        }
}

/// The request asks for the execution that is in flight, with the ordinary time limit,
/// or ten times that limit where comparisons are recorded.
pub open spec fn matches_flight(state: FuzzState, request: Request) -> bool {
    &&& state.in_flight is Some
    &&& request.bytes@ == state.in_flight->0.input.bytes@
    &&& request.record_comparisons == (state.in_flight->0.kind == RunKind::Trace)
    &&& request.timeout_ms == if request.record_comparisons {
        tracing_timeout_of(state.timeout_ms)
    } else {
        state.timeout_ms
    }
}

/// The execution in flight belongs to the stage that the base input is in.
pub open spec fn stage_consistent(state: FuzzState) -> bool {
    let flight = state.in_flight->0;
    let entries = state.corpus.deep_view();
    let base = entries[state.base as int];
    let tokens = vocabulary(state.dictionary);
    &&& state.in_flight is Some
    &&& state.phase != StagePhase::Idle
    &&& flight.kind != RunKind::Seed
    &&& flight.kind == RunKind::Trial <==> state.phase == StagePhase::Generalizing
    &&& flight.kind == RunKind::Trace <==> state.phase == StagePhase::Tracing
    &&& flight.kind == RunKind::Trace ==> flight.input.bytes@ == base.input.bytes
    &&& flight.kind == RunKind::Mutant ==> flight.lineage.parent == Some(state.base)
        && flight.lineage.origin == origin_of(state.phase)
    &&& state.phase != StagePhase::Grimoire ==> flight.input.generalized is None
    &&& state.phase == StagePhase::InputToState ==> state.next_mutant > 0
        && flight.input.bytes@ == state.trace_mutants@[state.next_mutant - 1]@
    &&& state.phase == StagePhase::Havoc ==> stacked(
        base.input.bytes,
        tokens,
        flight.input.bytes@,
        2,
    ) || stacked(base.input.bytes, tokens, flight.input.bytes@, 4)
    &&& state.phase == StagePhase::Grimoire ==> {
        &&& base.input.generalized is Some
        &&& flight.input.deep_view().generalized is Some
        &&& flight.input.bytes@ == flatten(flight.input.deep_view().generalized->0)
        &&& exists|depth: nat|
            (depth == 2 || depth == 4 || depth == 8) && #[trigger] structurally_stacked(
                base.input.generalized->0,
                entries,
                tokens,
                flight.input.deep_view().generalized->0,
                depth,
            )
    }
}

/// What the end of a generalization leaves in the corpus: nothing changes, or the
/// base input, and no other, received the generalized form of the mask that the
/// generalization had arrived at after at least its first proposal was accepted.
pub open spec fn forms_settled(before: FuzzState, after: FuzzState) -> bool {
    let old_entries = before.corpus.deep_view();
    let new_entries = after.corpus.deep_view();
    ||| after.corpus == before.corpus
    ||| {
        &&& before.generalizer is Some
        &&& before.generalizer->0.verified
        &&& before.base < old_entries.len()
        &&& new_entries == old_entries.update(
            before.base as int,
            EntryView {
                input: crate::input::InputView {
                    bytes: old_entries[before.base as int].input.bytes,
                    generalized: Some(chunks_of_mask(before.generalizer->0.mask@)),
                },
                ..old_entries[before.base as int]
            },
        )
    }
}

/// A new base input has been chosen: the minimizer ran over the corpus if it was due,
/// and the scheduler picked the base from the queue and moved its cursor behind it.
pub open spec fn picked_base(before: FuzzState, after: FuzzState) -> bool {
    let n = before.corpus.deep_view().len() as int;
    &&& after.base == pick_of(after.scheduler.demoted@, n, before.scheduler.cursor as int)
    &&& after.scheduler.cursor == cursor_after(after.base as int, n)
    &&& is_due(before.executions, before.minimize_every) ==> minimized(
        before.corpus.deep_view(),
        after.scheduler.demoted@,
        after.scheduler.scores@,
        after.scheduler.order@,
    )
    &&& !is_due(before.executions, before.minimize_every) ==> {
        &&& after.scheduler.demoted == before.scheduler.demoted
        &&& after.scheduler.scores == before.scheduler.scores
        &&& after.scheduler.order == before.scheduler.order
    }
}

/// What one move of the stage machine may change: generalized forms, the scheduler,
/// the random generator and the stage bookkeeping. A move that hands out nothing
/// brings the machine closer to the next execution.
pub open spec fn stepped(before: FuzzState, after: FuzzState, request: Option<Request>) -> bool {
    &&& after.wf()
    &&& same_but_forms(before.corpus.deep_view(), after.corpus.deep_view())
    &&& after.objectives == before.objectives
    &&& after.cumulative == before.cumulative
    &&& after.dictionary == before.dictionary
    &&& after.executions == before.executions
    &&& after.timeout_ms == before.timeout_ms
    &&& after.minimize_every == before.minimize_every
    &&& request is None ==> after.in_flight is None && steps_to_request(after.phase)
        < steps_to_request(before.phase)
    &&& request is Some ==> matches_flight(after, request->0) && stage_consistent(after)
    &&& before.phase != StagePhase::Idle ==> after.base == before.base && after.scheduler
        == before.scheduler
    &&& before.phase == StagePhase::Idle ==> picked_base(before, after) && request is None
    &&& before.phase != StagePhase::Generalizing ==> after.corpus == before.corpus
    &&& before.phase == StagePhase::Generalizing ==> forms_settled(before, after)
    &&& before.phase == StagePhase::Idle ==> after.generalizer is Some ==> !after.generalizer->0.verified
        && after.generalizer->0.pending is None
    &&& after.phase == StagePhase::Generalizing ==> before.phase == StagePhase::Idle || before.phase
        == StagePhase::Generalizing
}

/// The form that `entries` have once the base input received the generalized form
/// of `mask`.
pub open spec fn with_form(entries: Seq<EntryView>, base: int, mask: Seq<Option<u8>>) -> Seq<
    EntryView,
> {
    entries.update(
        base,
        EntryView {
            input: crate::input::InputView {
                bytes: entries[base].input.bytes,
                generalized: Some(chunks_of_mask(mask)),
            },
            ..entries[base]
        },
    )
}

/// The kind of the execution in flight.
pub open spec fn flight_kind(state: FuzzState) -> RunKind {
    state.in_flight->0.kind
}

/// The stage of the base input owes an execution at once: a generalization that has
/// a proposal to make, the tracing run, a comparison-guided mutant that has not been
/// handed out, a byte-level mutant that is still to be made, or a structural mutant
/// that is still to be made of a base input with a form to work on.
pub open spec fn owes(state: FuzzState) -> bool {
    match state.phase {
        StagePhase::Idle => false,
        StagePhase::Generalizing => state.generalizer is Some && (state.generalizer->0.pending
            is Some || !state.generalizer->0.exhausted()),
        StagePhase::Tracing => true,
        StagePhase::InputToState => state.next_mutant < state.trace_mutants@.len(),
        StagePhase::Havoc => state.remaining > 0,
        StagePhase::Grimoire => state.remaining > 0 && donor_of(
            state.corpus.deep_view(),
            state.base as int,
        ) is Some,
    }
}

/// What one move of the stage machine does, stage by stage.
///
/// A stage that owes an execution hands it out and stays: the generalization makes
/// its next proposal, tracing runs the base input, the mutational stages hand out
/// their next mutant and count it. A stage that owes nothing hands out nothing and
/// moves on: the idle stage picks a base input and starts its generalization, or
/// goes straight to tracing if the input has a form already; an exhausted
/// generalization attaches the form it found and goes to tracing; the
/// comparison-guided stage goes to the byte-level stage and the byte-level stage to
/// the structural stage, each drawing between one and `MAX_STAGE_MUTANTS` mutants
/// to make; the structural stage goes back to idle.
pub open spec fn stage_move(before: FuzzState, after: FuzzState, request: Option<Request>) -> bool {
    let entries = before.corpus.deep_view();
    &&& request is Some <==> owes(before)
    &&& match before.phase {
        StagePhase::Idle => {
            let base = entries[after.base as int];
            &&& after == (FuzzState {
                scheduler: after.scheduler,
                base: after.base,
                generalizer: after.generalizer,
                phase: after.phase,
                ..before
            })
            &&& picked_base(before, after)
            &&& base.input.generalized is Some ==> after.phase == StagePhase::Tracing
                && after.generalizer is None
            &&& base.input.generalized is None ==> after.phase == StagePhase::Generalizing
                && after.generalizer is Some && started(
                after.generalizer->0,
                base.input.bytes,
                base.coverage,
                MAX_GENERALIZATION_TRIALS,
            )
        },
        StagePhase::Generalizing => match before.generalizer {
            None => after == (FuzzState { phase: StagePhase::Tracing, ..before }),
            Some(g) => if g.pending is Some || !g.exhausted() {
                &&& after.generalizer is Some
                &&& request is Some ==> proposed(g, after.generalizer->0, Some(request->0.bytes@))
                &&& flight_kind(after) == RunKind::Trial
                &&& after == (FuzzState {
                    generalizer: after.generalizer,
                    in_flight: after.in_flight,
                    ..before
                })
            } else {
                &&& after == (FuzzState {
                    phase: StagePhase::Tracing,
                    generalizer: None,
                    corpus: after.corpus,
                    ..before
                })
                &&& after.corpus.deep_view() == if g.verified && !g.abandoned {
                    with_form(entries, before.base as int, g.mask@)
                } else {
                    entries
                }
            },
        },
        StagePhase::Tracing => {
            &&& flight_kind(after) == RunKind::Trace
            &&& after == (FuzzState { in_flight: after.in_flight, ..before })
        },
        StagePhase::InputToState => if before.next_mutant < before.trace_mutants@.len() {
            &&& flight_kind(after) == RunKind::Mutant
            &&& after.next_mutant == before.next_mutant + 1
            &&& after == (FuzzState {
                in_flight: after.in_flight,
                next_mutant: (before.next_mutant + 1) as usize,
                ..before
            })
        } else {
            &&& 1 <= after.remaining <= MAX_STAGE_MUTANTS
            &&& after == (FuzzState {
                phase: StagePhase::Havoc,
                remaining: after.remaining,
                rng: after.rng,
                ..before
            })
        },
        StagePhase::Havoc => if before.remaining > 0 {
            &&& flight_kind(after) == RunKind::Mutant
            &&& after == (FuzzState {
                in_flight: after.in_flight,
                remaining: (before.remaining - 1) as usize,
                rng: after.rng,
                ..before
            })
        } else {
            &&& 1 <= after.remaining <= MAX_STAGE_MUTANTS
            &&& after == (FuzzState {
                phase: StagePhase::Grimoire,
                remaining: after.remaining,
                rng: after.rng,
                ..before
            })
        },
        StagePhase::Grimoire => if before.remaining > 0 && donor_of(entries, before.base as int)
            is Some {
            &&& flight_kind(after) == RunKind::Mutant
            &&& after == (FuzzState {
                in_flight: after.in_flight,
                remaining: (before.remaining - 1) as usize,
                rng: after.rng,
                ..before
            })
        } else {
            after == (FuzzState { phase: StagePhase::Idle, ..before })
        },
    }
}

/// One move of the stage machine: what it may change, and what it does.
pub open spec fn moved(before: FuzzState, after: FuzzState, request: Option<Request>) -> bool {
    &&& stepped(before, after, request)
    &&& stage_move(before, after, request)
}

/// `trail` records the moves that lead from `first` to the state `last` in which
/// `request` was handed out: no more than six, of which only the last hands out.
pub open spec fn is_trail(
    trail: Seq<FuzzState>,
    first: FuzzState,
    last: FuzzState,
    request: Request,
) -> bool {
    &&& 2 <= trail.len() <= 7
    &&& trail[0] == first
    &&& trail[trail.len() - 1] == last
    &&& forall|k: int| 0 <= k < trail.len() - 2 ==> moved(#[trigger] trail[k], trail[k + 1], None)
    &&& moved(trail[trail.len() - 2], last, Some(request))
}

/// The stage machine, started in `first`, hands out `request` in `last`.
pub open spec fn reached(first: FuzzState, last: FuzzState, request: Request) -> bool {
    exists|trail: Seq<FuzzState>| #[trigger] is_trail(trail, first, last, request)
}

/// Stage order, first link: once every comparison-guided mutant has been handed out,
/// the next execution is a byte-level mutant of the same base input, the first of
/// between one and `MAX_STAGE_MUTANTS` that the byte-level stage drew.
pub proof fn lemma_byte_level_stage_follows(before: FuzzState, after: FuzzState, request: Request)
    requires
        before.phase == StagePhase::InputToState,
        before.next_mutant >= before.trace_mutants@.len(),
        reached(before, after, request),
    ensures
        after.phase == StagePhase::Havoc,
        after.base == before.base,
        after.remaining < MAX_STAGE_MUTANTS,
        flight_kind(after) == RunKind::Mutant,
        after.corpus == before.corpus,
{
    let trail = choose|trail: Seq<FuzzState>| #[trigger] is_trail(trail, before, after, request);
    let n = trail.len() as int;
    if n == 2 {
        assert(moved(trail[0], after, Some(request)));
    } else {
        assert(moved(trail[0], trail[0int + 1], None));
        if n == 3 {
            assert(moved(trail[1], after, Some(request)));
        } else {
            assert(moved(trail[1], trail[1int + 1], None));
        }
    }
}

/// Stage order, second link: once the byte-level stage has made its mutants, the next
/// execution is a structural mutant of the same base input, provided that input
/// has a form to work on.
pub proof fn lemma_structural_stage_follows(before: FuzzState, after: FuzzState, request: Request)
    requires
        before.phase == StagePhase::Havoc,
        before.remaining == 0,
        donor_of(before.corpus.deep_view(), before.base as int) is Some,
        reached(before, after, request),
    ensures
        after.phase == StagePhase::Grimoire,
        after.base == before.base,
        after.remaining < MAX_STAGE_MUTANTS,
        flight_kind(after) == RunKind::Mutant,
        after.corpus == before.corpus,
{
    let trail = choose|trail: Seq<FuzzState>| #[trigger] is_trail(trail, before, after, request);
    let n = trail.len() as int;
    if n == 2 {
        assert(moved(trail[0], after, Some(request)));
    } else {
        assert(moved(trail[0], trail[0int + 1], None));
        if n == 3 {
            assert(moved(trail[1], after, Some(request)));
        } else {
            assert(moved(trail[1], trail[1int + 1], None));
        }
    }
}

/// Stage order, last link: once the structural stage is through, the scheduler picks
/// the next base input, and the next execution is the first of its stages: the
/// unchanged input as first proposal of its generalization, or its tracing run if
/// it has a form already or is too long to be generalized.
pub proof fn lemma_next_base_follows(before: FuzzState, after: FuzzState, request: Request)
    requires
        before.phase == StagePhase::Grimoire,
        before.remaining == 0,
        reached(before, after, request),
    ensures
        after.corpus == before.corpus,
        after.base == pick_of(
            after.scheduler.demoted@,
            before.corpus.deep_view().len() as int,
            before.scheduler.cursor as int,
        ),
        after.phase == StagePhase::Generalizing || after.phase == StagePhase::Tracing,
        request.bytes@ == before.corpus.deep_view()[after.base as int].input.bytes,
        after.phase == StagePhase::Generalizing <==> before.corpus.deep_view()[after.base as int].input.generalized
            is None && before.corpus.deep_view()[after.base as int].input.bytes.len()
            <= crate::generalize::MAX_GENERALIZED_LEN,
{
    let trail = choose|trail: Seq<FuzzState>| #[trigger] is_trail(trail, before, after, request);
    let n = trail.len() as int;
    assert(n >= 3) by {
        if n == 2 {
            assert(moved(trail[0], after, Some(request)));
        }
    }
    assert(moved(trail[0], trail[0int + 1], None));
    let idle = trail[1];
    assert(idle.phase == StagePhase::Idle);
    assert(n >= 4) by {
        if n == 3 {
            assert(moved(trail[1], after, Some(request)));
        }
    }
    assert(moved(trail[1], trail[1int + 1], None));
    let picked = trail[2];
    let base = before.corpus.deep_view()[picked.base as int];
    if n == 4 {
        assert(moved(trail[2], after, Some(request)));
        if picked.phase == StagePhase::Generalizing {
            let g = picked.generalizer->0;
            assert(request.bytes@ == candidate_of(g.mask@, 0, 0));
            assert(blanked(g.mask@, 0, 0) =~= g.mask@);
        }
    } else {
        assert(moved(trail[2], trail[2int + 1], None));
        assert(picked.phase == StagePhase::Generalizing);
        assert(n == 5) by {
            if n > 5 {
                assert(moved(trail[3], trail[3int + 1], None));
            }
        }
        assert(moved(trail[3], after, Some(request)));
    }
}

/// A seed is waiting to be handed out.
pub open spec fn seed_pending(state: FuzzState) -> bool {
    state.next_seed < state.seeds@.len()
}

/// Builds one structural mutant of the entry behind `base`. It is made exactly if
/// that entry carries a generalized form that starts and ends with a gap, and is then
/// a stack of 2, 4 or 8 operator applications on that form.
fn structural_mutant_of(
    rng: &mut StdRand,
    corpus: &Corpus,
    base: usize,
    dictionary: &Option<Tokens>,
) -> (mutant: Option<Vec<Segment>>)
    requires
        base < corpus.deep_view().len(),
    ensures
        mutant is Some <==> donor_of(corpus.deep_view(), base as int) is Some,
        mutant is None ==> *final(rng) == *old(rng),
        mutant is Some ==> {
            let form = corpus.deep_view()[base as int].input.generalized;
            &&& form is Some
            &&& gap_bounded(mutant->0.deep_view())
            &&& exists|depth: nat|
                (depth == 2 || depth == 4 || depth == 8) && #[trigger] structurally_stacked(
                    form->0,
                    corpus.deep_view(),
                    vocabulary(*dictionary),
                    mutant->0.deep_view(),
                    depth,
                )
        },
{
    match donor_at(corpus, base) {
        Some(form) => {
            let none = tokens_new();
            let tokens = match dictionary {
                Some(tokens) => tokens,
                None => &none,
            };
            assert(token_list(*tokens) == vocabulary(*dictionary));
            let mutant = structural_mutant(rng, form, corpus, tokens);
            proof {
                assert(corpus.deep_view()[base as int].input.generalized == Some(
                    form.deep_view(),
                ));
                let depth = choose|depth: nat|
                    (depth == 2 || depth == 4 || depth == 8) && #[trigger] structurally_stacked(
                        form.deep_view(),
                        corpus.deep_view(),
                        token_list(*tokens),
                        mutant.deep_view(),
                        depth,
                    );
                assert(structurally_stacked(
                    corpus.deep_view()[base as int].input.generalized->0,
                    corpus.deep_view(),
                    vocabulary(*dictionary),
                    mutant.deep_view(),
                    depth,
                ));
            }
            Some(mutant)
        },
        None => None,
    }
}

/// Builds one byte-level mutant of the entry behind `base`.
fn havoc_mutant_of(rng: &mut StdRand, corpus: &Corpus, base: usize, dictionary: &Option<Tokens>) -> (mutant:
    Vec<u8>)
    requires
        base < corpus.deep_view().len(),
        no_empty_tokens(vocabulary(*dictionary)),
    ensures
        stacked(
            corpus.deep_view()[base as int].input.bytes,
            vocabulary(*dictionary),
            mutant@,
            2,
        ) || stacked(corpus.deep_view()[base as int].input.bytes, vocabulary(*dictionary), mutant@, 4),
{
    let entry = corpus.get(base);
    match dictionary {
        Some(tokens) => havoc_mutant(rng, &entry.input.bytes, tokens),
        None => {
            let none = tokens_new();
            havoc_mutant(rng, &entry.input.bytes, &none)
        },
    }
}

/// What a report does to the state: `after` is `before` once `result` has been
/// reported, and `verdict` is the judgement that the report returned.
///
/// A seed or a mutant is judged by the feedback: if it is interesting it is appended
/// to the working corpus with the observed coverage and duration; if it crashed it
/// goes to the objective store instead, unless the store already holds the same
/// bytes. A generalization proposal is kept or reverted, a tracing run yields the
/// comparison-guided mutants; neither touches the stores or the cumulative map.
/// With nothing in flight the result is dropped.
pub open spec fn reported(
    before: FuzzState,
    after: FuzzState,
    result: ExecResult,
    verdict: Verdict,
) -> bool {
    &&& after.wf()
    &&& after.in_flight is None
    &&& subset_bits(before.cumulative@, after.cumulative@)
    &&& after.timeout_ms == before.timeout_ms
    &&& after.minimize_every == before.minimize_every
    &&& after.dictionary == before.dictionary
    &&& after.seeds == before.seeds
    &&& after.next_seed == before.next_seed
    &&& before.in_flight is None ==> after == before && !verdict.is_interesting
        && !verdict.is_objective
    &&& before.in_flight is Some ==> after.executions == bumped(before.executions)
    &&& before.in_flight is Some && (before.in_flight->0.kind == RunKind::Seed || before.in_flight->0.kind == RunKind::Mutant) ==> {
        let flight = before.in_flight->0;
        let seen = before.cumulative@;
        let coverage = result.observation.coverage;
        &&& verdict.is_interesting == coverage_vote(seen, result.outcome, coverage)
        &&& verdict.is_objective == (result.outcome == Outcome::Crashed)
        &&& after.cumulative@ == cumulative_after(seen, result.outcome, coverage)
        &&& after.corpus.deep_view() == if verdict.is_interesting {
            before.corpus.deep_view().push(
                accepted_entry(
                    before.corpus.deep_view().len(),
                    flight,
                    coverage->0@,
                    result.observation.elapsed_ms,
                ),
            )
        } else {
            before.corpus.deep_view()
        }
        &&& after.objectives.deep_view() == if verdict.is_objective && !holds_bytes(
            before.objectives.deep_view(),
            flight.input.bytes@,
        ) {
            before.objectives.deep_view().push(
                accepted_entry(
                    before.objectives.deep_view().len(),
                    flight,
                    objective_coverage(seen, coverage),
                    result.observation.elapsed_ms,
                ),
            )
        } else {
            before.objectives.deep_view()
        }
        &&& after.phase == before.phase
        &&& after.base == before.base
        &&& after.rng == before.rng
        &&& after.scheduler == before.scheduler
        &&& after.generalizer == before.generalizer
        &&& after.trace_mutants == before.trace_mutants
        &&& after.next_mutant == before.next_mutant
        &&& after.remaining == before.remaining
            }
    &&& before.in_flight is Some && (before.in_flight->0.kind == RunKind::Trial || before.in_flight->0.kind == RunKind::Trace) ==> {
        &&& !verdict.is_interesting
        &&& !verdict.is_objective
        &&& after.cumulative == before.cumulative
        &&& after.corpus == before.corpus
        &&& after.objectives == before.objectives
        &&& after.base == before.base
        &&& after.rng == before.rng
        &&& after.scheduler == before.scheduler
        &&& after.remaining == before.remaining
            }
    &&& before.in_flight is Some && before.in_flight->0.kind == RunKind::Trial ==> {
        &&& after.phase == before.phase
        &&& after.trace_mutants == before.trace_mutants
        &&& after.next_mutant == before.next_mutant
        &&& after.generalizer is Some <==> before.generalizer is Some
        &&& before.generalizer is Some ==> judged(
            before.generalizer->0,
            after.generalizer->0,
            result.outcome,
            result.observation.coverage,
        )
            }
    &&& before.in_flight is Some && before.in_flight->0.kind == RunKind::Trace ==> {
        &&& after.generalizer == before.generalizer
        &&& before.phase != StagePhase::Tracing ==> after.phase == before.phase
            && after.trace_mutants == before.trace_mutants && after.next_mutant == before.next_mutant
            }
    &&& before.in_flight is Some && before.in_flight->0.kind == RunKind::Trace && before.phase == StagePhase::Tracing ==> {
        &&& after.phase == StagePhase::InputToState
        &&& after.next_mutant == 0
        &&& after.trace_mutants.deep_view() == if result.outcome
            == Outcome::Completed {
            mutants_upto(
                before.corpus.deep_view()[before.base as int].input.bytes,
                result.comparisons.deep_view(),
                capped(result.comparisons@.len() as int, MAX_TRACE_MUTANTS as int),
            )
        } else {
            Seq::<Seq<u8>>::empty()
        }
            }
}

impl FuzzState {
    /// The state is consistent: handles point into the corpus, positions lie within
    /// what they index, the cumulative map retains every entry's coverage, and the
    /// dictionary holds no empty token.
    pub open spec fn wf(&self) -> bool {
        &&& self.corpus.wf()
        &&& self.objectives.wf()
        &&& retained(self.corpus.deep_view(), self.cumulative@)
        &&& no_empty_tokens(vocabulary(self.dictionary))
        &&& self.phase != StagePhase::Idle ==> self.base < self.corpus.deep_view().len()
        &&& self.phase == StagePhase::Generalizing ==> self.generalizer is Some
        &&& self.generalizer is Some ==> self.generalizer->0.wf()
        &&& self.next_mutant <= self.trace_mutants@.len()
        &&& self.next_seed <= self.seeds@.len()
    }

    /// Whether the cumulative map retains the coverage of every entry.
    fn retains_corpus(&self) -> (ok: bool)
        ensures
            ok == retained(self.corpus.deep_view(), self.cumulative@),
    {
        let mut i: usize = 0;
        while i < self.corpus.count()
            invariant
                i <= self.corpus.deep_view().len(),
                forall|k: int|
                    0 <= k < i ==> subset_bits(
                        (#[trigger] self.corpus.deep_view()[k]).coverage,
                        self.cumulative@,
                    ),
            decreases self.corpus.deep_view().len() - i,
        {
            if !self.corpus.get(i).coverage.is_subset_of(&self.cumulative) {
                return false;
            }
            i = i + 1;
        }
        true
    }

    /// Whether the state is consistent. A state that was not built by this engine, such
    /// as one read back from a channel, is checked with this before it is used.
    pub fn is_consistent(&self) -> (ok: bool)
        ensures
            ok == self.wf(),
    {
        let usable = match &self.dictionary {
            Some(tokens) => is_usable(tokens),
            None => true,
        };
        let based = self.phase == StagePhase::Idle || self.base < self.corpus.count();
        let staged = match &self.generalizer {
            Some(generalizer) => generalizer.is_wf(),
            None => self.phase != StagePhase::Generalizing,
        };
        self.corpus.is_wf() && self.objectives.is_wf() && self.retains_corpus() && usable && based
            && staged && self.next_mutant <= self.trace_mutants.len() && self.next_seed
            <= self.seeds.len()
    }

    /// A campaign that has executed nothing: both stores are empty and the cumulative
    /// map, of `map_size` locations, has none set.
    pub fn new(seed: u64, map_size: usize, timeout_ms: u64, minimize_every: u64) -> (state: FuzzState)
        ensures
            state.wf(),
            state.corpus.deep_view().len() == 0,
            state.objectives.deep_view().len() == 0,
            state.cumulative@.len() == map_size,
            forall|i: int| 0 <= i < map_size ==> !state.cumulative@[i],
            state.executions == 0,
            state.timeout_ms == timeout_ms,
            state.minimize_every == minimize_every,
            state.phase == StagePhase::Idle,
            state.in_flight is None,
            state.dictionary is None,
            state.scheduler.cursor == 0,
            state.scheduler.demoted@.len() == 0,
            state.scheduler.scores@.len() == 0,
            state.scheduler.order@.len() == 0,
            state.base == 0,
            state.generalizer is None,
            state.trace_mutants@.len() == 0,
            state.next_mutant == 0,
            state.remaining == 0,
            state.seeds@.len() == 0,
            state.next_seed == 0,
    {
        FuzzState {
            rng: rng_with_seed(seed),
            corpus: Corpus::new(),
            objectives: Corpus::new(),
            cumulative: CoverageMap::empty(map_size),
            dictionary: None,
            scheduler: Scheduler::new(),
            executions: 0,
            timeout_ms,
            minimize_every,
            phase: StagePhase::Idle,
            base: 0,
            generalizer: None,
            trace_mutants: Vec::new(),
            next_mutant: 0,
            remaining: 0,
            seeds: Vec::new(),
            next_seed: 0,
            in_flight: None,
        }
    }

    /// Gives the campaign its dictionary, or takes it away. A dictionary that holds an
    /// empty token is refused and the campaign keeps what it had.
    pub fn install_dictionary(&mut self, dictionary: Option<Tokens>) -> (installed: bool)
        requires
            old(self).wf(),
        ensures
            final(self).wf(),
            installed == no_empty_tokens(vocabulary(dictionary)),
            installed ==> final(self).dictionary == dictionary,
            !installed ==> final(self).dictionary == old(self).dictionary,
            *final(self) == (FuzzState { dictionary: final(self).dictionary, ..*old(self) }),
    {
        let usable = match &dictionary {
            Some(tokens) => is_usable(tokens),
            None => true,
        };
        if usable {
            self.dictionary = dictionary;
        }
        usable
    }

    /// Gives the campaign its seeds. They are handed out first, in this order, one per
    /// request, and how far the import has come is part of the state, so that a seed
    /// on which the target dies is not offered again.
    pub fn queue_seeds(&mut self, seeds: Vec<Vec<u8>>)
        requires
            old(self).wf(),
        ensures
            final(self).wf(),
            final(self).seeds == seeds,
            final(self).next_seed == 0,
            *final(self) == (FuzzState { seeds, next_seed: 0, ..*old(self) }),
    {
        self.seeds = seeds;
        self.next_seed = 0;
    }

    /// Hands out the execution of a seed. The seed joins the corpus only if the
    /// feedback finds its execution interesting, like any other candidate.
    pub fn offer_seed(&mut self, bytes: Vec<u8>) -> (request: Request)
        requires
            old(self).wf(),
        ensures
            final(self).wf(),
            request.bytes@ == bytes@,
            request.timeout_ms == old(self).timeout_ms,
            !request.record_comparisons,
            final(self).in_flight is Some,
            final(self).in_flight->0.kind == RunKind::Seed,
            final(self).in_flight->0.input.bytes@ == bytes@,
            final(self).in_flight->0.input.generalized is None,
            final(self).in_flight->0.lineage.origin == Origin::Seed,
            final(self).in_flight->0.lineage.parent is None,
            *final(self) == (FuzzState { in_flight: final(self).in_flight, ..*old(self) }),
    {
        let copy = crate::input::copy_bytes(&bytes);
        self.in_flight = Some(
            InFlight {
                input: Input::from_bytes(bytes),
                kind: RunKind::Seed,
                lineage: Lineage { origin: Origin::Seed, parent: None },
            },
        );
        Request { bytes: copy, timeout_ms: self.timeout_ms, record_comparisons: false }
    }

    /// Consumes the result of the execution that was handed out last.
    ///
    /// A seed or a mutant is judged by the feedback: if it is interesting it is
    /// appended to the working corpus with the observed coverage and duration; if it
    /// crashed it goes to the objective store instead, unless the store already holds
    /// the same bytes. A generalization proposal is kept or reverted, a tracing run
    /// yields the comparison-guided mutants; neither touches the stores or the
    /// cumulative map. With nothing in flight the result is dropped.
    pub fn report(&mut self, result: ExecResult) -> (verdict: Verdict)
        requires
            old(self).wf(),
        ensures
            reported(*old(self), *final(self), result, verdict),
    {
        let flight = match self.in_flight.take() {
            Some(flight) => flight,
            None => {
                return Verdict { is_interesting: false, is_objective: false };
            },
        };
        let ghost before = *old(self);
        let ghost seen = self.cumulative@;
        if self.executions < u64::MAX {
            self.executions = self.executions + 1;
        }
        let ExecResult { outcome, observation, comparisons } = result;
        match flight.kind {
            RunKind::Seed | RunKind::Mutant => {
                let verdict = evaluate(&mut self.cumulative, outcome, &observation);
                proof {
                    lemma_retained_grows(self.corpus.deep_view(), seen, self.cumulative@);
                }
                let Observation { coverage, elapsed_ms } = observation;
                let InFlight { input, kind: _, lineage } = flight;
                if verdict.is_interesting {
                    match coverage {
                        Some(map) => {
                            proof {
                                lemma_union_is_least_upper_bound(seen, map@);
                            }
                            let ghost entries = self.corpus.deep_view();
                            let _ = self.corpus.add(input, map, elapsed_ms, lineage);
                            proof {
                                let grown = self.corpus.deep_view();
                                assert forall|i: int| 0 <= i < grown.len() implies subset_bits(
                                    (#[trigger] grown[i]).coverage,
                                    self.cumulative@,
                                ) by {
                                    if i < entries.len() {
                                        assert(grown[i] == entries[i]);
                                    }
                                }
                            }
                        },
                        None => {},
                    }
                } else if verdict.is_objective {
                    let map = match coverage {
                        Some(map) => map,
                        None => CoverageMap::empty(self.cumulative.size()),
                    };
                    proof {
                        assert(map@ =~= objective_coverage(seen, coverage));
                    }
                    let _ = self.objectives.add_distinct(input, map, elapsed_ms, lineage);
                }
                verdict
            },
            RunKind::Trial => {
                match self.generalizer.take() {
                    Some(generalizer) => {
                        let mut generalizer = generalizer;
                        generalizer.observe(outcome, &observation);
                        self.generalizer = Some(generalizer);
                    },
                    None => {},
                }
                Verdict { is_interesting: false, is_objective: false }
            },
            RunKind::Trace => {
                if self.phase == StagePhase::Tracing {
                    let mutants = if outcome == Outcome::Completed {
                        let base = self.corpus.get(self.base);
                        trace_mutants(&base.input.bytes, &comparisons, MAX_TRACE_MUTANTS)
                    } else {
                        let none: Vec<Vec<u8>> = Vec::new();
                        proof {
                            assert(none.deep_view() =~= Seq::<Seq<u8>>::empty());
                        }
                        none
                    };
                    self.trace_mutants = mutants;
                    self.next_mutant = 0;
                    self.phase = StagePhase::InputToState;
                }
                Verdict { is_interesting: false, is_objective: false }
            },
        }
    }

    /// Puts an execution in flight and builds the request for it.
    fn issue(&mut self, input: Input, kind: RunKind, lineage: Lineage) -> (request: Request)
        ensures
            matches_flight(*final(self), request),
            final(self).in_flight == Some(InFlight { input, kind, lineage }),
            *final(self) == (FuzzState { in_flight: final(self).in_flight, ..*old(self) }),
    {
        let bytes = copy_bytes(&input.bytes);
        let record_comparisons = kind == RunKind::Trace;
        let timeout_ms = if record_comparisons {
            tracing_timeout(self.timeout_ms)
        } else {
            self.timeout_ms
        };
        self.in_flight = Some(InFlight { input, kind, lineage });
        Request { bytes, timeout_ms, record_comparisons }
    }

    /// Leaves the idle stage: runs the minimizer if it is due and lets the scheduler
    /// pick the base input.
    fn step_idle(&mut self) -> (request: Option<Request>)
        requires
            old(self).wf(),
            old(self).in_flight is None,
            old(self).corpus.deep_view().len() > 0,
            old(self).phase == StagePhase::Idle,
        ensures
            moved(*old(self), *final(self), request),
            request is None,
    {
        if minimize_due(self.executions, self.minimize_every) {
            self.scheduler.minimize(&self.corpus);
        }
        let ghost flags = self.scheduler.demoted@;
        let ghost cursor = self.scheduler.cursor as int;
        let count = self.corpus.count();
        let ghost n = count as int;
        proof {
            crate::scheduler::lemma_pick(flags, n, cursor);
            assert(cursor == old(self).scheduler.cursor);
        }
        let picked = self.scheduler.next(&self.corpus);
        assert(picked == Some(pick_of(flags, n, cursor) as usize));
        let base = match picked {
            Some(base) => base,
            None => 0,
        };
        assert(base == pick_of(flags, n, cursor));
        assert(self.scheduler.demoted@ == flags);
        self.base = base;
        let entry = self.corpus.get(base);
        match &entry.input.generalized {
            Some(_) => {
                self.generalizer = None;
                self.phase = StagePhase::Tracing;
            },
            None => {
                let generalizer = Generalizer::start(
                    &entry.input.bytes,
                    entry.coverage.duplicate(),
                    MAX_GENERALIZATION_TRIALS,
                );
                self.generalizer = Some(generalizer);
                self.phase = StagePhase::Generalizing;
            },
        }
        None
    }

    /// Hands out the next proposal of the generalization, or ends the stage and
    /// attaches the generalized form that it found.
    fn step_generalizing(&mut self) -> (request: Option<Request>)
        requires
            old(self).wf(),
            old(self).in_flight is None,
            old(self).phase == StagePhase::Generalizing,
        ensures
            moved(*old(self), *final(self), request),
    {
        let mut generalizer = match self.generalizer.take() {
            Some(generalizer) => generalizer,
            None => {
                self.phase = StagePhase::Tracing;
                return None;
            },
        };
        match generalizer.next_trial() {
            Some(bytes) => {
                self.generalizer = Some(generalizer);
                let request = self.issue(
                    Input::from_bytes(bytes),
                    RunKind::Trial,
                    Lineage { origin: Origin::Havoc, parent: Some(self.base) },
                );
                Some(request)
            },
            None => {
                let ghost entries = self.corpus.deep_view();
                match generalizer.finish() {
                    Some(form) => {
                        self.corpus.attach_form(self.base, form);
                    },
                    None => {},
                }
                proof {
                    let after = self.corpus.deep_view();
                    assert forall|i: int| 0 <= i < after.len() implies subset_bits(
                        (#[trigger] after[i]).coverage,
                        self.cumulative@,
                    ) by {
                        assert(after[i].coverage == entries[i].coverage);
                    }
                }
                self.phase = StagePhase::Tracing;
                None
            },
        }
    }

    /// Hands out the tracing run of the base input.
    fn step_tracing(&mut self) -> (request: Option<Request>)
        requires
            old(self).wf(),
            old(self).in_flight is None,
            old(self).phase == StagePhase::Tracing,
        ensures
            moved(*old(self), *final(self), request),
            request is Some,
    {
        let entry = self.corpus.get(self.base);
        let input = Input::from_bytes(copy_bytes(&entry.input.bytes));
        let request = self.issue(
            input,
            RunKind::Trace,
            Lineage { origin: Origin::Havoc, parent: Some(self.base) },
        );
        Some(request)
    }

    /// Hands out the next comparison-guided mutant, or moves on to the byte-level
    /// stage and draws the number of its mutants.
    fn step_input_to_state(&mut self) -> (request: Option<Request>)
        requires
            old(self).wf(),
            old(self).in_flight is None,
            old(self).phase == StagePhase::InputToState,
        ensures
            moved(*old(self), *final(self), request),
    {
        if self.next_mutant < self.trace_mutants.len() {
            let bytes = copy_bytes(&self.trace_mutants[self.next_mutant]);
            self.next_mutant = self.next_mutant + 1;
            let request = self.issue(
                Input::from_bytes(bytes),
                RunKind::Mutant,
                Lineage { origin: Origin::InputToState, parent: Some(self.base) },
            );
            Some(request)
        } else {
            self.remaining = 1 + rng_below(&mut self.rng, MAX_STAGE_MUTANTS);
            self.phase = StagePhase::Havoc;
            None
        }
    }

    /// Hands out the next byte-level mutant, or moves on to the structural stage and
    /// draws the number of its mutants.
    fn step_havoc(&mut self) -> (request: Option<Request>)
        requires
            old(self).wf(),
            old(self).in_flight is None,
            old(self).phase == StagePhase::Havoc,
        ensures
            moved(*old(self), *final(self), request),
    {
        if self.remaining > 0 {
            self.remaining = self.remaining - 1;
            let bytes = havoc_mutant_of(&mut self.rng, &self.corpus, self.base, &self.dictionary);
            let request = self.issue(
                Input::from_bytes(bytes),
                RunKind::Mutant,
                Lineage { origin: Origin::Havoc, parent: Some(self.base) },
            );
            Some(request)
        } else {
            self.remaining = 1 + rng_below(&mut self.rng, MAX_STAGE_MUTANTS);
            self.phase = StagePhase::Grimoire;
            None
        }
    }

    /// Hands out the next structural mutant, or ends the work on this base input. A
    /// base input without a generalized form has no structural mutants.
    fn step_grimoire(&mut self) -> (request: Option<Request>)
        requires
            old(self).wf(),
            old(self).in_flight is None,
            old(self).phase == StagePhase::Grimoire,
        ensures
            moved(*old(self), *final(self), request),
    {
        if self.remaining == 0 {
            self.phase = StagePhase::Idle;
            return None;
        }
        let ghost entries = self.corpus.deep_view();
        let ghost tokens = vocabulary(self.dictionary);
        let form = structural_mutant_of(&mut self.rng, &self.corpus, self.base, &self.dictionary);
        match form {
            Some(form) => {
                let ghost shape = form.deep_view();
                self.remaining = self.remaining - 1;
                let request = self.issue(
                    Input::from_segments(form),
                    RunKind::Mutant,
                    Lineage { origin: Origin::Grimoire, parent: Some(self.base) },
                );
                proof {
                    let flight = self.in_flight->0;
                    assert(flight.input.deep_view().generalized == Some(shape));
                    assert(self.corpus.deep_view() == entries);
                    assert(vocabulary(self.dictionary) == tokens);
                    assert(stepped(*old(self), *self, Some(request)));
                    assert(stage_move(*old(self), *self, Some(request)));
                }
                Some(request)
            },
            None => {
                self.phase = StagePhase::Idle;
                proof {
                    assert(stepped(*old(self), *self, None));
                    assert(stage_move(*old(self), *self, None));
                }
                None
            },
        }
    }

    /// Makes one move of the stage machine: either hands out the next execution of
    /// the current stage, or leaves a stage that has nothing more to execute.
    fn step(&mut self) -> (request: Option<Request>)
        requires
            old(self).wf(),
            old(self).in_flight is None,
            old(self).corpus.deep_view().len() > 0,
        ensures
            moved(*old(self), *final(self), request),
    {
        match self.phase {
            StagePhase::Idle => self.step_idle(),
            StagePhase::Generalizing => self.step_generalizing(),
            StagePhase::Tracing => self.step_tracing(),
            StagePhase::InputToState => self.step_input_to_state(),
            StagePhase::Havoc => self.step_havoc(),
            StagePhase::Grimoire => self.step_grimoire(),
        }
    }

    /// Hands out the next execution.
    ///
    /// An execution that was handed out and not reported is handed out again. Seeds
    /// that wait are handed out first, one by one. After that the stages of a base
    /// input run in a fixed order: generalization, tracing, comparison-guided
    /// mutants, byte-level mutants, structural mutants; then the scheduler picks the
    /// next base input, after the minimizer has run if it is due. A stage that owes
    /// an execution hands it out at once; otherwise the machine moves through the
    /// stages, as `moved` says of each move, until one does. With no seed waiting
    /// and an empty corpus there is nothing to execute.
    pub fn next_request(&mut self) -> (request: Option<Request>)
        requires
            old(self).wf(),
        ensures
            final(self).wf(),
            same_but_forms(old(self).corpus.deep_view(), final(self).corpus.deep_view()),
            final(self).objectives == old(self).objectives,
            final(self).cumulative == old(self).cumulative,
            final(self).dictionary == old(self).dictionary,
            final(self).executions == old(self).executions,
            final(self).timeout_ms == old(self).timeout_ms,
            final(self).minimize_every == old(self).minimize_every,
            final(self).seeds == old(self).seeds,
            request is None <==> old(self).in_flight is None && !seed_pending(*old(self)) && old(self).corpus.deep_view().len() == 0,
            request is None ==> *final(self) == *old(self),
            request is Some ==> matches_flight(*final(self), request->0),
            old(self).in_flight is Some ==> *final(self) == *old(self),
            old(self).in_flight is None && seed_pending(*old(self)) ==> {
                let flight = final(self).in_flight->0;
                &&& *final(self) == (FuzzState {
                    in_flight: final(self).in_flight,
                    next_seed: (old(self).next_seed + 1) as usize,
                    ..*old(self)
                })
                &&& final(self).next_seed == old(self).next_seed + 1
                &&& flight.kind == RunKind::Seed
                &&& flight.input.bytes@ == old(self).seeds@[old(self).next_seed as int]@
                &&& flight.input.generalized is None
                &&& flight.lineage.origin == Origin::Seed
                &&& flight.lineage.parent is None
            },
            old(self).in_flight is None && !seed_pending(*old(self)) ==> final(self).next_seed
                == old(self).next_seed,
            old(self).in_flight is None && !seed_pending(*old(self)) && request is Some ==> {
                &&& stage_consistent(*final(self))
                &&& reached(*old(self), *final(self), request->0)
                &&& owes(*old(self)) ==> moved(*old(self), *final(self), request)
                &&& (final(self).base == old(self).base && final(self).scheduler == old(self).scheduler) || picked_base(*old(self), *final(self))
                &&& old(self).phase == StagePhase::Idle ==> picked_base(*old(self), *final(self))
            },
            old(self).phase != StagePhase::Generalizing ==> final(self).corpus == old(self).corpus,
            old(self).phase == StagePhase::Generalizing ==> forms_settled(*old(self), *final(self)),
    {
        match &self.in_flight {
            Some(flight) => {
                let record_comparisons = flight.kind == RunKind::Trace;
                let timeout_ms = if record_comparisons {
                    tracing_timeout(self.timeout_ms)
                } else {
                    self.timeout_ms
                };
                return Some(
                    Request { bytes: copy_bytes(&flight.input.bytes), timeout_ms, record_comparisons },
                );
            },
            None => {},
        }
        if self.next_seed < self.seeds.len() {
            let bytes = copy_bytes(&self.seeds[self.next_seed]);
            self.next_seed = self.next_seed + 1;
            let request = self.issue(
                Input::from_bytes(bytes),
                RunKind::Seed,
                Lineage { origin: Origin::Seed, parent: None },
            );
            return Some(request);
        }
        if self.corpus.count() == 0 {
            return None;
        }
        let mut fuel: usize = 6;
        let ghost mut trail: Seq<FuzzState> = seq![*self];
        while fuel > 0
            invariant
                self.wf(),
                self.in_flight is None,
                same_but_forms(old(self).corpus.deep_view(), self.corpus.deep_view()),
                self.corpus.deep_view().len() > 0,
                self.objectives == old(self).objectives,
                self.cumulative == old(self).cumulative,
                self.dictionary == old(self).dictionary,
                self.executions == old(self).executions,
                self.timeout_ms == old(self).timeout_ms,
                self.minimize_every == old(self).minimize_every,
                self.seeds == old(self).seeds,
                self.next_seed == old(self).next_seed,
                old(self).in_flight is None,
                !seed_pending(*old(self)),
                fuel <= 6,
                fuel == 6 ==> *self == *old(self),
                fuel < 6 ==> !owes(*old(self)),
                trail.len() == 7 - fuel,
                trail[0] == *old(self),
                trail[trail.len() - 1] == *self,
                forall|k: int|
                    0 <= k < trail.len() - 1 ==> moved(#[trigger] trail[k], trail[k + 1], None),
                steps_to_request(self.phase) <= fuel,
                steps_to_request(self.phase) <= steps_to_request(old(self).phase),
                self.corpus == old(self).corpus || steps_to_request(self.phase) < 3,
                old(self).phase != StagePhase::Generalizing ==> self.corpus == old(self).corpus,
                old(self).phase != StagePhase::Generalizing && self.phase
                    == StagePhase::Generalizing ==> self.generalizer is Some
                    ==> !self.generalizer->0.verified && self.generalizer->0.pending is None,
                old(self).phase == StagePhase::Generalizing ==> forms_settled(*old(self), *self)
                    && (self.phase == StagePhase::Generalizing ==> *self == *old(self)),
                (self.base == old(self).base && self.scheduler == old(self).scheduler && (old(self).phase == StagePhase::Idle ==> self.phase == StagePhase::Idle)) || (picked_base(
                    *old(self),
                    *self,
                ) && steps_to_request(self.phase) < 3),
            decreases fuel,
        {
            let ghost prior = *self;
            let ghost walked = trail;
            match self.step() {
                Some(request) => {
                    proof {
                        let whole = walked.push(*self);
                        assert forall|k: int| 0 <= k < whole.len() - 2 implies moved(
                            #[trigger] whole[k],
                            whole[k + 1],
                            None,
                        ) by {
                            assert(moved(walked[k], walked[k + 1], None));
                        }
                        assert(whole[whole.len() - 2] == prior);
                        assert(is_trail(whole, *old(self), *self, request));
                    }
                    return Some(request);
                },
                None => {},
            }
            proof {
                trail = walked.push(*self);
                assert forall|k: int| 0 <= k < trail.len() - 1 implies moved(
                    #[trigger] trail[k],
                    trail[k + 1],
                    None,
                ) by {
                    if k < walked.len() - 1 {
                        assert(moved(walked[k], walked[k + 1], None));
                    }
                }
            }
            fuel = fuel - 1;
        }
        None
    }
}

} // verus!
