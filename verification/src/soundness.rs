//! What holds of a whole campaign against a deterministic target: every generalized
//! form in the working corpus still reaches the coverage recorded for its entry.

use crate::corpus::EntryView;
use crate::coverage::subset_bits;
use crate::engine::{
    is_trail, moved, reached, reported, seed_pending, ExecResult, FuzzState, Request, RunKind,
    StagePhase,
};
use crate::executor::Outcome;
use crate::feedback::Verdict;
use crate::generalize::{
    candidate_of, hi_of, keeps_faith, lemma_generalized_form_reproduces_coverage,
    lemma_trial_keeps_coverage, lo_of,
};
use crate::input::flatten;
use vstd::prelude::*;

verus! {

/// The form of an entry, if it has one, flattens to bytes on which the target reaches
/// at least the coverage recorded for the entry.
pub open spec fn form_reproduces(entry: EntryView, target: spec_fn(Seq<u8>) -> Seq<bool>) -> bool {
    entry.input.generalized is Some ==> subset_bits(
        entry.coverage,
        target(flatten(entry.input.generalized->0)),
    )
}

/// Every form in the working corpus reproduces the coverage of its entry.
pub open spec fn forms_reproduce(
    entries: Seq<EntryView>,
    target: spec_fn(Seq<u8>) -> Seq<bool>,
) -> bool {
    forall|i: int| 0 <= i < entries.len() ==> form_reproduces(#[trigger] entries[i], target)
}

/// The campaign is sound against `target`: every form in the corpus reproduces the
/// coverage of its entry; a generalization under way asks for the coverage of its
/// base input and keeps faith; an input in flight that carries a form is that form
/// flattened; and a proposal in flight is the one that the generalization made.
pub open spec fn sound(state: FuzzState, target: spec_fn(Seq<u8>) -> Seq<bool>) -> bool {
    let entries = state.corpus.deep_view();
    &&& forms_reproduce(entries, target)
    &&& state.phase == StagePhase::Generalizing && state.generalizer is Some ==> {
        let g = state.generalizer->0;
        &&& state.base < entries.len()
        &&& g.required@ == entries[state.base as int].coverage
        &&& keeps_faith(g, target)
    }
    &&& state.in_flight is Some ==> {
        let flight = state.in_flight->0;
        &&& flight.input.deep_view().generalized is Some ==> flight.input.bytes@ == flatten(
            flight.input.deep_view().generalized->0,
        )
        &&& flight.kind == RunKind::Trial && state.phase == StagePhase::Generalizing
            && state.generalizer is Some && state.generalizer->0.pending is Some
            ==> flight.input.bytes@ == candidate_of(
            state.generalizer->0.mask@,
            lo_of(state.generalizer->0.pending),
            hi_of(state.generalizer->0.pending),
        )
    }
}

/// The result handed to a report is what the target yields on the input in flight:
/// where the execution completed and delivered a map, it is the target's map.
pub open spec fn truthful(
    state: FuzzState,
    result: ExecResult,
    target: spec_fn(Seq<u8>) -> Seq<bool>,
) -> bool {
    state.in_flight is Some && result.outcome == Outcome::Completed && result.observation.coverage
        is Some ==> result.observation.coverage->0@ == target(state.in_flight->0.input.bytes@)
}

/// A campaign that holds no entry, has nothing in flight and has chosen no base
/// input is sound.
pub proof fn lemma_fresh_campaign_is_sound(state: FuzzState, target: spec_fn(Seq<u8>) -> Seq<bool>)
    requires
        state.corpus.deep_view().len() == 0,
        state.in_flight is None,
        state.phase == StagePhase::Idle,
    ensures
        sound(state, target),
{
}

/// Putting a seed in flight keeps the campaign sound, whether it was offered or came
/// from the queue of seeds.
pub proof fn lemma_seed_keeps_sound(
    before: FuzzState,
    after: FuzzState,
    target: spec_fn(Seq<u8>) -> Seq<bool>,
)
    requires
        after == (FuzzState { in_flight: after.in_flight, next_seed: after.next_seed, ..before }),
        after.in_flight is Some,
        after.in_flight->0.kind == RunKind::Seed,
        after.in_flight->0.input.generalized is None,
        sound(before, target),
    ensures
        sound(after, target),
{
}

/// One move of the stage machine keeps the campaign sound.
pub proof fn lemma_move_keeps_sound(
    before: FuzzState,
    after: FuzzState,
    request: Option<Request>,
    target: spec_fn(Seq<u8>) -> Seq<bool>,
)
    requires
        before.wf(),
        before.in_flight is None,
        moved(before, after, request),
        sound(before, target),
    ensures
        sound(after, target),
{
    let old_entries = before.corpus.deep_view();
    let new_entries = after.corpus.deep_view();
    if before.phase == StagePhase::Generalizing && before.generalizer is Some {
        let g = before.generalizer->0;
        if !(g.pending is Some || !g.exhausted()) && g.verified && !g.abandoned {
            lemma_generalized_form_reproduces_coverage(g.mask@, g.required@, target);
            assert forall|i: int| 0 <= i < new_entries.len() implies form_reproduces(
                #[trigger] new_entries[i],
                target,
            ) by {
                if i != before.base {
                    assert(new_entries[i] == old_entries[i]);
                    assert(form_reproduces(old_entries[i], target));
                }
            }
        } else {
            assert(new_entries == old_entries);
        }
    } else {
        assert(new_entries == old_entries);
    }
}

/// The moves that lead to the next request keep the campaign sound.
pub proof fn lemma_trail_keeps_sound(
    trail: Seq<FuzzState>,
    first: FuzzState,
    last: FuzzState,
    request: Request,
    target: spec_fn(Seq<u8>) -> Seq<bool>,
    k: int,
)
    requires
        first.wf(),
        first.in_flight is None,
        is_trail(trail, first, last, request),
        sound(first, target),
        0 <= k < trail.len() - 1,
    ensures
        sound(trail[k], target),
        trail[k].wf(),
        trail[k].in_flight is None,
    decreases k,
{
    if k > 0 {
        lemma_trail_keeps_sound(trail, first, last, request, target, k - 1);
        assert(moved(trail[k - 1], trail[k - 1 + 1], None));
        lemma_move_keeps_sound(trail[k - 1], trail[k], None, target);
    }
}

/// Handing out the next stage execution keeps the campaign sound.
pub proof fn lemma_request_keeps_sound(
    before: FuzzState,
    after: FuzzState,
    request: Request,
    target: spec_fn(Seq<u8>) -> Seq<bool>,
)
    requires
        before.wf(),
        before.in_flight is None,
        !seed_pending(before),
        reached(before, after, request),
        sound(before, target),
    ensures
        sound(after, target),
{
    let trail = choose|trail: Seq<FuzzState>| #[trigger] is_trail(trail, before, after, request);
    let k = trail.len() - 2;
    lemma_trail_keeps_sound(trail, before, after, request, target, k);
    lemma_move_keeps_sound(trail[k], after, Some(request), target);
}

/// Reporting what the target truly yielded keeps the campaign sound.
pub proof fn lemma_report_keeps_sound(
    before: FuzzState,
    after: FuzzState,
    result: ExecResult,
    verdict: Verdict,
    target: spec_fn(Seq<u8>) -> Seq<bool>,
)
    requires
        before.wf(),
        reported(before, after, result, verdict),
        sound(before, target),
        truthful(before, result, target),
    ensures
        sound(after, target),
{
    let old_entries = before.corpus.deep_view();
    let new_entries = after.corpus.deep_view();
    if before.in_flight is Some {
        let flight = before.in_flight->0;
        if flight.kind == RunKind::Seed || flight.kind == RunKind::Mutant {
            assert forall|i: int| 0 <= i < new_entries.len() implies form_reproduces(
                #[trigger] new_entries[i],
                target,
            ) by {
                if i < old_entries.len() {
                    assert(new_entries[i] == old_entries[i]);
                    assert(form_reproduces(old_entries[i], target));
                } else {
                    let coverage = result.observation.coverage->0@;
                    assert(subset_bits(coverage, coverage));
                }
            }
            if before.phase == StagePhase::Generalizing && before.generalizer is Some {
                assert(new_entries[before.base as int] == old_entries[before.base as int]);
            }
        } else if flight.kind == RunKind::Trial {
            if before.generalizer is Some {
                let g = before.generalizer->0;
                if g.pending is Some && before.phase == StagePhase::Generalizing {
                    lemma_trial_keeps_coverage(
                        g.mask@,
                        g.required@,
                        lo_of(g.pending),
                        hi_of(g.pending),
                        g.verified,
                        result.outcome,
                        result.observation.coverage,
                        target,
                    );
                }
            }
        }
    }
}

/// Round trip over a whole campaign: in a sound campaign, every entry of the working
/// corpus that carries a generalized form has a form which, with every gap filled
/// with nothing and the fixed chunks concatenated, is a byte string on which the
/// target reaches at least the coverage recorded for the entry.
pub proof fn lemma_forms_reproduce_coverage(
    state: FuzzState,
    target: spec_fn(Seq<u8>) -> Seq<bool>,
    id: int,
)
    requires
        sound(state, target),
        0 <= id < state.corpus.deep_view().len(),
        state.corpus.deep_view()[id].input.generalized is Some,
    ensures
        subset_bits(
            state.corpus.deep_view()[id].coverage,
            target(flatten(state.corpus.deep_view()[id].input.generalized->0)),
        ),
{
    assert(form_reproduces(state.corpus.deep_view()[id], target));
}

} // verus!
