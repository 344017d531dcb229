//! The generalization stage: which bytes of an input carry its coverage?
//!
//! The stage proposes the input with one range of bytes left out, the caller executes
//! the proposal, and the stage keeps the range out if the recorded coverage is still
//! reached. What is left out becomes a gap of the generalized form.

use crate::coverage::{subset_bits, CoverageMap};
use crate::executor::Outcome;
use crate::feedback::Observation;
use crate::input::{chunks_of_mask, flatten, full_mask, kept, lemma_chunks_of_mask, segments_from_mask, Segment};
use vstd::prelude::*;

verus! {

/// Inputs longer than this are not generalized.
pub const MAX_GENERALIZED_LEN: usize = 8192;

/// The number of passes over the input, one per window size.
pub const WINDOW_LEVELS: usize = 5;

/// The window size of a pass: 256, 128, 64, 32 and 1 byte.
pub open spec fn window_of(level: int) -> int {
    if level == 0 {
        256
    } else if level == 1 {
        128
    } else if level == 2 {
        64
    } else if level == 3 {
        32
    } else {
        1
    }
}

/// The window size of a pass.
pub fn window_at(level: usize) -> (window: usize)
    requires
        level < WINDOW_LEVELS,
    ensures
        window == window_of(level as int),
        window >= 1,
{
    if level == 0 {
        256
    } else if level == 1 {
        128
    } else if level == 2 {
        64
    } else if level == 3 {
        32
    } else {
        1
    }
}

/// The state of one generalization.
#[derive(Debug)]
pub struct Generalizer {
    /// The input, with `None` for every byte found to be dispensable.
    pub mask: Vec<Option<u8>>,
    /// The coverage that every accepted proposal must still reach.
    pub required: CoverageMap,
    /// The current pass.
    pub level: usize,
    /// Where the next window of the current pass starts.
    pub start: usize,
    /// How many proposals may still be made.
    pub attempts_left: usize,
    /// The range left out of the proposal that awaits its execution.
    pub pending: Option<(usize, usize)>,
    /// The unchanged input has been executed and reached the required coverage.
    pub verified: bool,
    /// The input is too long or did not reach its coverage again; it stays as it is.
    pub abandoned: bool,
}

/// `mask` with every byte from `lo` up to `hi` left out.
pub open spec fn blanked(mask: Seq<Option<u8>>, lo: int, hi: int) -> Seq<Option<u8>> {
    Seq::new(
        mask.len(),
        |i: int|
            if lo <= i < hi {
                None
            } else {
                mask[i]
            },
    )
}

/// The bytes proposed for execution when the range from `lo` up to `hi` is tried.
pub open spec fn candidate_of(mask: Seq<Option<u8>>, lo: int, hi: int) -> Seq<u8> {
    kept(blanked(mask, lo, hi))
}

/// The range from `lo` up to `hi` still holds a byte.
pub open spec fn has_kept(mask: Seq<Option<u8>>, lo: int, hi: int) -> bool {
    exists|i: int| lo <= i < hi && 0 <= i < mask.len() && #[trigger] mask[i] is Some
}

/// Where the window that starts at `start` ends.
pub open spec fn range_end(len: int, start: int, level: int) -> int {
    if start + window_of(level) <= len {
        start + window_of(level)
    } else {
        len
    }
}

/// The next range to try: the first window, from `start` on in pass `level` and then
/// through the later passes, that still holds a byte. Given as pass, start and end.
pub open spec fn next_range(mask: Seq<Option<u8>>, level: int, start: int) -> Option<(int, int, int)>
    decreases WINDOW_LEVELS - level, mask.len() - start,
{
    if level < 0 || level >= WINDOW_LEVELS || start < 0 {
        None
    } else if start >= mask.len() {
        next_range(mask, level + 1, 0)
    } else if has_kept(mask, start, range_end(mask.len() as int, start, level)) {
        Some((level, start, range_end(mask.len() as int, start, level)))
    } else {
        next_range(mask, level, range_end(mask.len() as int, start, level))
    }
}

/// Where a pending range starts.
pub open spec fn lo_of(pending: Option<(usize, usize)>) -> int {
    match pending {
        Some((lo, _)) => lo as int,
        None => 0,
    }
}

/// Where a pending range ends.
pub open spec fn hi_of(pending: Option<(usize, usize)>) -> int {
    match pending {
        Some((_, hi)) => hi as int,
        None => 0,
    }
}

/// An execution reached the required coverage: it completed and its map covers all
/// that is required.
pub open spec fn preserved(required: Seq<bool>, outcome: Outcome, coverage: Option<CoverageMap>) -> bool {
    &&& outcome == Outcome::Completed
    &&& coverage is Some
    &&& subset_bits(required, coverage->0@)
}

/// The mask that keeps every byte of `bytes`.
pub open spec fn full_mask_of(bytes: Seq<u8>) -> Seq<Option<u8>> {
    Seq::new(bytes.len(), |i: int| Some(bytes[i]))
}

/// `g` is a generalization of `bytes` that has proposed nothing yet: it keeps every
/// byte, asks for the coverage `required`, may make `attempts` proposals, and is
/// abandoned from the start if the input is over the length limit.
pub open spec fn started(g: Generalizer, bytes: Seq<u8>, required: Seq<bool>, attempts: usize) -> bool {
    &&& g.mask@ == full_mask_of(bytes)
    &&& kept(g.mask@) == bytes
    &&& g.required@ == required
    &&& g.level == 0
    &&& g.start == 0
    &&& g.attempts_left == attempts
    &&& g.pending is None
    &&& !g.verified
    &&& g.abandoned == (bytes.len() > MAX_GENERALIZED_LEN)
}

/// `after` is `before` once it has been asked for its next proposal, and `proposal`
/// is what it proposed. A pending proposal is repeated. Otherwise an exhausted
/// generalization proposes nothing; one that has not verified its input proposes
/// the input unchanged; any other proposes the input without the next range that
/// still holds a byte, and counts the attempt.
pub open spec fn proposed(before: Generalizer, after: Generalizer, proposal: Option<Seq<u8>>) -> bool {
    &&& after.mask == before.mask
    &&& after.required == before.required
    &&& after.verified == before.verified
    &&& after.abandoned == before.abandoned
    &&& proposal is Some <==> after.pending is Some
    &&& proposal is Some ==> proposal->0 == candidate_of(
        before.mask@,
        lo_of(after.pending),
        hi_of(after.pending),
    )
    &&& before.pending is Some ==> after == before
    &&& before.pending is None ==> (proposal is None <==> before.exhausted())
    &&& before.pending is None && proposal is None ==> after == before
    &&& before.pending is None && !before.abandoned && !before.verified ==> {
        &&& after.pending == Some((0usize, 0usize))
        &&& after.level == before.level
        &&& after.start == before.start
        &&& after.attempts_left == before.attempts_left
    }
    &&& before.pending is None && !before.exhausted() && before.verified ==> {
        let (level, lo, hi) = next_range(before.mask@, before.level as int, before.start as int)->0;
        &&& after.pending == Some((lo as usize, hi as usize))
        &&& after.level == level
        &&& after.start == hi
        &&& after.attempts_left == before.attempts_left - 1
    }
}

/// The mathematical value of a proposal.
pub open spec fn proposal_view(proposal: Option<Vec<u8>>) -> Option<Seq<u8>> {
    match proposal {
        Some(bytes) => Some(bytes@),
        None => None,
    }
}

/// `after` is `before` once the execution of its pending proposal has been judged: a
/// proposal that reached the required coverage stays out of the input, any other is
/// put back; the first proposal, the unchanged input, decides whether the stage goes
/// on at all. Without a pending proposal nothing changes.
pub open spec fn judged(
    before: Generalizer,
    after: Generalizer,
    outcome: Outcome,
    coverage: Option<CoverageMap>,
) -> bool {
    let ok = preserved(before.required@, outcome, coverage);
    &&& after.pending is None
    &&& after.required == before.required
    &&& after.level == before.level
    &&& after.start == before.start
    &&& after.attempts_left == before.attempts_left
    &&& before.pending is None ==> after == before
    &&& before.pending is Some ==> {
        &&& after.mask@ == if ok {
            blanked(before.mask@, lo_of(before.pending), hi_of(before.pending))
        } else {
            before.mask@
        }
        &&& after.verified == (before.verified || ok)
        &&& after.abandoned == (before.abandoned || (!before.verified && !ok))
    }
}

/// The bytes that the mask keeps reach the required coverage under the target whose
/// coverage is `target`.
pub open spec fn faithful(
    mask: Seq<Option<u8>>,
    required: Seq<bool>,
    target: spec_fn(Seq<u8>) -> Seq<bool>,
) -> bool {
    subset_bits(required, target(kept(mask)))
}

/// One judged proposal keeps the mask faithful: where the observation handed in is
/// what the target yields on the proposal, the mask after the judgement still
/// reaches the required coverage. The first proposal, the unchanged input,
/// establishes this.
pub proof fn lemma_trial_keeps_coverage(
    mask: Seq<Option<u8>>,
    required: Seq<bool>,
    lo: int,
    hi: int,
    verified: bool,
    outcome: Outcome,
    coverage: Option<CoverageMap>,
    target: spec_fn(Seq<u8>) -> Seq<bool>,
)
    requires
        verified ==> faithful(mask, required, target),
        outcome == Outcome::Completed && coverage is Some ==> coverage->0@ == target(
            candidate_of(mask, lo, hi),
        ),
    ensures
        preserved(required, outcome, coverage) ==> faithful(blanked(mask, lo, hi), required, target),
        !preserved(required, outcome, coverage) && verified ==> faithful(mask, required, target),
{
}

/// Round trip: the generalized form of a faithful mask, with every gap filled with
/// nothing and the fixed chunks concatenated, is a byte string on which the target
/// reaches at least the coverage recorded for the input.
pub proof fn lemma_generalized_form_reproduces_coverage(
    mask: Seq<Option<u8>>,
    required: Seq<bool>,
    target: spec_fn(Seq<u8>) -> Seq<bool>,
)
    requires
        faithful(mask, required, target),
    ensures
        subset_bits(required, target(flatten(chunks_of_mask(mask)))),
{
    lemma_chunks_of_mask(mask);
}

/// What is known of a generalization while it runs against the target whose coverage
/// is `target`: once its input is verified, the bytes that its mask keeps reach the
/// required coverage.
pub open spec fn keeps_faith(g: Generalizer, target: spec_fn(Seq<u8>) -> Seq<bool>) -> bool {
    g.verified ==> faithful(g.mask@, g.required@, target)
}

/// One round of a generalization against `target`: it makes a proposal, the proposal
/// is executed, and the execution is judged. Where the execution completed and
/// delivered a map, the map is what the target yields on the proposal.
pub open spec fn round(
    before: Generalizer,
    after: Generalizer,
    target: spec_fn(Seq<u8>) -> Seq<bool>,
) -> bool {
    exists|asked: Generalizer, proposal: Seq<u8>, outcome: Outcome, coverage: Option<CoverageMap>|
        #![trigger proposed(before, asked, Some(proposal)), judged(asked, after, outcome, coverage)]
        proposed(before, asked, Some(proposal)) && judged(asked, after, outcome, coverage) && (
        outcome == Outcome::Completed && coverage is Some ==> coverage->0@ == target(proposal))
}

/// `run` is a generalization of `bytes` against `target`, round by round, from its
/// start on.
pub open spec fn is_run(
    run: Seq<Generalizer>,
    bytes: Seq<u8>,
    required: Seq<bool>,
    attempts: usize,
    target: spec_fn(Seq<u8>) -> Seq<bool>,
) -> bool {
    &&& run.len() >= 1
    &&& started(run[0], bytes, required, attempts)
    &&& forall|k: int| 0 <= k < run.len() - 1 ==> round(#[trigger] run[k], run[k + 1], target)
}

/// A round keeps faith and leaves the required coverage as it is.
pub proof fn lemma_round_keeps_faith(
    before: Generalizer,
    after: Generalizer,
    target: spec_fn(Seq<u8>) -> Seq<bool>,
)
    requires
        round(before, after, target),
        keeps_faith(before, target),
    ensures
        keeps_faith(after, target),
        after.required@ == before.required@,
{
    let (asked, proposal, outcome, coverage) = choose|
        asked: Generalizer,
        proposal: Seq<u8>,
        outcome: Outcome,
        coverage: Option<CoverageMap>,
    |
        #![trigger proposed(before, asked, Some(proposal)), judged(asked, after, outcome, coverage)]
        proposed(before, asked, Some(proposal)) && judged(asked, after, outcome, coverage) && (
        outcome == Outcome::Completed && coverage is Some ==> coverage->0@ == target(proposal));
    assert(asked.pending is Some);
    lemma_trial_keeps_coverage(
        asked.mask@,
        asked.required@,
        lo_of(asked.pending),
        hi_of(asked.pending),
        asked.verified,
        outcome,
        coverage,
        target,
    );
}

/// Through a whole generalization, from the first proposal to any later round, faith
/// is kept and the required coverage stays what the generalization started with.
pub proof fn lemma_run_keeps_faith(
    run: Seq<Generalizer>,
    bytes: Seq<u8>,
    required: Seq<bool>,
    attempts: usize,
    target: spec_fn(Seq<u8>) -> Seq<bool>,
    k: int,
)
    requires
        is_run(run, bytes, required, attempts, target),
        0 <= k < run.len(),
    ensures
        keeps_faith(run[k], target),
        run[k].required@ == required,
    decreases k,
{
    if k > 0 {
        lemma_run_keeps_faith(run, bytes, required, attempts, target, k - 1);
        assert(round(run[k - 1], run[k - 1 + 1], target));
        lemma_round_keeps_faith(run[k - 1], run[k], target);
    }
}

/// Round trip over a whole generalization: whatever rounds were played against a
/// deterministic target, the form that a verified generalization ends with, every
/// gap filled with nothing and the fixed chunks concatenated, is a byte string on
/// which the target reaches at least the coverage that the generalization was
/// started with.
pub proof fn lemma_generalization_round_trip(
    run: Seq<Generalizer>,
    bytes: Seq<u8>,
    required: Seq<bool>,
    attempts: usize,
    target: spec_fn(Seq<u8>) -> Seq<bool>,
)
    requires
        is_run(run, bytes, required, attempts, target),
        run[run.len() - 1].verified,
    ensures
        subset_bits(required, target(flatten(chunks_of_mask(run[run.len() - 1].mask@)))),
{
    lemma_run_keeps_faith(run, bytes, required, attempts, target, run.len() - 1);
    lemma_generalized_form_reproduces_coverage(run[run.len() - 1].mask@, required, target);
}

impl Generalizer {
    /// The positions held by the state lie within the input.
    pub open spec fn wf(&self) -> bool {
        &&& self.level <= WINDOW_LEVELS
        &&& self.start <= self.mask@.len()
        &&& self.pending is Some ==> lo_of(self.pending) <= hi_of(self.pending) <= self.mask@.len()
    }

    /// Whether the positions held by the state lie within the input.
    pub fn is_wf(&self) -> (ok: bool)
        ensures
            ok == self.wf(),
    {
        let ranged = match self.pending {
            Some((lo, hi)) => lo <= hi && hi <= self.mask.len(),
            None => true,
        };
        self.level <= WINDOW_LEVELS && self.start <= self.mask.len() && ranged
    }

    /// Nothing is left to propose.
    pub open spec fn exhausted(&self) -> bool {
        self.abandoned || (self.verified && (self.attempts_left == 0 || next_range(
            self.mask@,
            self.level as int,
            self.start as int,
        ) is None))
    }

    /// Starts the generalization of `bytes`, whose accepted execution covered
    /// `required`. An input over the length limit is abandoned at once.
    pub fn start(bytes: &Vec<u8>, required: CoverageMap, max_attempts: usize) -> (g: Generalizer)
        ensures
            g.wf(),
            started(g, bytes@, required@, max_attempts),
    {
        let mask = full_mask(bytes);
        assert(mask@ =~= full_mask_of(bytes@));
        Generalizer {
            mask,
            required,
            level: 0,
            start: 0,
            attempts_left: max_attempts,
            pending: None,
            verified: false,
            abandoned: bytes.len() > MAX_GENERALIZED_LEN,
        }
    }

    /// The bytes of the input without the range from `lo` up to `hi`.
    fn candidate(&self, lo: usize, hi: usize) -> (bytes: Vec<u8>)
        ensures
            bytes@ == candidate_of(self.mask@, lo as int, hi as int),
    {
        let ghost blank = blanked(self.mask@, lo as int, hi as int);
        let mut bytes: Vec<u8> = Vec::new();
        let mut i: usize = 0;
        proof {
            assert(blank.subrange(0, 0) =~= Seq::<Option<u8>>::empty());
        }
        while i < self.mask.len()
            invariant
                i <= self.mask.len(),
                blank == blanked(self.mask@, lo as int, hi as int),
                bytes@ == kept(blank.subrange(0, i as int)),
            decreases self.mask.len() - i,
        {
            proof {
                let next = blank.subrange(0, i + 1);
                assert(next.drop_last() =~= blank.subrange(0, i as int));
                assert(next.last() == blank[i as int]);
            }
            if !(lo <= i && i < hi) {
                match self.mask[i] {
                    Some(byte) => {
                        bytes.push(byte);
                    },
                    None => {},
                }
            }
            i = i + 1;
        }
        proof {
            assert(blank.subrange(0, i as int) =~= blank);
        }
        bytes
    }

    /// Whether the range from `lo` up to `hi` still holds a byte.
    fn holds_byte(&self, lo: usize, hi: usize) -> (held: bool)
        requires
            lo <= hi <= self.mask@.len(),
        ensures
            held == has_kept(self.mask@, lo as int, hi as int),
    {
        let mut i: usize = lo;
        while i < hi
            invariant
                lo <= i <= hi,
                hi <= self.mask@.len(),
                forall|k: int| lo <= k < i ==> !(#[trigger] self.mask@[k] is Some),
            decreases hi - i,
        {
            match self.mask[i] {
                Some(_) => {
                    assert(self.mask@[i as int] is Some);
                    return true;
                },
                None => {},
            }
            i = i + 1;
        }
        false
    }

    /// Proposes the next bytes to execute, or nothing when the stage is over. The
    /// first proposal is the unchanged input. A proposal that still awaits its
    /// execution is made again.
    pub fn next_trial(&mut self) -> (proposal: Option<Vec<u8>>)
        requires
            old(self).wf(),
        ensures
            final(self).wf(),
            proposed(*old(self), *final(self), proposal_view(proposal)),
    {
        match self.pending {
            Some((lo, hi)) => {
                return Some(self.candidate(lo, hi));
            },
            None => {},
        }
        if self.abandoned {
            return None;
        }
        if !self.verified {
            self.pending = Some((0, 0));
            return Some(self.candidate(0, 0));
        }
        if self.attempts_left == 0 {
            return None;
        }
        let len = self.mask.len();
        let mut level = self.level;
        let mut start = self.start;
        while level < WINDOW_LEVELS
            invariant
                level <= WINDOW_LEVELS,
                start <= len,
                len == self.mask@.len(),
                *self == *old(self),
                old(self).wf(),
                old(self).pending is None,
                old(self).attempts_left > 0,
                old(self).verified,
                !old(self).abandoned,
                next_range(self.mask@, old(self).level as int, old(self).start as int)
                    == next_range(self.mask@, level as int, start as int),
            decreases WINDOW_LEVELS - level, len - start,
        {
            if start >= len {
                level = level + 1;
                start = 0;
            } else {
                let window = window_at(level);
                let end = if window <= len - start {
                    start + window
                } else {
                    len
                };
                assert(end == range_end(len as int, start as int, level as int));
                if self.holds_byte(start, end) {
                    let proposal = self.candidate(start, end);
                    self.level = level;
                    self.start = end;
                    self.attempts_left = self.attempts_left - 1;
                    self.pending = Some((start, end));
                    return Some(proposal);
                }
                start = end;
            }
        }
        None
    }

    /// Judges the execution of the pending proposal. A proposal that completed and
    /// reached the required coverage is kept: its range stays out of the input. Any
    /// other is reverted. If the unchanged input itself fails, the stage is
    /// abandoned. Without a pending proposal nothing happens.
    pub fn observe(&mut self, outcome: Outcome, observation: &Observation)
        requires
            old(self).wf(),
        ensures
            final(self).wf(),
            judged(*old(self), *final(self), outcome, observation.coverage),
    {
        let (lo, hi) = match self.pending {
            Some(range) => range,
            None => {
                return ;
            },
        };
        self.pending = None;
        let ok = outcome == Outcome::Completed && match &observation.coverage {
            Some(map) => self.required.is_subset_of(map),
            None => false,
        };
        if !ok {
            if !self.verified {
                self.abandoned = true;
            }
            return ;
        }
        self.verified = true;
        let mut fresh: Vec<Option<u8>> = Vec::new();
        let mut i: usize = 0;
        while i < self.mask.len()
            invariant
                i <= self.mask.len(),
                fresh@.len() == i,
                forall|k: int|
                    0 <= k < i ==> fresh@[k] == if lo <= k < hi {
                        None
                    } else {
                        self.mask@[k]
                    },
            decreases self.mask.len() - i,
        {
            if lo <= i && i < hi {
                fresh.push(None);
            } else {
                fresh.push(self.mask[i]);
            }
            i = i + 1;
        }
        assert(fresh@ =~= blanked(self.mask@, lo as int, hi as int));
        self.mask = fresh;
    }

    /// Ends the stage. A verified input yields its generalized form, in which every
    /// byte found dispensable lies in a gap; an abandoned or unverified one yields
    /// nothing.
    pub fn finish(self) -> (form: Option<Vec<Segment>>)
        ensures
            form is Some <==> self.verified && !self.abandoned,
            form is Some ==> form->0.deep_view() == chunks_of_mask(self.mask@) && flatten(
                form->0.deep_view(),
            ) == kept(self.mask@),
    {
        if self.verified && !self.abandoned {
            Some(segments_from_mask(&self.mask))
        } else {
            None
        }
    }
}

} // verus!
