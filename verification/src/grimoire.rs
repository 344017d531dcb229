//! The structure-aware stage: operators on generalized forms.
//!
//! A form handled here starts and ends with a gap. Every operator keeps that, so a
//! mutant can again be extended at either end.

use crate::corpus::{Corpus, EntryView};
use crate::dictionary::{token_list, tokens_get, tokens_len};
use crate::havoc::{pow2, stack_depth};
use crate::input::{
    copy_segment, copy_segments, flatten, lemma_flatten_concat, lemma_flatten_push, Chunk, Segment,
};
use crate::input_to_state::{absent, find_first, first_occurrence, occurs_at, replaced, splice};
use crate::rng::rng_below;
use libafl::mutators::Tokens;
use libafl_bolts::rands::StdRand;
use vstd::prelude::*;

verus! {

/// The stack depth of the structure-aware stage is `2` to the power of a draw from
/// `1..=STRUCTURAL_STACK_POW`.
pub const STRUCTURAL_STACK_POW: usize = 3;

/// The number of operator slots of the stage. Deletion holds two of them, so that
/// stacks shrink forms more often than they grow them.
pub const STRUCTURAL_SLOTS: usize = 5;

/// The registered structure-aware operators.
#[derive(Clone, Copy, Debug, PartialEq, Eq, Structural)]
pub enum StructuralOp {
    /// Appends the form of another entry at the closing gap.
    Extension,
    /// Replaces one element by the form of another entry.
    RecursiveReplacement,
    /// Replaces a dictionary token inside a fixed chunk by another token.
    StringReplacement,
    /// Removes one fixed chunk or gap.
    RandomDelete,
}

/// The operator in slot `index`.
pub open spec fn slot_of(index: int) -> StructuralOp {
    if index == 0 {
        StructuralOp::Extension
    } else if index == 1 {
        StructuralOp::RecursiveReplacement
    } else if index == 2 {
        StructuralOp::StringReplacement
    } else {
        StructuralOp::RandomDelete
    }
}

/// The operator in slot `index`.
pub fn slot_at(index: usize) -> (op: StructuralOp)
    requires
        index < STRUCTURAL_SLOTS,
    ensures
        op == slot_of(index as int),
{
    if index == 0 {
        StructuralOp::Extension
    } else if index == 1 {
        StructuralOp::RecursiveReplacement
    } else if index == 2 {
        StructuralOp::StringReplacement
    } else {
        StructuralOp::RandomDelete
    }
}

/// A form that starts and ends with a gap.
pub open spec fn gap_bounded(chunks: Seq<Chunk>) -> bool {
    &&& chunks.len() >= 1
    &&& chunks[0] is Gap
    &&& chunks.last() is Gap
}

/// `form` extended at its closing gap by `donor`, whose opening gap merges with it.
pub open spec fn extended(form: Seq<Chunk>, donor: Seq<Chunk>) -> Seq<Chunk> {
    form + donor.subrange(1, donor.len() as int)
}

/// `form` with the element at `position`, a fixed chunk or a gap, replaced by `donor`.
pub open spec fn element_replaced(form: Seq<Chunk>, position: int, donor: Seq<Chunk>) -> Seq<
    Chunk,
> {
    form.subrange(0, position) + donor + form.subrange(position + 1, form.len() as int)
}

/// `form` without the element at `position`.
pub open spec fn element_removed(form: Seq<Chunk>, position: int) -> Seq<Chunk> {
    form.subrange(0, position) + form.subrange(position + 1, form.len() as int)
}

/// `at` is the first occurrence of `find` in the fixed chunk at position `c`, and no
/// fixed chunk in front of it holds `find`.
pub open spec fn rewrite_site(form: Seq<Chunk>, find: Seq<u8>, c: int, at: int) -> bool {
    &&& 0 <= c < form.len()
    &&& form[c] is Fixed
    &&& first_occurrence(form[c]->Fixed_0, find, at)
    &&& forall|k: int| 0 <= k < c && #[trigger] form[k] is Fixed ==> absent(form[k]->Fixed_0, find)
}

/// No fixed chunk of `form` holds `find`.
pub open spec fn token_absent(form: Seq<Chunk>, find: Seq<u8>) -> bool {
    forall|k: int| 0 <= k < form.len() && #[trigger] form[k] is Fixed ==> absent(form[k]->Fixed_0, find)
}

/// `form` with the occurrence of `find` at the rewrite site replaced by `with`.
pub open spec fn rewritten(form: Seq<Chunk>, find: Seq<u8>, with: Seq<u8>, c: int, at: int) -> Seq<
    Chunk,
> {
    form.update(c, Chunk::Fixed(replaced(form[c]->Fixed_0, at, find.len() as int, with)))
}

/// Whether a form starts and ends with a gap.
pub fn is_gap_bounded(form: &Vec<Segment>) -> (bounded: bool)
    ensures
        bounded == gap_bounded(form.deep_view()),
{
    if form.len() == 0 {
        return false;
    }
    let first = match form[0] {
        Segment::Gap => true,
        Segment::Fixed(_) => false,
    };
    let last = match form[form.len() - 1] {
        Segment::Gap => true,
        Segment::Fixed(_) => false,
    };
    proof {
        assert(form.deep_view()[0] == form@[0].deep_view());
        assert(form.deep_view().last() == form@[form@.len() - 1].deep_view());
    }
    first && last
}

/// Appends copies of `source[from..to]` to `out`.
fn append_range(out: &mut Vec<Segment>, source: &Vec<Segment>, from: usize, to: usize)
    requires
        from <= to <= source@.len(),
    ensures
        final(out).deep_view() == old(out).deep_view() + source.deep_view().subrange(
            from as int,
            to as int,
        ),
{
    let ghost start = out.deep_view();
    let ghost src = source.deep_view();
    let mut i: usize = from;
    proof {
        assert(start + src.subrange(from as int, from as int) =~= start);
    }
    while i < to
        invariant
            from <= i <= to,
            to <= source@.len(),
            src == source.deep_view(),
            out.deep_view() == start + src.subrange(from as int, i as int),
        decreases to - i,
    {
        let ghost before = out.deep_view();
        let ghost held = out@;
        let copy = copy_segment(&source[i]);
        out.push(copy);
        proof {
            assert(out@ == held.push(copy));
            assert(out.deep_view().len() == before.len() + 1);
            assert forall|k: int| 0 <= k < before.len() implies out.deep_view()[k] == before[k] by {
                assert(out@[k] == held[k]);
                assert(before[k] == held[k].deep_view());
                assert(out.deep_view()[k] == out@[k].deep_view());
            }
            assert(out.deep_view()[before.len() as int] == copy.deep_view());
            assert(src[i as int] == source@[i as int].deep_view());
            assert(out.deep_view() =~= before.push(src[i as int]));
            assert(src.subrange(from as int, i + 1) =~= src.subrange(from as int, i as int).push(
                src[i as int],
            ));
            assert(out.deep_view() =~= start + src.subrange(from as int, i + 1));
        }
        i = i + 1;
    }
}

/// Extension: appends `donor` to `form`. The closing gap of the one and the opening
/// gap of the other become a single gap.
pub fn extend_form(form: &Vec<Segment>, donor: &Vec<Segment>) -> (out: Vec<Segment>)
    requires
        gap_bounded(form.deep_view()),
        gap_bounded(donor.deep_view()),
    ensures
        out.deep_view() == extended(form.deep_view(), donor.deep_view()),
        gap_bounded(out.deep_view()),
        flatten(out.deep_view()) == flatten(form.deep_view()) + flatten(donor.deep_view()),
{
    let mut out = copy_segments(form);
    append_range(&mut out, donor, 1, donor.len());
    proof {
        let f = form.deep_view();
        let d = donor.deep_view();
        let rest = d.subrange(1, d.len() as int);
        let head = Seq::<Chunk>::empty().push(Chunk::Gap);
        lemma_flatten_concat(f, rest);
        lemma_flatten_concat(head, rest);
        lemma_flatten_push(Seq::<Chunk>::empty(), Chunk::Gap);
        assert(head + rest =~= d);
        assert(flatten(head) =~= Seq::<u8>::empty());
        assert(flatten(d) =~= flatten(rest));
    }
    out
}

/// Recursive replacement, one level: replaces the element at `position`, a fixed
/// chunk or a gap, by `donor`. Applied again, it reaches into what `donor` brought
/// along, gaps and all.
pub fn replace_element(form: &Vec<Segment>, position: usize, donor: &Vec<Segment>) -> (out: Vec<
    Segment,
>)
    requires
        gap_bounded(form.deep_view()),
        gap_bounded(donor.deep_view()),
        position < form@.len(),
    ensures
        out.deep_view() == element_replaced(form.deep_view(), position as int, donor.deep_view()),
        gap_bounded(out.deep_view()),
        flatten(out.deep_view()) == flatten(form.deep_view().subrange(0, position as int)) + flatten(
            donor.deep_view(),
        ) + flatten(form.deep_view().subrange(position + 1, form@.len() as int)),
{
    let mut out: Vec<Segment> = Vec::new();
    proof {
        assert(out.deep_view() =~= Seq::<Chunk>::empty());
    }
    let n = form.len();
    append_range(&mut out, form, 0, position);
    append_range(&mut out, donor, 0, donor.len());
    append_range(&mut out, form, position + 1, n);
    proof {
        let f = form.deep_view();
        let d = donor.deep_view();
        assert(d.subrange(0, d.len() as int) =~= d);
        assert(out.deep_view() =~= element_replaced(f, position as int, d));
        lemma_flatten_concat(f.subrange(0, position as int), d);
        lemma_flatten_concat(
            f.subrange(0, position as int) + d,
            f.subrange(position + 1, n as int),
        );
    }
    out
}

/// Random delete: removes the element at `position`, a fixed chunk or a gap. The gaps
/// at either end of the form are never removed.
pub fn delete_element(form: &Vec<Segment>, position: usize) -> (out: Vec<Segment>)
    requires
        gap_bounded(form.deep_view()),
        0 < position,
        position + 1 < form@.len(),
    ensures
        out.deep_view() == element_removed(form.deep_view(), position as int),
        gap_bounded(out.deep_view()),
        out@.len() + 1 == form@.len(),
{
    let mut out: Vec<Segment> = Vec::new();
    proof {
        assert(out.deep_view() =~= Seq::<Chunk>::empty());
    }
    let n = form.len();
    append_range(&mut out, form, 0, position);
    append_range(&mut out, form, position + 1, n);
    proof {
        let f = form.deep_view();
        assert(out.deep_view() =~= element_removed(f, position as int));
        assert(out.deep_view().len() == out@.len());
    }
    out
}

/// String replacement: in the first fixed chunk that holds `find`, replaces its first
/// occurrence by `with`. A form that holds `find` nowhere is returned as it is.
pub fn replace_token(form: &Vec<Segment>, find: &Vec<u8>, with: &Vec<u8>) -> (out: Vec<Segment>)
    ensures
        token_absent(form.deep_view(), find@) ==> out.deep_view() == form.deep_view(),
        !token_absent(form.deep_view(), find@) ==> exists|c: int, at: int|
            rewrite_site(form.deep_view(), find@, c, at) && out.deep_view() == #[trigger] rewritten(
                form.deep_view(),
                find@,
                with@,
                c,
                at,
            ),
        gap_bounded(form.deep_view()) ==> gap_bounded(out.deep_view()),
        token_replaced(form.deep_view(), find@, with@, out.deep_view()),
{
    let ghost f = form.deep_view();
    let mut c: usize = 0;
    while c < form.len()
        invariant
            c <= form.len(),
            f == form.deep_view(),
            forall|k: int| 0 <= k < c && #[trigger] f[k] is Fixed ==> absent(f[k]->Fixed_0, find@),
        decreases form.len() - c,
    {
        assert(f[c as int] == form@[c as int].deep_view());
        match &form[c] {
            Segment::Fixed(bytes) => {
                match find_first(bytes, find) {
                    Some(at) => {
                        assert(occurs_at(bytes@, find@, at as int));
                        let total = bytes.len();
                        assert(at + find@.len() <= total);
                        let fresh = splice(bytes, at, find.len(), with);
                        let mut out: Vec<Segment> = Vec::new();
                        proof {
                            assert(out.deep_view() =~= Seq::<Chunk>::empty());
                        }
                        append_range(&mut out, form, 0, c);
                        let ghost front = out.deep_view();
                        let ghost held = out@;
                        let piece = Segment::Fixed(fresh);
                        out.push(piece);
                        proof {
                            assert(out@ == held.push(piece));
                            assert(out.deep_view().len() == front.len() + 1);
                            assert forall|k: int| 0 <= k < front.len() implies out.deep_view()[k]
                                == front[k] by {
                                assert(out@[k] == held[k]);
                                assert(front[k] == held[k].deep_view());
                                assert(out.deep_view()[k] == out@[k].deep_view());
                            }
                            assert(out.deep_view()[front.len() as int] == piece.deep_view());
                            assert(out.deep_view() =~= front.push(Chunk::Fixed(fresh@)));
                        }
                        let n = form.len();
                        append_range(&mut out, form, c + 1, n);
                        proof {
                            assert(rewrite_site(f, find@, c as int, at as int));
                            assert(out.deep_view() =~= rewritten(
                                f,
                                find@,
                                with@,
                                c as int,
                                at as int,
                            ));
                        }
                        return out;
                    },
                    None => {},
                }
            },
            Segment::Gap => {},
        }
        c = c + 1;
    }
    copy_segments(form)
}

/// What entry `id` has to give to another form: its generalized form, if it carries
/// one that starts and ends with a gap.
pub open spec fn donor_of(entries: Seq<EntryView>, id: int) -> Option<Seq<Chunk>> {
    match entries[id].input.generalized {
        Some(form) => if gap_bounded(form) {
            Some(form)
        } else {
            None
        },
        None => None,
    }
}

/// The mathematical value of a donor that was looked up.
pub open spec fn donor_view(donor: Option<&Vec<Segment>>) -> Option<Seq<Chunk>> {
    match donor {
        Some(form) => Some(form.deep_view()),
        None => None,
    }
}

/// `form` extended by the donor, where there is one.
pub open spec fn extended_by(form: Seq<Chunk>, donor: Option<Seq<Chunk>>) -> Seq<Chunk> {
    match donor {
        Some(donor) => extended(form, donor),
        None => form,
    }
}

/// `form` with the element at `position` replaced by the donor, where there is one.
pub open spec fn replaced_by(form: Seq<Chunk>, position: int, donor: Option<Seq<Chunk>>) -> Seq<
    Chunk,
> {
    match donor {
        Some(donor) => element_replaced(form, position, donor),
        None => form,
    }
}

/// `out` is `form` after string replacement of `find` by `with`: the first occurrence
/// of `find` in the first fixed chunk that holds it has become `with`; a form that
/// holds `find` nowhere is unchanged.
pub open spec fn token_replaced(form: Seq<Chunk>, find: Seq<u8>, with: Seq<u8>, out: Seq<Chunk>) -> bool {
    if token_absent(form, find) {
        out == form
    } else {
        exists|c: int, at: int|
            rewrite_site(form, find, c, at) && out == #[trigger] rewritten(form, find, with, c, at)
    }
}

/// What applying `op` to `before` may give, over all draws that the operator makes.
/// Extension and recursive replacement draw an entry of the corpus and work with
/// what it has to give, so they change nothing where it has nothing to give; string
/// replacement draws two tokens; random delete draws an inner element and always
/// removes it. An operator that has nothing to draw from leaves the form as it is.
pub open spec fn operator_step(
    op: StructuralOp,
    before: Seq<Chunk>,
    entries: Seq<EntryView>,
    tokens: Seq<Seq<u8>>,
    after: Seq<Chunk>,
) -> bool {
    match op {
        StructuralOp::Extension => if entries.len() == 0 {
            after == before
        } else {
            exists|id: int|
                0 <= id < entries.len() && after == extended_by(
                    before,
                    #[trigger] donor_of(entries, id),
                )
        },
        StructuralOp::RecursiveReplacement => if entries.len() == 0 {
            after == before
        } else {
            exists|position: int, id: int|
                0 <= position < before.len() && 0 <= id < entries.len() && after
                    == #[trigger] replaced_by(before, position, donor_of(entries, id))
        },
        StructuralOp::StringReplacement => if tokens.len() == 0 {
            after == before
        } else {
            exists|i: int, j: int|
                0 <= i < tokens.len() && 0 <= j < tokens.len() && #[trigger] token_replaced(
                    before,
                    tokens[i],
                    tokens[j],
                    after,
                )
        },
        StructuralOp::RandomDelete => if before.len() < 3 {
            after == before
        } else {
            exists|position: int|
                0 < position < before.len() - 1 && after == #[trigger] element_removed(
                    before,
                    position,
                )
        },
    }
}

/// `after` comes from `before` by one operator of the five slots.
pub open spec fn structural_step(
    before: Seq<Chunk>,
    entries: Seq<EntryView>,
    tokens: Seq<Seq<u8>>,
    after: Seq<Chunk>,
) -> bool {
    exists|index: int|
        0 <= index < STRUCTURAL_SLOTS && operator_step(
            #[trigger] slot_of(index),
            before,
            entries,
            tokens,
            after,
        )
}

/// `trace` records a stack of `depth` structure-aware steps from `before` to `after`.
pub open spec fn is_structural_trace(
    trace: Seq<Seq<Chunk>>,
    before: Seq<Chunk>,
    entries: Seq<EntryView>,
    tokens: Seq<Seq<u8>>,
    after: Seq<Chunk>,
    depth: nat,
) -> bool {
    &&& trace.len() == depth + 1
    &&& trace[0] == before
    &&& trace[depth as int] == after
    &&& forall|k: int|
        0 <= k < depth ==> structural_step(#[trigger] trace[k], entries, tokens, trace[k + 1])
}

/// `after` comes from `before` by `depth` structure-aware steps.
pub open spec fn structurally_stacked(
    before: Seq<Chunk>,
    entries: Seq<EntryView>,
    tokens: Seq<Seq<u8>>,
    after: Seq<Chunk>,
    depth: nat,
) -> bool {
    exists|trace: Seq<Seq<Chunk>>| #[trigger]
        is_structural_trace(trace, before, entries, tokens, after, depth)
}

/// Looks up what the entry behind `id` has to give: its generalized form, if it
/// carries one that starts and ends with a gap.
pub fn donor_at<'a>(corpus: &'a Corpus, id: usize) -> (donor: Option<&'a Vec<Segment>>)
    requires
        id < corpus.deep_view().len(),
    ensures
        donor_view(donor) == donor_of(corpus.deep_view(), id as int),
        donor is Some ==> gap_bounded(donor->0.deep_view()),
{
    let entry = corpus.get(id);
    assert(corpus.deep_view()[id as int].input == entry.input.deep_view());
    match &entry.input.generalized {
        Some(form) => {
            if is_gap_bounded(form) {
                Some(form)
            } else {
                None
            }
        },
        None => None,
    }
}

/// Draws an entry of the corpus and looks up what it has to give. An empty corpus
/// gives nothing; otherwise the result is that of the entry the draw fell on, so it
/// is a donor whenever every entry is one and nothing whenever none is.
fn draw_donor<'a>(rng: &mut StdRand, corpus: &'a Corpus) -> (donor: Option<&'a Vec<Segment>>)
    ensures
        corpus.deep_view().len() == 0 ==> donor is None,
        corpus.deep_view().len() > 0 ==> exists|id: int|
            0 <= id < corpus.deep_view().len() && donor_view(donor) == #[trigger] donor_of(
                corpus.deep_view(),
                id,
            ),
        donor is Some ==> gap_bounded(donor->0.deep_view()),
{
    if corpus.count() == 0 {
        return None;
    }
    let id = rng_below(rng, corpus.count());
    let donor = donor_at(corpus, id);
    assert(donor_view(donor) == donor_of(corpus.deep_view(), id as int));
    donor
}

/// Applies one operator to a form, with the draws that the operator asks for.
pub fn apply_structural(
    op: StructuralOp,
    rng: &mut StdRand,
    form: Vec<Segment>,
    corpus: &Corpus,
    dictionary: &Tokens,
) -> (out: Vec<Segment>)
    requires
        gap_bounded(form.deep_view()),
    ensures
        gap_bounded(out.deep_view()),
        operator_step(
            op,
            form.deep_view(),
            corpus.deep_view(),
            token_list(*dictionary),
            out.deep_view(),
        ),
{
    let ghost f = form.deep_view();
    let ghost entries = corpus.deep_view();
    match op {
        StructuralOp::Extension => {
            let donor = draw_donor(rng, corpus);
            let ghost given = donor_view(donor);
            let out = match donor {
                Some(donor) => extend_form(&form, donor),
                None => form,
            };
            assert(out.deep_view() == extended_by(f, given));
            out
        },
        StructuralOp::RecursiveReplacement => {
            let position = rng_below(rng, form.len());
            let donor = draw_donor(rng, corpus);
            let ghost given = donor_view(donor);
            let out = match donor {
                Some(donor) => replace_element(&form, position, donor),
                None => form,
            };
            proof {
                assert(out.deep_view() == replaced_by(f, position as int, given));
                if entries.len() > 0 {
                    let id = choose|id: int|
                        0 <= id < entries.len() && given == #[trigger] donor_of(entries, id);
                    assert(out.deep_view() == replaced_by(f, position as int, donor_of(entries, id)));
                }
            }
            out
        },
        StructuralOp::StringReplacement => {
            let count = tokens_len(dictionary);
            if count == 0 {
                return form;
            }
            let i = rng_below(rng, count);
            let j = rng_below(rng, count);
            let find = tokens_get(dictionary, i);
            let with = tokens_get(dictionary, j);
            let out = replace_token(&form, &find, &with);
            proof {
                let tokens = token_list(*dictionary);
                assert(token_replaced(f, tokens[i as int], tokens[j as int], out.deep_view()));
            }
            out
        },
        StructuralOp::RandomDelete => {
            if form.len() < 3 {
                return form;
            }
            let position = 1 + rng_below(rng, form.len() - 2);
            let out = delete_element(&form, position);
            assert(out.deep_view() == element_removed(f, position as int));
            out
        },
    }
}

/// Builds one structural mutant of `base`: draws a stack depth of 2, 4 or 8, then
/// applies that many operators, each drawn uniformly from the five slots.
pub fn structural_mutant(
    rng: &mut StdRand,
    base: &Vec<Segment>,
    corpus: &Corpus,
    dictionary: &Tokens,
) -> (mutant: Vec<Segment>)
    requires
        gap_bounded(base.deep_view()),
    ensures
        gap_bounded(mutant.deep_view()),
        exists|depth: nat|
            (depth == 2 || depth == 4 || depth == 8) && #[trigger] structurally_stacked(
                base.deep_view(),
                corpus.deep_view(),
                token_list(*dictionary),
                mutant.deep_view(),
                depth,
            ),
{
    let depth = stack_depth(rng_below(rng, STRUCTURAL_STACK_POW));
    proof {
        reveal_with_fuel(pow2, 4);
    }
    let mut mutant = copy_segments(base);
    let mut done: usize = 0;
    let ghost mut trace: Seq<Seq<Chunk>> = seq![base.deep_view()];
    while done < depth
        invariant
            done <= depth,
            gap_bounded(mutant.deep_view()),
            is_structural_trace(
                trace,
                base.deep_view(),
                corpus.deep_view(),
                token_list(*dictionary),
                mutant.deep_view(),
                done as nat,
            ),
        decreases depth - done,
    {
        let ghost prior = trace;
        let ghost middle = mutant.deep_view();
        let index = rng_below(rng, STRUCTURAL_SLOTS);
        mutant = apply_structural(slot_at(index), rng, mutant, corpus, dictionary);
        proof {
            assert(operator_step(
                slot_of(index as int),
                middle,
                corpus.deep_view(),
                token_list(*dictionary),
                mutant.deep_view(),
            ));
            assert(structural_step(
                middle,
                corpus.deep_view(),
                token_list(*dictionary),
                mutant.deep_view(),
            ));
            trace = prior.push(mutant.deep_view());
            assert forall|k: int| 0 <= k < done + 1 implies structural_step(
                #[trigger] trace[k],
                corpus.deep_view(),
                token_list(*dictionary),
                trace[k + 1],
            ) by {
                if k < done {
                    assert(structural_step(
                        prior[k],
                        corpus.deep_view(),
                        token_list(*dictionary),
                        prior[k + 1],
                    ));
                }
            }
        }
        done = done + 1;
    }
    proof {
        assert(structurally_stacked(
            base.deep_view(),
            corpus.deep_view(),
            token_list(*dictionary),
            mutant.deep_view(),
            depth as nat,
        ));
    }
    mutant
}

} // verus!
