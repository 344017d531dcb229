//! The byte-level stage: a random stack of classic mutations on raw bytes.
//!
//! Each operator is one of `libafl`'s mutators, run on a scratch `StdState` that
//! carries the engine's random generator and holds no corpus entry; building it
//! with no feedback to initialize cannot fail. The composition of the stack is
//! decided here.

use crate::dictionary::{no_empty_tokens, token_list};
use crate::input::copy_bytes;
use crate::rng::rng_below;
use libafl::inputs::BytesInput;
use libafl::mutators::mutations::{
    BitFlipMutator, ByteDecMutator, ByteFlipMutator, ByteIncMutator, ByteInterestingMutator,
    BytesDeleteMutator, BytesInsertCopyMutator, BytesRandInsertMutator,
};
use libafl::mutators::token_mutations::TokenInsert;
use libafl::mutators::{Mutator, Tokens};
use libafl::corpus::InMemoryCorpus;
use libafl::state::{HasRand, StdState};
use libafl::HasMetadata;
use libafl_bolts::rands::StdRand;
use vstd::prelude::*;

verus! {

/// No operator grows an input beyond this many bytes; it is the size limit that a
/// `libafl` state starts with.
pub const MAX_INPUT_SIZE: usize = 1048576;

/// The longest block that an inserting operator adds in one step.
pub const MAX_BLOCK: usize = 16;

/// The stack depth of the byte-level stage is `2` to the power of a draw from
/// `1..=HAVOC_STACK_POW`.
pub const HAVOC_STACK_POW: usize = 2;

/// The registered byte-level operators.
#[derive(Clone, Copy, Debug, PartialEq, Eq, Structural)]
pub enum HavocOp {
    BitFlip,
    ByteFlip,
    Increment,
    Decrement,
    Interesting,
    BlockDelete,
    BlockDuplicate,
    BlockInsert,
    TokenSplice,
}

/// The number of registered byte-level operators.
pub const HAVOC_OPERATORS: usize = 9;

/// A byte with exactly one bit set.
pub open spec fn single_bit(mask: u8) -> bool {
    mask == 1 || mask == 2 || mask == 4 || mask == 8 || mask == 16 || mask == 32 || mask == 64
        || mask == 128
}

/// One of the byte values that tend to sit at the edge of a range check.
pub open spec fn interesting_byte(value: u8) -> bool {
    value == 128 || value == 255 || value == 0 || value == 1 || value == 16 || value == 32
        || value == 64 || value == 100 || value == 127
}

/// `after` is `before` with the byte at some position replaced by `f` of it.
pub open spec fn rewrites_one_byte(before: Seq<u8>, after: Seq<u8>, f: spec_fn(u8) -> u8) -> bool {
    exists|i: int| 0 <= i < before.len() && after == before.update(i, f(#[trigger] before[i]))
}

/// `after` is `before` with one bit of one byte inverted.
pub open spec fn flips_bit(before: Seq<u8>, after: Seq<u8>) -> bool {
    exists|i: int, mask: u8|
        0 <= i < before.len() && single_bit(mask) && after == before.update(
            i,
            #[trigger] (before[i] ^ mask),
        )
}

/// `after` is `before` with one byte overwritten by an interesting value.
pub open spec fn sets_interesting(before: Seq<u8>, after: Seq<u8>) -> bool {
    exists|i: int, value: u8|
        0 <= i < before.len() && interesting_byte(value) && after == #[trigger] before.update(
            i,
            value,
        )
}

/// `before` without the block from `lo` up to `hi`.
pub open spec fn without_block(before: Seq<u8>, lo: int, hi: int) -> Seq<u8> {
    before.subrange(0, lo) + before.subrange(hi, before.len() as int)
}

/// `before` with `block` inserted at position `at`.
pub open spec fn with_block(before: Seq<u8>, at: int, block: Seq<u8>) -> Seq<u8> {
    before.subrange(0, at) + block + before.subrange(at, before.len() as int)
}

/// `amount` copies of `value`.
pub open spec fn fill(amount: int, value: u8) -> Seq<u8> {
    Seq::new(amount as nat, |k: int| value)
}

/// `after` is `before` without one block; at least one byte goes and one stays.
pub open spec fn deletes_block(before: Seq<u8>, after: Seq<u8>) -> bool {
    exists|lo: int, hi: int|
        0 <= lo < hi <= before.len() && hi - lo < before.len() && after == #[trigger] without_block(
            before,
            lo,
            hi,
        )
}

/// `after` is `before` with `block` inserted at some position.
pub open spec fn inserts_block(before: Seq<u8>, after: Seq<u8>, block: Seq<u8>) -> bool {
    exists|at: int| 0 <= at <= before.len() && after == #[trigger] with_block(before, at, block)
}

/// `after` is `before` with a copy of one of its own blocks, of 1 to 16 bytes,
/// inserted at some position.
pub open spec fn duplicates_block(before: Seq<u8>, after: Seq<u8>) -> bool {
    exists|lo: int, hi: int|
        0 <= lo < hi <= before.len() && hi - lo <= MAX_BLOCK && before.len() + hi - lo
            <= MAX_INPUT_SIZE && inserts_block(before, after, #[trigger] before.subrange(lo, hi))
}

/// `after` is `before` with 1 to 16 copies of one byte value inserted at some position.
pub open spec fn inserts_fill(before: Seq<u8>, after: Seq<u8>) -> bool {
    exists|amount: int, value: u8|
        1 <= amount <= MAX_BLOCK && before.len() + amount <= MAX_INPUT_SIZE && inserts_block(
            before,
            after,
            #[trigger] fill(amount, value),
        )
}

/// `after` is `before` with a dictionary token, cut short where the size limit asks
/// for it, inserted at some position.
pub open spec fn splices_token(before: Seq<u8>, after: Seq<u8>, tokens: Seq<Seq<u8>>) -> bool {
    exists|t: int, len: int|
        0 <= t < tokens.len() && 0 <= len <= tokens[t].len() && before.len() + len
            <= MAX_INPUT_SIZE && (len == tokens[t].len() || before.len() + len == MAX_INPUT_SIZE)
            && inserts_block(before, after, #[trigger] tokens[t].subrange(0, len))
}

/// The byte after `value`, wrapping at the top.
pub open spec fn byte_up(value: u8) -> u8 {
    if value == 255 {
        0
    } else {
        (value + 1) as u8
    }
}

/// The byte before `value`, wrapping at the bottom.
pub open spec fn byte_down(value: u8) -> u8 {
    if value == 0 {
        255
    } else {
        (value - 1) as u8
    }
}

/// What applying `op` to `before` may give. An operator that finds nothing to work
/// on leaves the input as it is.
pub open spec fn operator_allows(
    op: HavocOp,
    before: Seq<u8>,
    tokens: Seq<Seq<u8>>,
    after: Seq<u8>,
) -> bool {
    match op {
        HavocOp::BitFlip => if before.len() == 0 {
            after == before
        } else {
            flips_bit(before, after)
        },
        HavocOp::ByteFlip => if before.len() == 0 {
            after == before
        } else {
            rewrites_one_byte(before, after, |b: u8| b ^ 0xff)
        },
        HavocOp::Increment => if before.len() == 0 {
            after == before
        } else {
            rewrites_one_byte(before, after, |b: u8| byte_up(b))
        },
        HavocOp::Decrement => if before.len() == 0 {
            after == before
        } else {
            rewrites_one_byte(before, after, |b: u8| byte_down(b))
        },
        HavocOp::Interesting => if before.len() == 0 {
            after == before
        } else {
            sets_interesting(before, after)
        },
        HavocOp::BlockDelete => if before.len() <= 2 {
            after == before
        } else {
            deletes_block(before, after)
        },
        HavocOp::BlockDuplicate => if before.len() <= 1 || before.len() >= MAX_INPUT_SIZE {
            after == before
        } else {
            duplicates_block(before, after)
        },
        HavocOp::BlockInsert => if before.len() >= MAX_INPUT_SIZE {
            after == before
        } else {
            inserts_fill(before, after)
        },
        HavocOp::TokenSplice => if tokens.len() == 0 || before.len() >= MAX_INPUT_SIZE {
            after == before
        } else {
            splices_token(before, after, tokens)
        },
    }
}

/// Runs `BitFlipMutator`: on a non-empty input it draws a bit position under 8 and a
/// byte, and inverts that bit; an empty input is skipped.
#[verifier::external_body]
fn run_bit_flip(rng: &mut StdRand, bytes: Vec<u8>) -> (out: Vec<u8>)
    ensures
        operator_allows(HavocOp::BitFlip, bytes@, Seq::empty(), out@),
{
    let mut state = StdState::new(
        *rng,
        InMemoryCorpus::<BytesInput>::new(),
        InMemoryCorpus::<BytesInput>::new(),
        &mut (),
        &mut (),
    ).unwrap();
    let mut input = BytesInput::new(bytes);
    let _ = BitFlipMutator::new().mutate(&mut state, &mut input);
    *rng = *state.rand_mut();
    input.into()
}

/// Runs `ByteFlipMutator`: on a non-empty input it draws a byte and inverts all its
/// bits; an empty input is skipped.
#[verifier::external_body]
fn run_byte_flip(rng: &mut StdRand, bytes: Vec<u8>) -> (out: Vec<u8>)
    ensures
        operator_allows(HavocOp::ByteFlip, bytes@, Seq::empty(), out@),
{
    let mut state = StdState::new(
        *rng,
        InMemoryCorpus::<BytesInput>::new(),
        InMemoryCorpus::<BytesInput>::new(),
        &mut (),
        &mut (),
    ).unwrap();
    let mut input = BytesInput::new(bytes);
    let _ = ByteFlipMutator::new().mutate(&mut state, &mut input);
    *rng = *state.rand_mut();
    input.into()
}

/// Runs `ByteIncMutator`: on a non-empty input it draws a byte and adds one to it,
/// wrapping; an empty input is skipped.
#[verifier::external_body]
fn run_byte_inc(rng: &mut StdRand, bytes: Vec<u8>) -> (out: Vec<u8>)
    ensures
        operator_allows(HavocOp::Increment, bytes@, Seq::empty(), out@),
{
    let mut state = StdState::new(
        *rng,
        InMemoryCorpus::<BytesInput>::new(),
        InMemoryCorpus::<BytesInput>::new(),
        &mut (),
        &mut (),
    ).unwrap();
    let mut input = BytesInput::new(bytes);
    let _ = ByteIncMutator::new().mutate(&mut state, &mut input);
    *rng = *state.rand_mut();
    input.into()
}

/// Runs `ByteDecMutator`: on a non-empty input it draws a byte and subtracts one from
/// it, wrapping; an empty input is skipped.
#[verifier::external_body]
fn run_byte_dec(rng: &mut StdRand, bytes: Vec<u8>) -> (out: Vec<u8>)
    ensures
        operator_allows(HavocOp::Decrement, bytes@, Seq::empty(), out@),
{
    let mut state = StdState::new(
        *rng,
        InMemoryCorpus::<BytesInput>::new(),
        InMemoryCorpus::<BytesInput>::new(),
        &mut (),
        &mut (),
    ).unwrap();
    let mut input = BytesInput::new(bytes);
    let _ = ByteDecMutator::new().mutate(&mut state, &mut input);
    *rng = *state.rand_mut();
    input.into()
}

/// Runs `ByteInterestingMutator`: on a non-empty input it draws a position and one of
/// the nine values of `INTERESTING_8`, and writes the value there as an unsigned
/// byte; an empty input is skipped.
#[verifier::external_body]
fn run_byte_interesting(rng: &mut StdRand, bytes: Vec<u8>) -> (out: Vec<u8>)
    ensures
        operator_allows(HavocOp::Interesting, bytes@, Seq::empty(), out@),
{
    let mut state = StdState::new(
        *rng,
        InMemoryCorpus::<BytesInput>::new(),
        InMemoryCorpus::<BytesInput>::new(),
        &mut (),
        &mut (),
    ).unwrap();
    let mut input = BytesInput::new(bytes);
    let _ = ByteInterestingMutator::new().mutate(&mut state, &mut input);
    *rng = *state.rand_mut();
    input.into()
}

/// Runs `BytesDeleteMutator`: an input of more than two bytes loses a drawn,
/// non-empty range that is shorter than the input; a shorter input is skipped.
#[verifier::external_body]
fn run_bytes_delete(rng: &mut StdRand, bytes: Vec<u8>) -> (out: Vec<u8>)
    ensures
        operator_allows(HavocOp::BlockDelete, bytes@, Seq::empty(), out@),
{
    let mut state = StdState::new(
        *rng,
        InMemoryCorpus::<BytesInput>::new(),
        InMemoryCorpus::<BytesInput>::new(),
        &mut (),
        &mut (),
    ).unwrap();
    let mut input = BytesInput::new(bytes);
    let _ = BytesDeleteMutator::new().mutate(&mut state, &mut input);
    *rng = *state.rand_mut();
    input.into()
}

/// Runs `BytesInsertCopyMutator`: an input of two bytes or more, under the size
/// limit, gets a copy of a drawn range of itself, 1 to 16 bytes long and short
/// enough to respect the limit, inserted at a drawn position; others are skipped.
#[verifier::external_body]
fn run_bytes_insert_copy(rng: &mut StdRand, bytes: Vec<u8>) -> (out: Vec<u8>)
    ensures
        operator_allows(HavocOp::BlockDuplicate, bytes@, Seq::empty(), out@),
{
    let mut state = StdState::new(
        *rng,
        InMemoryCorpus::<BytesInput>::new(),
        InMemoryCorpus::<BytesInput>::new(),
        &mut (),
        &mut (),
    ).unwrap();
    let mut input = BytesInput::new(bytes);
    let _ = BytesInsertCopyMutator::new().mutate(&mut state, &mut input);
    *rng = *state.rand_mut();
    input.into()
}

/// Runs `BytesRandInsertMutator`: an input under the size limit gets 1 to 16 copies
/// of a drawn byte value, no more than the limit leaves room for, inserted at a
/// drawn position; an input at the limit is skipped.
#[verifier::external_body]
fn run_bytes_rand_insert(rng: &mut StdRand, bytes: Vec<u8>) -> (out: Vec<u8>)
    ensures
        operator_allows(HavocOp::BlockInsert, bytes@, Seq::empty(), out@),
{
    let mut state = StdState::new(
        *rng,
        InMemoryCorpus::<BytesInput>::new(),
        InMemoryCorpus::<BytesInput>::new(),
        &mut (),
        &mut (),
    ).unwrap();
    let mut input = BytesInput::new(bytes);
    let _ = BytesRandInsertMutator::new().mutate(&mut state, &mut input);
    *rng = *state.rand_mut();
    input.into()
}

/// Runs `TokenInsert` with the dictionary attached to the scratch state: a drawn
/// token, cut to what the size limit leaves room for, is inserted at a drawn
/// position; with no tokens, or an input at the limit, the input is skipped. The
/// copy routine behind it asserts that the token is not empty, so a dictionary with
/// an empty token is left out.
#[verifier::external_body]
fn run_token_insert(rng: &mut StdRand, bytes: Vec<u8>, dictionary: &Tokens) -> (out: Vec<u8>)
    requires
        no_empty_tokens(token_list(*dictionary)),
    ensures
        operator_allows(HavocOp::TokenSplice, bytes@, token_list(*dictionary), out@),
{
    let mut state = StdState::new(
        *rng,
        InMemoryCorpus::<BytesInput>::new(),
        InMemoryCorpus::<BytesInput>::new(),
        &mut (),
        &mut (),
    ).unwrap();
    state.add_metadata(dictionary.clone());
    let mut input = BytesInput::new(bytes);
    let _ = TokenInsert::new().mutate(&mut state, &mut input);
    *rng = *state.rand_mut();
    input.into()
}

/// The registered operators, in registration order.
pub open spec fn operator_of(index: int) -> HavocOp {
    if index == 0 {
        HavocOp::BitFlip
    } else if index == 1 {
        HavocOp::ByteFlip
    } else if index == 2 {
        HavocOp::Increment
    } else if index == 3 {
        HavocOp::Decrement
    } else if index == 4 {
        HavocOp::Interesting
    } else if index == 5 {
        HavocOp::BlockDelete
    } else if index == 6 {
        HavocOp::BlockDuplicate
    } else if index == 7 {
        HavocOp::BlockInsert
    } else {
        HavocOp::TokenSplice
    }
}

/// The operator registered at `index`.
pub fn operator_at(index: usize) -> (op: HavocOp)
    requires
        index < HAVOC_OPERATORS,
    ensures
        op == operator_of(index as int),
{
    if index == 0 {
        HavocOp::BitFlip
    } else if index == 1 {
        HavocOp::ByteFlip
    } else if index == 2 {
        HavocOp::Increment
    } else if index == 3 {
        HavocOp::Decrement
    } else if index == 4 {
        HavocOp::Interesting
    } else if index == 5 {
        HavocOp::BlockDelete
    } else if index == 6 {
        HavocOp::BlockDuplicate
    } else if index == 7 {
        HavocOp::BlockInsert
    } else {
        HavocOp::TokenSplice
    }
}

/// Two to the power of `exponent`.
pub open spec fn pow2(exponent: nat) -> nat
    decreases exponent,
{
    if exponent == 0 {
        1
    } else {
        2 * pow2((exponent - 1) as nat)
    }
}

/// The depth of a mutation stack: two to the power of one more than the draw.
pub fn stack_depth(draw: usize) -> (depth: usize)
    requires
        draw < 16,
    ensures
        depth == pow2((draw + 1) as nat),
        2 <= depth <= 65536,
{
    let mut depth: usize = 2;
    let mut i: usize = 0;
    proof {
        reveal_with_fuel(pow2, 2);
        lemma_pow2_monotone(1, 16);
    }
    while i < draw
        invariant
            i <= draw,
            draw < 16,
            depth == pow2((i + 1) as nat),
            2 <= depth <= pow2(16),
            pow2(16) == 65536,
        decreases draw - i,
    {
        proof {
            lemma_pow2_monotone((i + 2) as nat, 16);
        }
        depth = depth * 2;
        i = i + 1;
    }
    depth
}

/// Powers of two grow with the exponent, and the sixteenth is 65536.
pub proof fn lemma_pow2_monotone(low: nat, high: nat)
    requires
        low <= high,
    ensures
        pow2(low) <= pow2(high),
        pow2(low) >= 1,
        pow2(16) == 65536,
    decreases high,
{
    assert(pow2(16) == 65536) by {
        reveal_with_fuel(pow2, 17);
    }
    if low < high {
        lemma_pow2_monotone(low, (high - 1) as nat);
    } else if low > 0 {
        lemma_pow2_monotone((low - 1) as nat, (low - 1) as nat);
    }
}

/// Applies one operator to an input.
pub fn apply_operator(op: HavocOp, rng: &mut StdRand, bytes: Vec<u8>, dictionary: &Tokens) -> (out:
    Vec<u8>)
    requires
        no_empty_tokens(token_list(*dictionary)),
    ensures
        operator_allows(op, bytes@, token_list(*dictionary), out@),
{
    match op {
        HavocOp::BitFlip => run_bit_flip(rng, bytes),
        HavocOp::ByteFlip => run_byte_flip(rng, bytes),
        HavocOp::Increment => run_byte_inc(rng, bytes),
        HavocOp::Decrement => run_byte_dec(rng, bytes),
        HavocOp::Interesting => run_byte_interesting(rng, bytes),
        HavocOp::BlockDelete => run_bytes_delete(rng, bytes),
        HavocOp::BlockDuplicate => run_bytes_insert_copy(rng, bytes),
        HavocOp::BlockInsert => run_bytes_rand_insert(rng, bytes),
        HavocOp::TokenSplice => run_token_insert(rng, bytes, dictionary),
    }
}

/// `after` comes from `before` by one application of a registered operator.
pub open spec fn step_allows(before: Seq<u8>, tokens: Seq<Seq<u8>>, after: Seq<u8>) -> bool {
    exists|index: int|
        0 <= index < HAVOC_OPERATORS && operator_allows(
            #[trigger] operator_of(index),
            before,
            tokens,
            after,
        )
}

/// `trace` records a stack of `depth` operator applications that leads from `before`
/// to `after`: it starts with `before`, ends with `after`, and each of its elements
/// comes from the one in front of it by one registered operator.
pub open spec fn is_trace(
    trace: Seq<Seq<u8>>,
    before: Seq<u8>,
    tokens: Seq<Seq<u8>>,
    after: Seq<u8>,
    depth: nat,
) -> bool {
    &&& trace.len() == depth + 1
    &&& trace[0] == before
    &&& trace[depth as int] == after
    &&& forall|k: int| 0 <= k < depth ==> step_allows(#[trigger] trace[k], tokens, trace[k + 1])
}

/// `after` comes from `before` by `depth` operator applications, each with a
/// registered operator.
pub open spec fn stacked(before: Seq<u8>, tokens: Seq<Seq<u8>>, after: Seq<u8>, depth: nat) -> bool {
    exists|trace: Seq<Seq<u8>>| #[trigger] is_trace(trace, before, tokens, after, depth)
}

/// An operator leaves the input within the size limit, or no longer than it was.
pub proof fn lemma_operator_bounds(
    op: HavocOp,
    before: Seq<u8>,
    tokens: Seq<Seq<u8>>,
    after: Seq<u8>,
)
    requires
        operator_allows(op, before, tokens, after),
    ensures
        after.len() <= before.len() || after.len() <= MAX_INPUT_SIZE,
{
}

/// Every element of a trace is within the size limit, or no longer than the base.
pub proof fn lemma_trace_bounds(trace: Seq<Seq<u8>>, tokens: Seq<Seq<u8>>, depth: nat, k: int)
    requires
        is_trace(trace, trace[0], tokens, trace[depth as int], depth),
        0 <= k <= depth,
    ensures
        trace[k].len() <= trace[0].len() || trace[k].len() <= MAX_INPUT_SIZE,
    decreases k,
{
    if k > 0 {
        lemma_trace_bounds(trace, tokens, depth, k - 1);
        assert(step_allows(trace[k - 1], tokens, trace[k - 1 + 1]));
        let index = choose|index: int|
            0 <= index < HAVOC_OPERATORS && operator_allows(
                #[trigger] operator_of(index),
                trace[k - 1],
                tokens,
                trace[k],
            );
        lemma_operator_bounds(operator_of(index), trace[k - 1], tokens, trace[k]);
    }
}

/// A stack of any depth leaves the input within the size limit, or no longer than
/// the base was.
pub proof fn lemma_stack_bounds(before: Seq<u8>, tokens: Seq<Seq<u8>>, after: Seq<u8>, depth: nat)
    requires
        stacked(before, tokens, after, depth),
    ensures
        after.len() <= before.len() || after.len() <= MAX_INPUT_SIZE,
{
    let trace = choose|trace: Seq<Seq<u8>>| #[trigger]
        is_trace(trace, before, tokens, after, depth);
    lemma_trace_bounds(trace, tokens, depth, depth as int);
}

/// Builds one mutant of `base`: draws a stack depth of 2 or 4, then applies that
/// many operators, each drawn uniformly from the registered ones. The generalized
/// form of the base plays no part.
pub fn havoc_mutant(rng: &mut StdRand, base: &Vec<u8>, dictionary: &Tokens) -> (mutant: Vec<u8>)
    requires
        no_empty_tokens(token_list(*dictionary)),
    ensures
        stacked(base@, token_list(*dictionary), mutant@, 2) || stacked(
            base@,
            token_list(*dictionary),
            mutant@,
            4,
        ),
        mutant@.len() <= base@.len() || mutant@.len() <= MAX_INPUT_SIZE,
{
    let depth = stack_depth(rng_below(rng, HAVOC_STACK_POW));
    proof {
        reveal_with_fuel(pow2, 3);
    }
    let mut mutant = copy_bytes(base);
    let mut done: usize = 0;
    let ghost mut trace: Seq<Seq<u8>> = seq![base@];
    while done < depth
        invariant
            done <= depth,
            no_empty_tokens(token_list(*dictionary)),
            is_trace(trace, base@, token_list(*dictionary), mutant@, done as nat),
        decreases depth - done,
    {
        let ghost middle = mutant@;
        let ghost prior = trace;
        let index = rng_below(rng, HAVOC_OPERATORS);
        mutant = apply_operator(operator_at(index), rng, mutant, dictionary);
        proof {
            assert(operator_allows(
                operator_of(index as int),
                middle,
                token_list(*dictionary),
                mutant@,
            ));
            assert(step_allows(middle, token_list(*dictionary), mutant@));
            trace = prior.push(mutant@);
            assert forall|k: int| 0 <= k < done + 1 implies step_allows(
                #[trigger] trace[k],
                token_list(*dictionary),
                trace[k + 1],
            ) by {
                if k < done {
                    assert(step_allows(prior[k], token_list(*dictionary), prior[k + 1]));
                }
            }
        }
        done = done + 1;
    }
    proof {
        lemma_stack_bounds(base@, token_list(*dictionary), mutant@, depth as nat);
    }
    mutant
}

} // verus!
