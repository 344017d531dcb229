//! The comparison-guided stage: mutants that put a recorded right-hand operand where
//! the left-hand operand stands in the input.

use vstd::prelude::*;

verus! {

/// One recorded comparison: the operand that came from the input, and the operand it
/// was compared with.
#[derive(Clone, Debug, PartialEq, Eq)]
pub struct Comparison {
    pub lhs: Vec<u8>,
    pub rhs: Vec<u8>,
}

/// The mathematical value of a `Comparison`.
pub struct ComparisonView {
    pub lhs: Seq<u8>,
    pub rhs: Seq<u8>,
}

impl DeepView for Comparison {
    type V = ComparisonView;

    open spec fn deep_view(&self) -> ComparisonView {
        ComparisonView { lhs: self.lhs@, rhs: self.rhs@ }
    }
}

/// At most this many comparisons of one trace are turned into mutants.
pub const MAX_TRACE_MUTANTS: usize = 128;

/// The non-empty `needle` stands in `bytes` at offset `at`.
pub open spec fn occurs_at(bytes: Seq<u8>, needle: Seq<u8>, at: int) -> bool {
    &&& needle.len() > 0
    &&& 0 <= at
    &&& at + needle.len() <= bytes.len()
    &&& bytes.subrange(at, at + needle.len()) == needle
}

/// `at` is the first offset at which `needle` stands in `bytes`.
pub open spec fn first_occurrence(bytes: Seq<u8>, needle: Seq<u8>, at: int) -> bool {
    &&& occurs_at(bytes, needle, at)
    &&& forall|k: int| 0 <= k < at ==> !occurs_at(bytes, needle, k)
}

/// `needle` stands nowhere in `bytes`.
pub open spec fn absent(bytes: Seq<u8>, needle: Seq<u8>) -> bool {
    forall|k: int| !occurs_at(bytes, needle, k)
}

/// `bytes` with the `len` bytes at offset `at` replaced by `with`.
pub open spec fn replaced(bytes: Seq<u8>, at: int, len: int, with: Seq<u8>) -> Seq<u8> {
    bytes.subrange(0, at) + with + bytes.subrange(at + len, bytes.len() as int)
}

/// The first offset, from `from` on, at which `needle` stands in `bytes`.
pub open spec fn search_from(bytes: Seq<u8>, needle: Seq<u8>, from: int) -> Option<int>
    decreases bytes.len() - from,
{
    if from < 0 || from + needle.len() > bytes.len() || needle.len() == 0 {
        None
    } else if occurs_at(bytes, needle, from) {
        Some(from)
    } else {
        search_from(bytes, needle, from + 1)
    }
}

/// The mutant that a comparison suggests: the input with the first occurrence of the
/// left operand replaced by the right operand. A left operand that the input does
/// not hold suggests nothing.
pub open spec fn mutant_of(bytes: Seq<u8>, comparison: ComparisonView) -> Option<Seq<u8>> {
    match search_from(bytes, comparison.lhs, 0) {
        Some(at) => Some(replaced(bytes, at, comparison.lhs.len() as int, comparison.rhs)),
        None => None,
    }
}

/// The mutants of the first `n` comparisons of a trace, in trace order.
pub open spec fn mutants_upto(bytes: Seq<u8>, trace: Seq<ComparisonView>, n: int) -> Seq<Seq<u8>>
    decreases n,
{
    if n <= 0 {
        Seq::empty()
    } else {
        match mutant_of(bytes, trace[n - 1]) {
            Some(mutant) => mutants_upto(bytes, trace, n - 1).push(mutant),
            None => mutants_upto(bytes, trace, n - 1),
        }
    }
}

/// The number of comparisons that are looked at under a cap.
pub open spec fn capped(len: int, cap: int) -> int {
    if len <= cap {
        len
    } else {
        cap
    }
}

/// A search finds the first occurrence at or after its starting point, and finds
/// nothing only where there is none.
pub proof fn lemma_search_from(bytes: Seq<u8>, needle: Seq<u8>, from: int)
    requires
        0 <= from,
    ensures
        match search_from(bytes, needle, from) {
            Some(at) => from <= at && occurs_at(bytes, needle, at) && forall|k: int|
                from <= k < at ==> !occurs_at(bytes, needle, k),
            None => forall|k: int| from <= k ==> !occurs_at(bytes, needle, k),
        },
    decreases bytes.len() - from,
{
    if from + needle.len() > bytes.len() || needle.len() == 0 {
    } else if occurs_at(bytes, needle, from) {
    } else {
        lemma_search_from(bytes, needle, from + 1);
    }
}

/// A search from the start finds the first occurrence, or reports absence.
pub proof fn lemma_search_is_first(bytes: Seq<u8>, needle: Seq<u8>)
    ensures
        match search_from(bytes, needle, 0) {
            Some(at) => first_occurrence(bytes, needle, at),
            None => absent(bytes, needle),
        },
{
    lemma_search_from(bytes, needle, 0);
}

/// Whether `needle` stands in `bytes` at offset `at`.
fn matches_at(bytes: &Vec<u8>, needle: &Vec<u8>, at: usize) -> (matched: bool)
    requires
        needle@.len() > 0,
        at + needle@.len() <= bytes@.len(),
    ensures
        matched == occurs_at(bytes@, needle@, at as int),
{
    let mut j: usize = 0;
    while j < needle.len()
        invariant
            j <= needle.len(),
            at + needle.len() <= bytes.len(),
            forall|k: int| 0 <= k < j ==> bytes@[at + k] == needle@[k],
        decreases needle.len() - j,
    {
        if bytes[at + j] != needle[j] {
            proof {
                let window = bytes@.subrange(at as int, at + needle@.len());
                assert(window[j as int] == bytes@[at + j]);
            }
            return false;
        }
        j = j + 1;
    }
    assert(bytes@.subrange(at as int, at + needle@.len()) =~= needle@);
    true
}

/// Finds the first offset at which `needle` stands in `bytes`.
pub fn find_first(bytes: &Vec<u8>, needle: &Vec<u8>) -> (found: Option<usize>)
    ensures
        found is Some ==> search_from(bytes@, needle@, 0) == Some(found->0 as int),
        found is None ==> search_from(bytes@, needle@, 0) is None,
        found is Some ==> first_occurrence(bytes@, needle@, found->0 as int),
        found is None ==> absent(bytes@, needle@),
{
    proof {
        lemma_search_is_first(bytes@, needle@);
    }
    if needle.len() == 0 || needle.len() > bytes.len() {
        return None;
    }
    let last = bytes.len() - needle.len();
    let mut at: usize = 0;
    while at <= last
        invariant
            at <= last + 1,
            needle.len() > 0,
            last + needle.len() == bytes.len(),
            search_from(bytes@, needle@, 0) == search_from(bytes@, needle@, at as int),
            match search_from(bytes@, needle@, 0) {
                Some(first) => first_occurrence(bytes@, needle@, first),
                None => absent(bytes@, needle@),
            },
        decreases last + 1 - at,
    {
        if matches_at(bytes, needle, at) {
            assert(search_from(bytes@, needle@, at as int) == Some(at as int));
            return Some(at);
        }
        assert(search_from(bytes@, needle@, at as int) == search_from(
            bytes@,
            needle@,
            at + 1,
        ));
        at = at + 1;
    }
    assert(search_from(bytes@, needle@, at as int) is None);
    None
}

/// Replaces the `len` bytes at offset `at` by `with`.
pub fn splice(bytes: &Vec<u8>, at: usize, len: usize, with: &Vec<u8>) -> (out: Vec<u8>)
    requires
        at + len <= bytes@.len(),
    ensures
        out@ == replaced(bytes@, at as int, len as int, with@),
{
    let total = bytes.len();
    assert(at + len <= total);
    let tail = at + len;
    let mut out: Vec<u8> = Vec::new();
    let mut i: usize = 0;
    while i < at
        invariant
            i <= at,
            at <= tail <= bytes@.len(),
            out@ == bytes@.subrange(0, i as int),
        decreases at - i,
    {
        out.push(bytes[i]);
        assert(bytes@.subrange(0, i + 1) =~= bytes@.subrange(0, i as int).push(bytes@[i as int]));
        i = i + 1;
    }
    let mut j: usize = 0;
    while j < with.len()
        invariant
            j <= with.len(),
            at <= tail <= bytes@.len(),
            out@ == bytes@.subrange(0, at as int) + with@.subrange(0, j as int),
        decreases with.len() - j,
    {
        out.push(with[j]);
        assert(with@.subrange(0, j + 1) =~= with@.subrange(0, j as int).push(with@[j as int]));
        assert(out@ =~= bytes@.subrange(0, at as int) + with@.subrange(0, j + 1));
        j = j + 1;
    }
    assert(with@.subrange(0, j as int) =~= with@);
    let mut k: usize = tail;
    while k < bytes.len()
        invariant
            tail <= k <= bytes.len(),
            at <= tail,
            out@ == bytes@.subrange(0, at as int) + with@ + bytes@.subrange(tail as int, k as int),
        decreases bytes.len() - k,
    {
        out.push(bytes[k]);
        assert(bytes@.subrange(tail as int, k + 1) =~= bytes@.subrange(tail as int, k as int).push(
            bytes@[k as int],
        ));
        assert(out@ =~= bytes@.subrange(0, at as int) + with@ + bytes@.subrange(
            tail as int,
            k + 1,
        ));
        k = k + 1;
    }
    out
}

/// Builds the mutant that one comparison suggests.
pub fn mutant_for(bytes: &Vec<u8>, comparison: &Comparison) -> (mutant: Option<Vec<u8>>)
    ensures
        mutant is Some <==> mutant_of(bytes@, comparison.deep_view()) is Some,
        mutant is Some ==> mutant->0@ == mutant_of(bytes@, comparison.deep_view())->0,
        mutant is Some ==> exists|at: int|
            first_occurrence(bytes@, comparison.lhs@, at) && mutant->0@ == #[trigger] replaced(
                bytes@,
                at,
                comparison.lhs@.len() as int,
                comparison.rhs@,
            ),
        mutant is None <==> absent(bytes@, comparison.lhs@),
{
    match find_first(bytes, &comparison.lhs) {
        None => None,
        Some(at) => {
            assert(occurs_at(bytes@, comparison.lhs@, at as int));
            let total = bytes.len();
            assert(at + comparison.lhs@.len() <= total);
            let out = splice(bytes, at, comparison.lhs.len(), &comparison.rhs);
            Some(out)
        },
    }
}

/// Builds the mutants of a comparison trace: one per recorded comparison whose left
/// operand stands in the input, in trace order, looking at no more than `cap`
/// comparisons.
pub fn trace_mutants(bytes: &Vec<u8>, trace: &Vec<Comparison>, cap: usize) -> (mutants: Vec<Vec<u8>>)
    ensures
        mutants.deep_view() == mutants_upto(
            bytes@,
            trace.deep_view(),
            capped(trace@.len() as int, cap as int),
        ),
        mutants@.len() <= cap,
        mutants@.len() <= trace@.len(),
{
    let limit: usize = if trace.len() <= cap {
        trace.len()
    } else {
        cap
    };
    let mut mutants: Vec<Vec<u8>> = Vec::new();
    let mut n: usize = 0;
    proof {
        assert(mutants.deep_view() =~= Seq::<Seq<u8>>::empty());
    }
    while n < limit
        invariant
            n <= limit,
            limit <= trace@.len(),
            mutants.deep_view() == mutants_upto(bytes@, trace.deep_view(), n as int),
            mutants@.len() <= n,
        decreases limit - n,
    {
        let ghost before = mutants.deep_view();
        let ghost held = mutants@;
        assert(trace.deep_view()[n as int] == trace@[n as int].deep_view());
        match mutant_for(bytes, &trace[n]) {
            Some(mutant) => {
                let ghost value = mutant@;
                mutants.push(mutant);
                proof {
                    assert(mutants@ == held.push(mutant));
                    assert(mutants.deep_view().len() == before.len() + 1);
                    assert forall|i: int| 0 <= i < before.len() implies mutants.deep_view()[i]
                        == before[i] by {
                        assert(mutants@[i] == held[i]);
                        assert(before[i] == held[i].deep_view());
                        assert(mutants.deep_view()[i] == mutants@[i].deep_view());
                    }
                    assert(mutants@[before.len() as int] == mutant);
                    assert(mutant.deep_view() =~= value);
                    assert(mutants.deep_view() =~= before.push(value));
                }
            },
            None => {},
        }
        n = n + 1;
    }
    mutants
}

} // verus!
