//! The minimizer: re-scores the corpus, demotes entries whose coverage a cheaper entry
//! subsumes, and ranks all entries by priority.

use crate::corpus::{Corpus, EntryView};
use crate::coverage::{count_bits, strict_subset_bits, subset_bits};
use crate::scheduler::{flag_at, lemma_pick, pick_of, Scheduler};
use vstd::prelude::*;

verus! {

/// Entry `j` covers location `loc`.
pub open spec fn covers(entries: Seq<EntryView>, j: int, loc: int) -> bool {
    0 <= loc < entries[j].coverage.len() && entries[j].coverage[loc]
}

/// How many of the first `n` entries cover location `loc`.
pub open spec fn cover_count(entries: Seq<EntryView>, n: int, loc: int) -> nat
    decreases n,
{
    if n <= 0 {
        0
    } else {
        cover_count(entries, n - 1, loc) + if covers(entries, n - 1, loc) {
            1nat
        } else {
            0nat
        }
    }
}

/// How many locations under `m` entry `i` covers alone.
pub open spec fn exclusive_upto(entries: Seq<EntryView>, i: int, m: int) -> nat
    decreases m,
{
    if m <= 0 {
        0
    } else {
        exclusive_upto(entries, i, m - 1) + if covers(entries, i, m - 1) && cover_count(
            entries,
            entries.len() as int,
            m - 1,
        ) == 1 {
            1nat
        } else {
            0nat
        }
    }
}

/// The coverage score of entry `i`: the number of locations that it covers and no
/// other entry does.
pub open spec fn exclusive_bits(entries: Seq<EntryView>, i: int) -> nat {
    exclusive_upto(entries, i, entries[i].coverage.len() as int)
}

/// Entry `j` makes entry `i` redundant: it covers strictly more, runs no longer and
/// is no larger.
pub open spec fn dominates(entries: Seq<EntryView>, j: int, i: int) -> bool {
    &&& j != i
    &&& strict_subset_bits(entries[i].coverage, entries[j].coverage)
    &&& entries[j].exec_time_ms <= entries[i].exec_time_ms
    &&& entries[j].input.bytes.len() <= entries[i].input.bytes.len()
}

/// Entry `i` is redundant beside some other entry.
pub open spec fn dominated(entries: Seq<EntryView>, i: int) -> bool {
    exists|j: int| 0 <= j < entries.len() && #[trigger] dominates(entries, j, i)
}

/// What the priority of an entry is decided by.
pub struct Key {
    pub demoted: bool,
    pub score: nat,
    pub exec_time_ms: u64,
    pub len: nat,
}

/// The key of entry `i`.
pub open spec fn key_of(entries: Seq<EntryView>, i: int) -> Key {
    Key {
        demoted: dominated(entries, i),
        score: exclusive_bits(entries, i),
        exec_time_ms: entries[i].exec_time_ms,
        len: entries[i].input.bytes.len(),
    }
}

/// Entry `a` with key `ka` has priority over entry `b` with key `kb`: an entry that
/// is not demoted comes before one that is; then the higher coverage score, the
/// shorter execution time, the smaller input, and the earlier handle decide, in
/// this order.
pub open spec fn key_before(ka: Key, a: int, kb: Key, b: int) -> bool {
    if ka.demoted != kb.demoted {
        !ka.demoted
    } else if ka.score != kb.score {
        ka.score > kb.score
    } else if ka.exec_time_ms != kb.exec_time_ms {
        ka.exec_time_ms < kb.exec_time_ms
    } else if ka.len != kb.len {
        ka.len < kb.len
    } else {
        a < b
    }
}

/// Entry `a` has priority over entry `b`.
pub open spec fn ranks_before(entries: Seq<EntryView>, a: int, b: int) -> bool {
    key_before(key_of(entries, a), a, key_of(entries, b), b)
}

/// `order` lists handles of the corpus, each ahead of all that it has priority over.
pub open spec fn sorted_by_priority(entries: Seq<EntryView>, order: Seq<usize>) -> bool {
    &&& forall|p: int| 0 <= p < order.len() ==> 0 <= #[trigger] order[p] < entries.len()
    &&& forall|p: int, q: int|
        0 <= p < q < order.len() ==> ranks_before(entries, #[trigger] order[p] as int, #[trigger] order[q] as int)
}

/// Handle `id` stands somewhere in `order`.
pub open spec fn listed(order: Seq<usize>, id: int) -> bool {
    exists|p: int| 0 <= p < order.len() && #[trigger] order[p] == id
}

/// `order` is the priority order of the corpus: it lists every handle, sorted.
pub open spec fn priority_order(entries: Seq<EntryView>, order: Seq<usize>) -> bool {
    &&& order.len() == entries.len()
    &&& sorted_by_priority(entries, order)
    &&& forall|id: int| 0 <= id < entries.len() ==> #[trigger] listed(order, id)
}

/// The bookkeeping is what the minimizer computes for this corpus.
pub open spec fn minimized(
    entries: Seq<EntryView>,
    demoted: Seq<bool>,
    scores: Seq<usize>,
    order: Seq<usize>,
) -> bool {
    &&& demoted.len() == entries.len()
    &&& scores.len() == entries.len()
    &&& forall|i: int| 0 <= i < entries.len() ==> #[trigger] demoted[i] == dominated(entries, i)
    &&& forall|i: int| 0 <= i < entries.len() ==> #[trigger] scores[i] == exclusive_bits(entries, i)
    &&& priority_order(entries, order)
}

/// Priority is a strict total order on handles: of two different entries exactly one
/// has priority, and priority carries over.
pub proof fn lemma_priority_is_total_order(entries: Seq<EntryView>, a: int, b: int, c: int)
    ensures
        !ranks_before(entries, a, a),
        a != b ==> (ranks_before(entries, a, b) != ranks_before(entries, b, a)),
        ranks_before(entries, a, b) && ranks_before(entries, b, c) ==> ranks_before(entries, a, c),
{
}

/// A corpus has one priority order only.
pub proof fn lemma_priority_order_unique(
    entries: Seq<EntryView>,
    first: Seq<usize>,
    second: Seq<usize>,
)
    requires
        priority_order(entries, first),
        priority_order(entries, second),
    ensures
        first == second,
{
    assert forall|i: int| 0 <= i < first.len() implies first[i] == second[i] by {
        lemma_orders_agree_upto(entries, first, second, i);
    }
    assert(first =~= second);
}

proof fn lemma_orders_agree_upto(
    entries: Seq<EntryView>,
    first: Seq<usize>,
    second: Seq<usize>,
    i: int,
)
    requires
        priority_order(entries, first),
        priority_order(entries, second),
        0 <= i < first.len(),
    ensures
        first[i] == second[i],
    decreases i,
{
    assert forall|k: int| 0 <= k < i implies first[k] == second[k] by {
        lemma_orders_agree_upto(entries, first, second, k);
    }
    let a = first[i] as int;
    let b = second[i] as int;
    if a != b {
        assert(listed(second, a));
        assert(listed(first, b));
        let q = choose|q: int| 0 <= q < second.len() && second[q] == a;
        let p = choose|p: int| 0 <= p < first.len() && first[p] == b;
        lemma_priority_is_total_order(entries, a, b, a);
        if q < i {
            assert(first[q] == second[q]);
            assert(ranks_before(entries, first[q] as int, first[i] as int));
            lemma_priority_is_total_order(entries, a, a, a);
        }
        if p < i {
            assert(first[p] == second[p]);
            assert(ranks_before(entries, second[p] as int, second[i] as int));
            lemma_priority_is_total_order(entries, b, b, b);
        }
        assert(ranks_before(entries, second[i] as int, second[q] as int));
        assert(ranks_before(entries, first[i] as int, first[p] as int));
    }
}

/// A map that another one covers sets no more locations than that one, and fewer if
/// that one sets a location more.
pub proof fn lemma_count_bits_monotone(a: Seq<bool>, b: Seq<bool>)
    requires
        subset_bits(a, b),
    ensures
        count_bits(a) <= count_bits(b),
        strict_subset_bits(a, b) ==> count_bits(a) < count_bits(b),
    decreases a.len(),
{
    if a.len() > 0 {
        let shorter_a = a.drop_last();
        let shorter_b = b.drop_last();
        assert(subset_bits(shorter_a, shorter_b)) by {
            assert forall|i: int| 0 <= i < shorter_a.len() && #[trigger] shorter_a[i] implies shorter_b[i] by {
                assert(a[i]);
            }
        }
        lemma_count_bits_monotone(shorter_a, shorter_b);
        assert(a.last() ==> b.last()) by {
            if a[a.len() - 1] {
            }
        }
        if strict_subset_bits(a, b) {
            let w = choose|i: int| 0 <= i < b.len() && #[trigger] b[i] && !a[i];
            if w < a.len() - 1 {
                assert(shorter_b[w] && !shorter_a[w]);
                assert(strict_subset_bits(shorter_a, shorter_b));
            }
        }
    }
}

/// The handle, among the first `n`, of an entry that sets the most locations.
pub open spec fn widest_entry(entries: Seq<EntryView>, n: int) -> int
    decreases n,
{
    if n <= 1 {
        0
    } else {
        let best = widest_entry(entries, n - 1);
        if count_bits(entries[n - 1].coverage) > count_bits(entries[best].coverage) {
            n - 1
        } else {
            best
        }
    }
}

/// No entry among the first `n` sets more locations than the widest one.
pub proof fn lemma_widest_entry(entries: Seq<EntryView>, n: int)
    requires
        1 <= n <= entries.len(),
    ensures
        0 <= widest_entry(entries, n) < n,
        forall|j: int|
            0 <= j < n ==> count_bits(#[trigger] entries[j].coverage) <= count_bits(
                entries[widest_entry(entries, n)].coverage,
            ),
    decreases n,
{
    if n > 1 {
        lemma_widest_entry(entries, n - 1);
    }
}

/// The minimizer never demotes a whole corpus: an entry that sets the most locations
/// has no entry that covers strictly more.
pub proof fn lemma_some_entry_is_not_dominated(entries: Seq<EntryView>)
    requires
        entries.len() > 0,
    ensures
        !dominated(entries, widest_entry(entries, entries.len() as int)),
{
    let n = entries.len() as int;
    let best = widest_entry(entries, n);
    lemma_widest_entry(entries, n);
    if dominated(entries, best) {
        let j = choose|j: int| 0 <= j < entries.len() && #[trigger] dominates(entries, j, best);
        lemma_count_bits_monotone(entries[best].coverage, entries[j].coverage);
        assert(count_bits(entries[j].coverage) <= count_bits(entries[best].coverage));
    }
}

/// After the minimizer has run, the scheduler never hands out a demoted entry.
pub proof fn lemma_minimized_pick_is_not_demoted(
    entries: Seq<EntryView>,
    demoted: Seq<bool>,
    scores: Seq<usize>,
    order: Seq<usize>,
    cursor: int,
)
    requires
        entries.len() > 0,
        minimized(entries, demoted, scores, order),
    ensures
        !flag_at(demoted, pick_of(demoted, entries.len() as int, cursor)),
        !dominated(entries, pick_of(demoted, entries.len() as int, cursor)),
{
    let n = entries.len() as int;
    let best = widest_entry(entries, n);
    lemma_widest_entry(entries, n);
    lemma_some_entry_is_not_dominated(entries);
    assert(demoted[best] == dominated(entries, best));
    assert(!flag_at(demoted, best));
    lemma_pick(demoted, n, cursor);
    let pick = pick_of(demoted, n, cursor);
    assert(demoted[pick] == dominated(entries, pick));
}

/// Running the minimizer again on an unchanged corpus changes nothing: whatever two
/// runs computed for the same entries is the same flags, scores and priority order.
pub proof fn lemma_minimizer_is_idempotent(entries: Seq<EntryView>, once: Scheduler, twice: Scheduler)
    requires
        minimized(entries, once.demoted@, once.scores@, once.order@),
        minimized(entries, twice.demoted@, twice.scores@, twice.order@),
    ensures
        once.demoted@ == twice.demoted@,
        once.scores@ == twice.scores@,
        once.order@ == twice.order@,
{
    lemma_priority_order_unique(entries, once.order@, twice.order@);
    assert(once.demoted@ =~= twice.demoted@);
    assert(once.scores@ =~= twice.scores@);
}

/// The size of the largest coverage map in the corpus.
fn widest_map(corpus: &Corpus) -> (width: usize)
    ensures
        forall|j: int|
            0 <= j < corpus.deep_view().len() ==> (#[trigger] corpus.deep_view()[j]).coverage.len()
                <= width,
{
    let mut width: usize = 0;
    let mut j: usize = 0;
    while j < corpus.entries.len()
        invariant
            j <= corpus.entries.len(),
            forall|k: int| 0 <= k < j ==> (#[trigger] corpus.deep_view()[k]).coverage.len() <= width,
        decreases corpus.entries.len() - j,
    {
        let size = corpus.entries[j].coverage.size();
        if size > width {
            width = size;
        }
        j = j + 1;
    }
    width
}

/// For every location under `width`, the number of entries that cover it.
fn cover_counts(corpus: &Corpus, width: usize) -> (counts: Vec<usize>)
    ensures
        counts@.len() == width,
        forall|loc: int|
            0 <= loc < width ==> #[trigger] counts@[loc] == cover_count(
                corpus.deep_view(),
                corpus.deep_view().len() as int,
                loc,
            ),
{
    let n = corpus.entries.len();
    let mut counts: Vec<usize> = Vec::new();
    let mut loc: usize = 0;
    while loc < width
        invariant
            loc <= width,
            n == corpus.entries.len(),
            counts@.len() == loc,
            forall|l: int|
                0 <= l < loc ==> #[trigger] counts@[l] == cover_count(
                    corpus.deep_view(),
                    n as int,
                    l,
                ),
        decreases width - loc,
    {
        let mut count: usize = 0;
        let mut j: usize = 0;
        while j < n
            invariant
                j <= n,
                n == corpus.entries.len(),
                count == cover_count(corpus.deep_view(), j as int, loc as int),
                count <= j,
            decreases n - j,
        {
            if corpus.entries[j].coverage.is_set(loc) {
                count = count + 1;
            }
            j = j + 1;
        }
        counts.push(count);
        loc = loc + 1;
    }
    counts
}

/// The coverage score of entry `i`, from the per-location cover counts.
fn score_of(corpus: &Corpus, i: usize, counts: &Vec<usize>) -> (score: usize)
    requires
        i < corpus.deep_view().len(),
        corpus.deep_view()[i as int].coverage.len() <= counts@.len(),
        forall|loc: int|
            0 <= loc < counts@.len() ==> #[trigger] counts@[loc] == cover_count(
                corpus.deep_view(),
                corpus.deep_view().len() as int,
                loc,
            ),
    ensures
        score == exclusive_bits(corpus.deep_view(), i as int),
{
    let map = &corpus.entries[i].coverage;
    let size = map.size();
    let mut score: usize = 0;
    let mut loc: usize = 0;
    while loc < size
        invariant
            loc <= size,
            i < corpus.deep_view().len(),
            *map == corpus.entries@[i as int].coverage,
            size == corpus.deep_view()[i as int].coverage.len(),
            size <= counts@.len(),
            forall|l: int|
                0 <= l < counts@.len() ==> #[trigger] counts@[l] == cover_count(
                    corpus.deep_view(),
                    corpus.deep_view().len() as int,
                    l,
                ),
            score == exclusive_upto(corpus.deep_view(), i as int, loc as int),
            score <= loc,
        decreases size - loc,
    {
        if map.is_set(loc) && counts[loc] == 1 {
            score = score + 1;
        }
        loc = loc + 1;
    }
    score
}

/// Whether some other entry makes entry `i` redundant.
fn is_dominated(corpus: &Corpus, i: usize) -> (redundant: bool)
    requires
        i < corpus.deep_view().len(),
    ensures
        redundant == dominated(corpus.deep_view(), i as int),
{
    let n = corpus.entries.len();
    let entry = &corpus.entries[i];
    let mut j: usize = 0;
    while j < n
        invariant
            j <= n,
            n == corpus.entries.len(),
            i < n,
            *entry == corpus.entries@[i as int],
            forall|k: int| 0 <= k < j ==> !#[trigger] dominates(corpus.deep_view(), k, i as int),
        decreases n - j,
    {
        let other = &corpus.entries[j];
        if j != i && other.exec_time_ms <= entry.exec_time_ms && other.input.bytes.len()
            <= entry.input.bytes.len() && entry.coverage.is_strict_subset_of(&other.coverage) {
            assert(dominates(corpus.deep_view(), j as int, i as int));
            return true;
        }
        j = j + 1;
    }
    false
}

/// Whether entry `a` has priority over entry `b`.
fn has_priority(corpus: &Corpus, demoted: &Vec<bool>, scores: &Vec<usize>, a: usize, b: usize) -> (before:
    bool)
    requires
        a < corpus.deep_view().len(),
        b < corpus.deep_view().len(),
        demoted@.len() == corpus.deep_view().len(),
        scores@.len() == corpus.deep_view().len(),
        forall|i: int|
            0 <= i < demoted@.len() ==> #[trigger] demoted@[i] == dominated(corpus.deep_view(), i),
        forall|i: int|
            0 <= i < scores@.len() ==> #[trigger] scores@[i] == exclusive_bits(
                corpus.deep_view(),
                i,
            ),
    ensures
        before == ranks_before(corpus.deep_view(), a as int, b as int),
{
    let ea = &corpus.entries[a];
    let eb = &corpus.entries[b];
    if demoted[a] != demoted[b] {
        !demoted[a]
    } else if scores[a] != scores[b] {
        scores[a] > scores[b]
    } else if ea.exec_time_ms != eb.exec_time_ms {
        ea.exec_time_ms < eb.exec_time_ms
    } else if ea.input.bytes.len() != eb.input.bytes.len() {
        ea.input.bytes.len() < eb.input.bytes.len()
    } else {
        a < b
    }
}

/// Ranks all entries: each handle is inserted in front of the first handle that it
/// has priority over.
fn rank_entries(corpus: &Corpus, demoted: &Vec<bool>, scores: &Vec<usize>) -> (order: Vec<usize>)
    requires
        demoted@.len() == corpus.deep_view().len(),
        scores@.len() == corpus.deep_view().len(),
        forall|i: int|
            0 <= i < demoted@.len() ==> #[trigger] demoted@[i] == dominated(corpus.deep_view(), i),
        forall|i: int|
            0 <= i < scores@.len() ==> #[trigger] scores@[i] == exclusive_bits(
                corpus.deep_view(),
                i,
            ),
    ensures
        priority_order(corpus.deep_view(), order@),
{
    let ghost entries = corpus.deep_view();
    let n = corpus.entries.len();
    let mut order: Vec<usize> = Vec::new();
    let mut id: usize = 0;
    while id < n
        invariant
            id <= n,
            n == corpus.entries.len(),
            entries == corpus.deep_view(),
            demoted@.len() == n,
            scores@.len() == n,
            forall|i: int| 0 <= i < n ==> #[trigger] demoted@[i] == dominated(entries, i),
            forall|i: int| 0 <= i < n ==> #[trigger] scores@[i] == exclusive_bits(entries, i),
            order@.len() == id,
            forall|p: int| 0 <= p < order@.len() ==> 0 <= #[trigger] order@[p] < id,
            forall|p: int, q: int|
                0 <= p < q < order@.len() ==> ranks_before(
                    entries,
                    #[trigger] order@[p] as int,
                    #[trigger] order@[q] as int,
                ),
            forall|v: int| 0 <= v < id ==> #[trigger] listed(order@, v),
        decreases n - id,
    {
        let mut at: usize = 0;
        let mut found = false;
        while at < order.len() && !found
            invariant
                at <= order@.len(),
                id < n,
                n == corpus.entries.len(),
                entries == corpus.deep_view(),
                demoted@.len() == n,
                scores@.len() == n,
                forall|i: int| 0 <= i < n ==> #[trigger] demoted@[i] == dominated(entries, i),
                forall|i: int| 0 <= i < n ==> #[trigger] scores@[i] == exclusive_bits(entries, i),
                forall|p: int| 0 <= p < order@.len() ==> 0 <= #[trigger] order@[p] < id,
                forall|p: int|
                    0 <= p < at ==> !ranks_before(entries, id as int, #[trigger] order@[p] as int),
                found ==> at < order@.len() && ranks_before(
                    entries,
                    id as int,
                    order@[at as int] as int,
                ),
            decreases order@.len() - at + if found { 0int } else { 1int },
        {
            if has_priority(corpus, demoted, scores, id, order[at]) {
                found = true;
            } else {
                at = at + 1;
            }
        }
        let ghost before = order@;
        order.insert(at, id);
        proof {
            let after = order@;
            assert(after.len() == before.len() + 1);
            assert(forall|p: int| 0 <= p < at ==> after[p] == before[p]);
            assert(after[at as int] == id);
            assert(forall|p: int| at < p < after.len() ==> after[p] == before[p - 1]);
            assert forall|p: int, q: int| 0 <= p < q < after.len() implies ranks_before(
                entries,
                #[trigger] after[p] as int,
                #[trigger] after[q] as int,
            ) by {
                if q < at {
                } else if q == at {
                    lemma_priority_is_total_order(entries, id as int, before[p] as int, 0);
                } else if p < at {
                    assert(ranks_before(entries, before[p] as int, before[q - 1] as int));
                } else if p == at {
                    if q - 1 > at {
                        assert(ranks_before(entries, before[at as int] as int, before[q - 1] as int));
                        lemma_priority_is_total_order(
                            entries,
                            id as int,
                            before[at as int] as int,
                            before[q - 1] as int,
                        );
                    }
                } else {
                    assert(ranks_before(entries, before[p - 1] as int, before[q - 1] as int));
                }
            }
            assert forall|v: int| 0 <= v < id + 1 implies #[trigger] listed(after, v) by {
                if v == id {
                    assert(after[at as int] == v);
                } else {
                    assert(listed(before, v));
                    let p = choose|p: int| 0 <= p < before.len() && before[p] == v;
                    if p < at {
                        assert(after[p] == v);
                    } else {
                        assert(after[p + 1] == v);
                    }
                }
            }
        }
        id = id + 1;
    }
    order
}

impl Scheduler {
    /// Runs the minimizer over the corpus: computes every entry's coverage score,
    /// demotes every entry that another one makes redundant, and ranks the entries.
    /// The corpus itself is not touched, and the cursor stays where it is.
    pub fn minimize(&mut self, corpus: &Corpus)
        ensures
            minimized(
                corpus.deep_view(),
                final(self).demoted@,
                final(self).scores@,
                final(self).order@,
            ),
            final(self).cursor == old(self).cursor,
    {
        let n = corpus.count();
        let width = widest_map(corpus);
        let counts = cover_counts(corpus, width);
        let mut demoted: Vec<bool> = Vec::new();
        let mut scores: Vec<usize> = Vec::new();
        let mut i: usize = 0;
        while i < n
            invariant
                i <= n,
                n == corpus.deep_view().len(),
                counts@.len() == width,
                forall|j: int|
                    0 <= j < n ==> (#[trigger] corpus.deep_view()[j]).coverage.len() <= width,
                forall|loc: int|
                    0 <= loc < width ==> #[trigger] counts@[loc] == cover_count(
                        corpus.deep_view(),
                        n as int,
                        loc,
                    ),
                demoted@.len() == i,
                scores@.len() == i,
                forall|k: int|
                    0 <= k < i ==> #[trigger] demoted@[k] == dominated(corpus.deep_view(), k),
                forall|k: int|
                    0 <= k < i ==> #[trigger] scores@[k] == exclusive_bits(corpus.deep_view(), k),
            decreases n - i,
        {
            demoted.push(is_dominated(corpus, i));
            scores.push(score_of(corpus, i, &counts));
            i = i + 1;
        }
        let order = rank_entries(corpus, &demoted, &scores);
        self.demoted = demoted;
        self.scores = scores;
        self.order = order;
    }
}

/// The minimizer is due each time the number of executions reaches a multiple of the
/// cadence. A cadence of zero switches it off.
pub open spec fn is_due(executions: u64, cadence: u64) -> bool {
    cadence > 0 && executions % cadence == 0
}

/// Whether the minimizer is due.
pub fn minimize_due(executions: u64, cadence: u64) -> (due: bool)
    ensures
        due == is_due(executions, cadence),
{
    cadence > 0 && executions % cadence == 0
}

} // verus!
