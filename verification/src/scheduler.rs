//! Which entry to mutate next: queue order, passing over entries that the minimizer
//! has demoted.

use crate::corpus::Corpus;
use vstd::prelude::*;

verus! {

/// The scheduler's bookkeeping. Flags, scores and the priority order are indexed by
/// entry handle and are as long as the corpus was when the minimizer last ran;
/// entries added since then are not demoted.
#[derive(Debug)]
pub struct Scheduler {
    /// The queue position at which the next scan starts.
    pub cursor: usize,
    /// Per entry: whether the minimizer demoted it.
    pub demoted: Vec<bool>,
    /// Per entry: the number of locations that only this entry covers.
    pub scores: Vec<usize>,
    /// Entry handles from highest to lowest priority.
    pub order: Vec<usize>,
}

/// Whether entry `i` is demoted. An entry without a flag is not.
pub open spec fn flag_at(demoted: Seq<bool>, i: int) -> bool {
    0 <= i < demoted.len() && demoted[i]
}

/// The queue position a scan starts from: the cursor, or the front of the queue when
/// the cursor does not point into it.
pub open spec fn start_of(cursor: int, n: int) -> int {
    if 0 <= cursor < n {
        cursor
    } else {
        0
    }
}

/// Position `i` of a circular queue of `n` entries, for `i` under `2 * n`.
pub open spec fn wrap(i: int, n: int) -> int {
    if i < n {
        i
    } else {
        i - n
    }
}

/// The entry picked by a scan that has already passed over `k` entries: the first
/// entry at or after that point, in circular queue order, that is not demoted; the
/// starting entry itself when every entry is demoted.
pub open spec fn scan(demoted: Seq<bool>, n: int, start: int, k: int) -> int
    decreases n - k,
{
    if k >= n {
        start
    } else if !flag_at(demoted, wrap(start + k, n)) {
        wrap(start + k, n)
    } else {
        scan(demoted, n, start, k + 1)
    }
}

/// The entry that the next call picks from a queue of `n` entries.
pub open spec fn pick_of(demoted: Seq<bool>, n: int, cursor: int) -> int {
    scan(demoted, n, start_of(cursor, n), 0)
}

/// The cursor after `pick` was handed out: the position behind it.
pub open spec fn cursor_after(pick: int, n: int) -> int {
    wrap(pick + 1, n)
}

/// The entry picked by the call that follows `k` earlier calls.
pub open spec fn nth_pick(demoted: Seq<bool>, n: int, cursor: int, k: nat) -> int
    decreases k,
{
    if k == 0 {
        pick_of(demoted, n, cursor)
    } else {
        nth_pick(demoted, n, cursor_after(pick_of(demoted, n, cursor), n), (k - 1) as nat)
    }
}

/// A scan picks an entry of the queue. Unless every entry from the scan point on is
/// demoted, the pick is not demoted and every entry passed over is.
pub proof fn lemma_scan(demoted: Seq<bool>, n: int, start: int, k: int)
    requires
        0 <= start < n,
        0 <= k <= n,
    ensures
        0 <= scan(demoted, n, start, k) < n,
        (forall|j: int| k <= j < n ==> flag_at(demoted, #[trigger] wrap(start + j, n))) ==> scan(
            demoted,
            n,
            start,
            k,
        ) == start,
        (exists|j: int| k <= j < n && !flag_at(demoted, #[trigger] wrap(start + j, n))) ==> exists|
            j: int,
        |
            k <= j < n && scan(demoted, n, start, k) == #[trigger] wrap(start + j, n) && !flag_at(
                demoted,
                wrap(start + j, n),
            ) && forall|i: int| k <= i < j ==> flag_at(demoted, #[trigger] wrap(start + i, n)),
    decreases n - k,
{
    if k >= n {
    } else if !flag_at(demoted, wrap(start + k, n)) {
        assert(scan(demoted, n, start, k) == wrap(start + k, n));
    } else {
        lemma_scan(demoted, n, start, k + 1);
        if exists|j: int| k <= j < n && !flag_at(demoted, #[trigger] wrap(start + j, n)) {
            let w = choose|j: int| k <= j < n && !flag_at(demoted, #[trigger] wrap(start + j, n));
            assert(k + 1 <= w < n && !flag_at(demoted, wrap(start + w, n)));
            let j = choose|j: int|
                k + 1 <= j < n && scan(demoted, n, start, k + 1) == #[trigger] wrap(start + j, n)
                    && !flag_at(demoted, wrap(start + j, n)) && forall|i: int|
                    k + 1 <= i < j ==> flag_at(demoted, #[trigger] wrap(start + i, n));
            assert forall|i: int| k <= i < j implies flag_at(
                demoted,
                #[trigger] wrap(start + i, n),
            ) by {
                if i > k {
                }
            }
        } else {
            assert forall|j: int| k + 1 <= j < n implies flag_at(
                demoted,
                #[trigger] wrap(start + j, n),
            ) by {}
        }
    }
}

/// The pick is an entry of the queue, and it is not demoted unless all are.
pub proof fn lemma_pick(demoted: Seq<bool>, n: int, cursor: int)
    requires
        n > 0,
    ensures
        0 <= pick_of(demoted, n, cursor) < n,
        (exists|i: int| 0 <= i < n && !flag_at(demoted, i)) ==> !flag_at(
            demoted,
            pick_of(demoted, n, cursor),
        ),
{
    let start = start_of(cursor, n);
    lemma_scan(demoted, n, start, 0);
    if exists|i: int| 0 <= i < n && !flag_at(demoted, i) {
        let i = choose|i: int| 0 <= i < n && !flag_at(demoted, i);
        let j = if i >= start {
            i - start
        } else {
            i - start + n
        };
        assert(wrap(start + j, n) == i);
    }
}

/// Without demotions the calls walk the queue in order, wrapping at its end.
pub proof fn lemma_nth_pick_walks_queue(demoted: Seq<bool>, n: int, cursor: int, k: nat)
    requires
        n > 0,
        k < n,
        forall|i: int| 0 <= i < n ==> !flag_at(demoted, i),
    ensures
        nth_pick(demoted, n, cursor, k) == wrap(start_of(cursor, n) + k, n),
    decreases k,
{
    let start = start_of(cursor, n);
    assert(wrap(start + 0, n) == start);
    assert(pick_of(demoted, n, cursor) == start);
    if k > 0 {
        lemma_nth_pick_walks_queue(demoted, n, cursor_after(start, n), (k - 1) as nat);
    }
}

/// Fairness: in a corpus of `n` entries of which none is demoted, every entry is
/// picked by one of any `n` consecutive calls.
pub proof fn lemma_round_robin_is_fair(demoted: Seq<bool>, n: int, cursor: int, id: int)
    requires
        0 <= id < n,
        forall|i: int| 0 <= i < n ==> !flag_at(demoted, i),
    ensures
        exists|k: nat| k < n && nth_pick(demoted, n, cursor, k) == id,
{
    let start = start_of(cursor, n);
    let k: nat = if id >= start {
        (id - start) as nat
    } else {
        (id - start + n) as nat
    };
    lemma_nth_pick_walks_queue(demoted, n, cursor, k);
    assert(nth_pick(demoted, n, cursor, k) == id);
}

impl Scheduler {
    /// A scheduler that has handed out nothing and demoted nothing.
    pub fn new() -> (scheduler: Scheduler)
        ensures
            scheduler.cursor == 0,
            scheduler.demoted@.len() == 0,
            scheduler.scores@.len() == 0,
            scheduler.order@.len() == 0,
    {
        Scheduler { cursor: 0, demoted: Vec::new(), scores: Vec::new(), order: Vec::new() }
    }

    /// Picks the entry to mutate next and moves the cursor behind it. An empty corpus
    /// has nothing to pick.
    pub fn next(&mut self, corpus: &Corpus) -> (picked: Option<usize>)
        ensures
            corpus.deep_view().len() == 0 ==> picked is None && *final(self) == *old(self),
            corpus.deep_view().len() > 0 ==> picked == Some(
                pick_of(
                    old(self).demoted@,
                    corpus.deep_view().len() as int,
                    old(self).cursor as int,
                ) as usize,
            ) && picked->0 < corpus.deep_view().len() && final(self).cursor == cursor_after(
                picked->0 as int,
                corpus.deep_view().len() as int,
            ),
            final(self).demoted == old(self).demoted,
            final(self).scores == old(self).scores,
            final(self).order == old(self).order,
    {
        let n = corpus.count();
        if n == 0 {
            return None;
        }
        let start: usize = if self.cursor < n {
            self.cursor
        } else {
            0
        };
        let mut pick: usize = start;
        let mut at: usize = start;
        let mut k: usize = 0;
        let mut found = false;
        proof {
            lemma_scan(self.demoted@, n as int, start as int, 0);
        }
        while k < n && !found
            invariant
                0 < n,
                start < n,
                at < n,
                k <= n,
                !found ==> at == wrap(start + k, n as int),
                !found ==> pick == start,
                !found ==> scan(self.demoted@, n as int, start as int, 0) == scan(
                    self.demoted@,
                    n as int,
                    start as int,
                    k as int,
                ),
                found ==> pick == scan(self.demoted@, n as int, start as int, 0),
            decreases n - k + if found { 0int } else { 1int },
        {
            let flagged = at < self.demoted.len() && self.demoted[at];
            if !flagged {
                pick = at;
                found = true;
            } else {
                at = if at + 1 < n {
                    at + 1
                } else {
                    0
                };
                k = k + 1;
            }
        }
        self.cursor = if pick + 1 < n {
            pick + 1
        } else {
            0
        };
        Some(pick)
    }
}

} // verus!
