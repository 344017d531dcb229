use grimoire::corpus::{Corpus, Lineage, Origin};
use grimoire::coverage::CoverageMap;
use grimoire::input::Input;
use grimoire::minimizer::minimize_due;
use grimoire::scheduler::Scheduler;

fn seed() -> Lineage {
    Lineage { origin: Origin::Seed, parent: None }
}

fn corpus_of(entries: &[(&[u8], &[u8], u64)]) -> Corpus {
    let mut corpus = Corpus::new();
    for (bytes, hits, time) in entries {
        corpus.add(Input::from_bytes(bytes.to_vec()), CoverageMap::from_hits(&hits.to_vec()), *time, seed());
    }
    corpus
}

#[test]
fn corpus_is_append_only_with_index_handles() {
    let mut corpus = Corpus::new();
    assert_eq!(corpus.count(), 0);
    let a = corpus.add(Input::from_bytes(vec![1]), CoverageMap::empty(2), 3, seed());
    let b = corpus.add(Input::from_bytes(vec![2]), CoverageMap::empty(2), 4, seed());
    assert_eq!((a, b), (0, 1));
    assert_eq!(corpus.count(), 2);
    assert!(corpus.contains(1));
    assert!(!corpus.contains(2));
    assert_eq!(corpus.get(0).input.bytes, vec![1]);
    assert_eq!(corpus.get(1).exec_time_ms, 4);
    assert_eq!(corpus.get(1).id, 1);
}

#[test]
fn objective_store_suppresses_exact_duplicates() {
    let mut store = Corpus::new();
    assert_eq!(store.add_distinct(Input::from_bytes(vec![1, 2]), CoverageMap::empty(1), 0, seed()), Some(0));
    assert_eq!(store.add_distinct(Input::from_bytes(vec![1, 2]), CoverageMap::empty(1), 9, seed()), None);
    assert_eq!(store.add_distinct(Input::from_bytes(vec![1, 3]), CoverageMap::empty(1), 0, seed()), Some(1));
    assert_eq!(store.count(), 2);
    assert!(store.holds(&vec![1, 3]));
    assert!(!store.holds(&vec![1]));
}

#[test]
fn every_entry_is_picked_within_n_calls() {
    let corpus = corpus_of(&[(b"a", &[1, 0, 0], 1), (b"b", &[0, 1, 0], 1), (b"c", &[0, 0, 1], 1)]);
    let mut scheduler = Scheduler::new();
    let picks: Vec<usize> = (0..3).map(|_| scheduler.next(&corpus).unwrap()).collect();
    assert_eq!(picks, vec![0, 1, 2]);
    let more: Vec<usize> = (0..4).map(|_| scheduler.next(&corpus).unwrap()).collect();
    assert_eq!(more, vec![0, 1, 2, 0]);
}

#[test]
fn fairness_holds_from_any_cursor() {
    let corpus = corpus_of(&[(b"a", &[1], 1), (b"b", &[1], 1), (b"c", &[1], 1), (b"d", &[1], 1)]);
    for cursor in 0..6 {
        let mut scheduler = Scheduler::new();
        scheduler.cursor = cursor;
        let mut seen = vec![false; 4];
        for _ in 0..4 {
            seen[scheduler.next(&corpus).unwrap()] = true;
        }
        assert_eq!(seen, vec![true; 4]);
    }
}

#[test]
fn empty_corpus_has_nothing_to_pick() {
    let corpus = Corpus::new();
    let mut scheduler = Scheduler::new();
    assert_eq!(scheduler.next(&corpus), None);
    assert_eq!(scheduler.cursor, 0);
}

#[test]
fn minimizer_scores_exclusive_locations() {
    let corpus = corpus_of(&[
        (b"aaaa", &[1, 1, 0, 0], 10),
        (b"bb", &[0, 1, 1, 0], 10),
        (b"c", &[0, 0, 0, 1], 10),
    ]);
    let mut scheduler = Scheduler::new();
    scheduler.minimize(&corpus);
    assert_eq!(scheduler.scores, vec![1, 1, 1]);
    assert_eq!(scheduler.demoted, vec![false, false, false]);
    // equal scores and times: the smaller input first
    assert_eq!(scheduler.order, vec![2, 1, 0]);
}

#[test]
fn minimizer_demotes_entries_subsumed_by_cheaper_ones() {
    let corpus = corpus_of(&[
        (b"long-input", &[1, 0, 0], 20),
        (b"short", &[1, 1, 0], 10),
        (b"x", &[1, 1, 1], 50),
    ]);
    let mut scheduler = Scheduler::new();
    scheduler.minimize(&corpus);
    // entry 0 is covered by entry 1, which is faster and smaller
    // entry 1 is covered by entry 2, but entry 2 is slower
    assert_eq!(scheduler.demoted, vec![true, false, false]);
    assert_eq!(scheduler.scores, vec![0, 0, 1]);
    assert_eq!(scheduler.order, vec![2, 1, 0]);
    let picks: Vec<usize> = (0..4).map(|_| scheduler.next(&corpus).unwrap()).collect();
    assert_eq!(picks, vec![1, 2, 1, 2]);
}

#[test]
fn ties_fall_to_time_then_length_then_handle() {
    let corpus = corpus_of(&[
        (b"bb", &[1], 5),
        (b"a", &[1], 9),
        (b"cc", &[1], 5),
        (b"d", &[1], 5),
    ]);
    let mut scheduler = Scheduler::new();
    scheduler.minimize(&corpus);
    assert_eq!(scheduler.scores, vec![0, 0, 0, 0]);
    assert_eq!(scheduler.order, vec![3, 0, 2, 1]);
}

#[test]
fn minimizing_twice_changes_nothing() {
    let corpus = corpus_of(&[
        (b"abc", &[1, 0, 1, 0], 7),
        (b"ab", &[1, 0, 0, 0], 9),
        (b"abcd", &[1, 1, 1, 0], 3),
        (b"a", &[0, 0, 0, 1], 3),
    ]);
    let mut scheduler = Scheduler::new();
    scheduler.minimize(&corpus);
    let first = (scheduler.demoted.clone(), scheduler.scores.clone(), scheduler.order.clone());
    scheduler.minimize(&corpus);
    assert_eq!(first, (scheduler.demoted.clone(), scheduler.scores.clone(), scheduler.order.clone()));
    assert_eq!(scheduler.cursor, 0);
}

#[test]
fn entries_added_after_minimizing_are_not_demoted() {
    let mut corpus = corpus_of(&[(b"aa", &[1, 0], 2), (b"a", &[1, 1], 1)]);
    let mut scheduler = Scheduler::new();
    scheduler.minimize(&corpus);
    assert_eq!(scheduler.demoted, vec![true, false]);
    corpus.add(Input::from_bytes(vec![3]), CoverageMap::from_hits(&vec![0, 0]), 1, seed());
    let picks: Vec<usize> = (0..4).map(|_| scheduler.next(&corpus).unwrap()).collect();
    assert_eq!(picks, vec![1, 2, 1, 2]);
}

#[test]
fn minimizer_cadence() {
    assert!(minimize_due(0, 100));
    assert!(minimize_due(300, 100));
    assert!(!minimize_due(301, 100));
    assert!(!minimize_due(300, 0));
}
