use grimoire::corpus::Origin;
use grimoire::coverage::CoverageMap;
use grimoire::dictionary::load_dictionary;
use grimoire::engine::{ExecResult, FuzzState, Request, RunKind, StagePhase};
use grimoire::executor::{classify, Outcome, Termination};
use grimoire::feedback::Observation;
use grimoire::input::Segment;
use grimoire::input_to_state::Comparison;
use grimoire::snapshot::{Death, Snapshot};

const MAP: usize = 8;

// The target crashes iff the input starts with 0x41 0x42.
fn crashes(bytes: &[u8]) -> bool {
    bytes.len() >= 2 && bytes[0] == 0x41 && bytes[1] == 0x42
}

fn execute(request: &Request) -> ExecResult {
    let bytes = &request.bytes;
    let mut hits = vec![0u8; MAP];
    hits[0] = 1;
    if !bytes.is_empty() && bytes[0] == 0x41 {
        hits[1] = 1;
    }
    if bytes.len() >= 2 {
        hits[2] = 1;
    }
    let mut comparisons = Vec::new();
    if request.record_comparisons && bytes.len() >= 2 && bytes[0] == 0x41 {
        comparisons.push(Comparison { lhs: vec![bytes[0], bytes[1]], rhs: vec![0x41, 0x42] });
    }
    let termination = if crashes(bytes) { Termination::Faulted } else { Termination::Returned };
    ExecResult {
        outcome: classify(termination, 1, request.timeout_ms),
        observation: Observation { coverage: Some(CoverageMap::from_hits(&hits)), elapsed_ms: 1 },
        comparisons,
    }
}

fn seeded(seed: u64) -> FuzzState {
    let mut state = FuzzState::new(seed, MAP, 12000, 100);
    let request = state.offer_seed(b"A".to_vec());
    assert_eq!(request.bytes, b"A".to_vec());
    assert_eq!(request.timeout_ms, 12000);
    assert!(!request.record_comparisons);
    let verdict = state.report(execute(&request));
    assert!(verdict.is_interesting);
    state
}

#[test]
fn seed_that_brings_coverage_joins_the_corpus() {
    let state = seeded(1);
    assert_eq!(state.corpus.count(), 1);
    assert_eq!(state.corpus.get(0).input.bytes, b"A".to_vec());
    assert_eq!(state.corpus.get(0).lineage.origin, Origin::Seed);
    assert_eq!(state.corpus.get(0).exec_time_ms, 1);
    assert_eq!(state.cumulative.bits, vec![true, true, false, false, false, false, false, false]);
    assert_eq!(state.executions, 1);
    assert_eq!(state.objectives.count(), 0);
}

#[test]
fn seed_without_new_coverage_is_not_kept() {
    let mut state = seeded(1);
    let request = state.offer_seed(b"A".to_vec());
    let verdict = state.report(execute(&request));
    assert!(!verdict.is_interesting);
    assert_eq!(state.corpus.count(), 1);
    assert_eq!(state.executions, 2);
}

#[test]
fn empty_corpus_yields_no_request() {
    let mut state = FuzzState::new(3, MAP, 100, 0);
    assert!(state.next_request().is_none());
    assert_eq!(state.phase, StagePhase::Idle);
}

#[test]
fn crash_is_found_from_seed_a() {
    for seed in [1u64, 2, 3] {
        let mut state = seeded(seed);
        let mut executions = 0;
        while state.objectives.count() == 0 {
            let request = state.next_request().unwrap();
            let result = execute(&request);
            state.report(result);
            executions += 1;
            assert!(executions < 200_000, "no crash within the bound");
        }
        let found = &state.objectives.get(0).input.bytes;
        assert_eq!(&found[..2], &[0x41, 0x42]);
        assert!(state.cumulative.is_set(0));
        for id in 0..state.corpus.count() {
            assert!(state.corpus.get(id).coverage.is_subset_of(&state.cumulative));
            assert!(!crashes(&state.corpus.get(id).input.bytes));
        }
    }
}

#[test]
fn stages_run_in_order_for_one_base() {
    let mut state = seeded(5);
    let mut phases = Vec::new();
    for _ in 0..2000 {
        let request = state.next_request().unwrap();
        let kind = state.in_flight.as_ref().unwrap().kind;
        if phases.last() != Some(&state.phase) {
            phases.push(state.phase);
        }
        match state.phase {
            StagePhase::Generalizing => assert_eq!(kind, RunKind::Trial),
            StagePhase::Tracing => {
                assert_eq!(kind, RunKind::Trace);
                assert!(request.record_comparisons);
                assert_eq!(request.timeout_ms, 120000);
                assert_eq!(request.bytes, state.corpus.get(state.base).input.bytes);
            }
            _ => {
                assert_eq!(kind, RunKind::Mutant);
                assert!(!request.record_comparisons);
                assert_eq!(request.timeout_ms, 12000);
            }
        }
        // keep the corpus at one entry so that the base stays the same
        let result = ExecResult {
            outcome: Outcome::Completed,
            observation: Observation { coverage: Some(CoverageMap::from_hits(&vec![1; 2])), elapsed_ms: 1 },
            comparisons: Vec::new(),
        };
        state.report(result);
        if phases.len() >= 6 {
            break;
        }
    }
    assert_eq!(
        &phases[..3],
        &[StagePhase::Generalizing, StagePhase::Tracing, StagePhase::Havoc]
    );
}

#[test]
fn generalization_attaches_a_form_to_the_base() {
    let mut state = seeded(8);
    loop {
        let request = state.next_request().unwrap();
        let done = state.phase != StagePhase::Generalizing;
        state.report(execute(&request));
        if done {
            break;
        }
    }
    // "A" is needed for location 1, so it stays fixed
    assert_eq!(
        state.corpus.get(0).input.generalized,
        Some(vec![Segment::Gap, Segment::Fixed(b"A".to_vec()), Segment::Gap])
    );
    assert_eq!(state.corpus.count(), 1);
}

#[test]
fn repeated_request_without_report_is_the_same() {
    let mut state = seeded(4);
    let first = state.next_request().unwrap();
    let again = state.next_request().unwrap();
    assert_eq!(first.bytes, again.bytes);
    assert_eq!(first.timeout_ms, again.timeout_ms);
    assert_eq!(first.record_comparisons, again.record_comparisons);
}

#[test]
fn report_without_request_is_dropped() {
    let mut state = seeded(4);
    let before = state.executions;
    let verdict = state.report(ExecResult {
        outcome: Outcome::Crashed,
        observation: Observation { coverage: None, elapsed_ms: 0 },
        comparisons: Vec::new(),
    });
    assert!(!verdict.is_interesting && !verdict.is_objective);
    assert_eq!(state.executions, before);
    assert_eq!(state.objectives.count(), 0);
}

#[test]
fn timed_out_mutant_is_discarded() {
    let mut state = seeded(6);
    let mut request = state.next_request().unwrap();
    while state.in_flight.as_ref().unwrap().kind != RunKind::Mutant {
        state.report(execute(&request));
        request = state.next_request().unwrap();
    }
    let corpus = state.corpus.count();
    let seen = state.cumulative.clone();
    let verdict = state.report(ExecResult {
        outcome: classify(Termination::Returned, request.timeout_ms + 1, request.timeout_ms),
        observation: Observation { coverage: Some(CoverageMap::from_hits(&vec![1; MAP])), elapsed_ms: request.timeout_ms + 1 },
        comparisons: Vec::new(),
    });
    assert!(!verdict.is_interesting && !verdict.is_objective);
    assert_eq!(state.corpus.count(), corpus);
    assert_eq!(state.cumulative, seen);
    assert_eq!(state.objectives.count(), 0);
}

#[test]
fn snapshot_resumes_with_the_same_corpus_and_coverage() {
    let mut state = seeded(10);
    for _ in 0..500 {
        let request = state.next_request().unwrap();
        if crashes(&request.bytes) {
            break;
        }
        state.report(execute(&request));
    }
    let request = state.next_request().unwrap();
    let snapshot: Snapshot = state.snapshot();
    // the process goes on and changes, the snapshot does not
    state.report(ExecResult {
        outcome: Outcome::Completed,
        observation: Observation { coverage: Some(CoverageMap::from_hits(&vec![1; MAP])), elapsed_ms: 2 },
        comparisons: Vec::new(),
    });
    let count_at_snapshot = snapshot.state.corpus.count();
    let coverage_at_snapshot = snapshot.state.cumulative.clone();
    let mut resumed = FuzzState::restore(snapshot).unwrap();
    assert_eq!(resumed.corpus.count(), count_at_snapshot);
    assert_eq!(resumed.cumulative, coverage_at_snapshot);
    assert_ne!(resumed.cumulative, state.cumulative);
    let repeated = resumed.next_request().unwrap();
    assert_eq!(repeated.bytes, request.bytes);
    for id in 0..resumed.corpus.count() {
        assert_eq!(resumed.corpus.get(id).input, state.corpus.get(id).input);
    }
}

#[test]
fn death_by_crash_stores_the_input_in_flight() {
    let mut state = seeded(12);
    let mut request = state.next_request().unwrap();
    while state.in_flight.as_ref().unwrap().kind != RunKind::Mutant {
        state.report(execute(&request));
        request = state.next_request().unwrap();
    }
    let snapshot = state.snapshot();
    let mut resumed = FuzzState::restore(snapshot).unwrap();
    let corpus = resumed.corpus.count();
    let verdict = resumed.report_death(Death::Crash);
    assert!(verdict.is_objective);
    assert_eq!(resumed.objectives.count(), 1);
    assert_eq!(resumed.objectives.get(0).input.bytes, request.bytes);
    assert_eq!(resumed.corpus.count(), corpus);
    assert!(resumed.in_flight.is_none());
    // the same crash again is an exact duplicate
    let again = resumed.offer_seed(request.bytes.clone());
    assert_eq!(again.bytes, request.bytes);
    resumed.report_death(Death::Crash);
    assert_eq!(resumed.objectives.count(), 1);
}

#[test]
fn death_by_hang_discards_the_input_in_flight() {
    let mut state = seeded(13);
    let _ = state.offer_seed(b"hang".to_vec());
    let verdict = state.report_death(Death::Hang);
    assert!(!verdict.is_objective && !verdict.is_interesting);
    assert_eq!(state.objectives.count(), 0);
    assert_eq!(state.corpus.count(), 1);
    assert!(state.in_flight.is_none());
}

#[test]
fn dictionary_tokens_reach_the_mutants() {
    let mut state = seeded(21);
    state.dictionary = load_dictionary(None, &vec![b"<<TOKEN>>".to_vec()], &Vec::new());
    let mut spliced = false;
    for _ in 0..20_000 {
        let request = state.next_request().unwrap();
        spliced |= request.bytes.windows(9).any(|w| w == b"<<TOKEN>>");
        state.report(ExecResult {
            outcome: Outcome::Completed,
            observation: Observation { coverage: Some(CoverageMap::from_hits(&vec![1, 1, 0, 0, 0, 0, 0, 0])), elapsed_ms: 1 },
            comparisons: Vec::new(),
        });
        if spliced {
            break;
        }
    }
    assert!(spliced);
}

#[test]
fn resumed_campaign_continues_the_same_random_stream() {
    let mut state = seeded(33);
    assert!(state.install_dictionary(load_dictionary(None, &vec![b"tok".to_vec()], &Vec::new())));
    for _ in 0..50 {
        let request = state.next_request().unwrap();
        state.report(execute(&request));
    }
    let mut resumed = FuzzState::restore(state.snapshot()).unwrap();
    assert_eq!(
        grimoire::dictionary::tokens_to_vec(resumed.dictionary.as_ref().unwrap()),
        vec![b"tok".to_vec()]
    );
    let mut varied = false;
    let mut last = Vec::new();
    for _ in 0..300 {
        let a = state.next_request().unwrap();
        let b = resumed.next_request().unwrap();
        assert_eq!(a.bytes, b.bytes);
        assert_eq!(a.timeout_ms, b.timeout_ms);
        assert_eq!(a.record_comparisons, b.record_comparisons);
        varied |= a.bytes != last;
        last = a.bytes.clone();
        state.report(execute(&a));
        resumed.report(execute(&b));
        assert_eq!(state.corpus.count(), resumed.corpus.count());
        assert_eq!(state.cumulative, resumed.cumulative);
    }
    assert!(varied);
}

#[test]
fn corrupted_snapshot_is_not_restored() {
    let state = seeded(40);
    assert!(state.is_consistent());

    let mut wrong_handle = state.snapshot();
    wrong_handle.state.corpus.entries[0].id = 7;
    assert!(FuzzState::restore(wrong_handle).is_none());

    let mut dangling_base = state.snapshot();
    dangling_base.state.phase = StagePhase::Havoc;
    dangling_base.state.base = 1;
    assert!(FuzzState::restore(dangling_base).is_none());

    let mut lost_coverage = state.snapshot();
    lost_coverage.state.cumulative = CoverageMap::empty(MAP);
    assert!(FuzzState::restore(lost_coverage).is_none());

    let mut no_generalizer = state.snapshot();
    no_generalizer.state.phase = StagePhase::Generalizing;
    assert!(FuzzState::restore(no_generalizer).is_none());

    let mut past_the_end = state.snapshot();
    past_the_end.state.next_mutant = 1;
    assert!(FuzzState::restore(past_the_end).is_none());

    assert!(FuzzState::restore(state.snapshot()).is_some());
}

#[test]
fn queued_seeds_are_handed_out_first_and_in_order() {
    let mut state = FuzzState::new(2, MAP, 12000, 100);
    state.queue_seeds(vec![b"A".to_vec(), b"zz".to_vec(), b"A".to_vec()]);
    let first = state.next_request().unwrap();
    assert_eq!(first.bytes, b"A".to_vec());
    assert!(!first.record_comparisons);
    assert_eq!(state.in_flight.as_ref().unwrap().kind, RunKind::Seed);
    assert_eq!(state.next_seed, 1);
    assert!(state.report(execute(&first)).is_interesting);
    let second = state.next_request().unwrap();
    assert_eq!(second.bytes, b"zz".to_vec());
    assert!(state.report(execute(&second)).is_interesting);
    let third = state.next_request().unwrap();
    assert_eq!(third.bytes, b"A".to_vec());
    assert!(!state.report(execute(&third)).is_interesting);
    assert_eq!(state.corpus.count(), 2);
    // the seeds are through: the stages of the first base input begin
    let fourth = state.next_request().unwrap();
    assert_ne!(state.in_flight.as_ref().unwrap().kind, RunKind::Seed);
    assert_eq!(state.phase, StagePhase::Generalizing);
    assert_eq!(fourth.bytes, b"A".to_vec());
}

#[test]
fn seed_that_kills_the_target_is_not_offered_again() {
    let mut state = FuzzState::new(2, MAP, 12000, 100);
    state.queue_seeds(vec![b"ABcrash".to_vec(), b"A".to_vec()]);
    let request = state.next_request().unwrap();
    assert!(crashes(&request.bytes));
    let mut resumed = FuzzState::restore(state.snapshot()).unwrap();
    assert!(resumed.report_death(Death::Crash).is_objective);
    assert_eq!(resumed.objectives.count(), 1);
    assert_eq!(resumed.objectives.get(0).input.bytes, b"ABcrash".to_vec());
    assert_eq!(resumed.objectives.get(0).lineage.origin, Origin::Seed);
    assert_eq!(resumed.objectives.get(0).exec_time_ms, 0);
    assert_eq!(resumed.executions, 1);
    assert_eq!(resumed.corpus.count(), 0);
    let next = resumed.next_request().unwrap();
    assert_eq!(next.bytes, b"A".to_vec());
}

#[test]
fn stages_hand_out_what_they_owe() {
    let mut state = seeded(17);
    // generalization: the unchanged input first
    let trial = state.next_request().unwrap();
    assert_eq!((state.phase, trial.bytes.clone()), (StagePhase::Generalizing, b"A".to_vec()));
    state.report(execute(&trial));
    // run the generalization and the tracing stage down
    loop {
        let request = state.next_request().unwrap();
        let tracing = state.phase == StagePhase::Tracing;
        state.report(execute(&request));
        if tracing {
            break;
        }
    }
    assert_eq!(state.phase, StagePhase::InputToState);
    assert_eq!(state.trace_mutants.len(), 0);
    // no comparison-guided mutant: the byte-level stage draws its count and starts
    let _ = state.next_request().unwrap();
    assert_eq!(state.phase, StagePhase::Havoc);
    assert!(state.remaining < 128);
    let left = state.remaining;
    state.report(ExecResult {
        outcome: Outcome::Completed,
        observation: Observation { coverage: None, elapsed_ms: 1 },
        comparisons: Vec::new(),
    });
    if left > 0 {
        let _ = state.next_request().unwrap();
        assert_eq!(state.phase, StagePhase::Havoc);
        assert_eq!(state.remaining, left - 1);
    }
}
