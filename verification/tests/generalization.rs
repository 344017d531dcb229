use grimoire::coverage::CoverageMap;
use grimoire::executor::Outcome;
use grimoire::feedback::Observation;
use grimoire::generalize::{window_at, Generalizer};
use grimoire::input::{concretize, Segment};

// Location 0 is always hit, location 1 when the input holds "KEY", location 2 when
// it ends in '!'.
fn coverage_of(bytes: &[u8]) -> CoverageMap {
    let has_key = bytes.windows(3).any(|w| w == b"KEY");
    let bang = bytes.last() == Some(&b'!');
    CoverageMap::from_hits(&vec![1, has_key as u8, bang as u8])
}

fn run(generalizer: &mut Generalizer) -> usize {
    let mut trials = 0;
    while let Some(candidate) = generalizer.next_trial() {
        trials += 1;
        let observation = Observation { coverage: Some(coverage_of(&candidate)), elapsed_ms: 1 };
        generalizer.observe(Outcome::Completed, &observation);
        assert!(trials < 100_000);
    }
    trials
}

#[test]
fn dispensable_bytes_become_gaps() {
    let input = b"xxKEYyyyy!".to_vec();
    let mut generalizer = Generalizer::start(&input, coverage_of(&input), 1000);
    run(&mut generalizer);
    let form = generalizer.finish().unwrap();
    assert_eq!(
        form,
        vec![
            Segment::Gap,
            Segment::Fixed(b"KEY".to_vec()),
            Segment::Gap,
            Segment::Fixed(b"!".to_vec()),
            Segment::Gap
        ]
    );
    let bytes = concretize(&form);
    assert_eq!(bytes, b"KEY!".to_vec());
    assert!(coverage_of(&input).is_subset_of(&coverage_of(&bytes)));
}

#[test]
fn first_proposal_is_the_unchanged_input() {
    let input = b"abc".to_vec();
    let mut generalizer = Generalizer::start(&input, coverage_of(&input), 10);
    assert_eq!(generalizer.next_trial(), Some(input.clone()));
    // asked again without an answer, the proposal is repeated
    assert_eq!(generalizer.next_trial(), Some(input.clone()));
}

#[test]
fn input_that_does_not_reproduce_is_abandoned() {
    let input = b"KEY".to_vec();
    let mut generalizer = Generalizer::start(&input, coverage_of(&input), 10);
    assert!(generalizer.next_trial().is_some());
    let unstable = Observation { coverage: Some(CoverageMap::from_hits(&vec![1, 0, 0])), elapsed_ms: 1 };
    generalizer.observe(Outcome::Completed, &unstable);
    assert!(generalizer.abandoned);
    assert_eq!(generalizer.next_trial(), None);
    assert_eq!(generalizer.finish(), None);
}

#[test]
fn crash_timeout_or_silence_reverts_the_proposal() {
    let input = b"ab".to_vec();
    let required = CoverageMap::from_hits(&vec![1, 0, 0]);
    for (outcome, coverage) in [
        (Outcome::Crashed, Some(coverage_of(b"ab"))),
        (Outcome::TimedOut, Some(coverage_of(b"ab"))),
        (Outcome::Completed, None),
    ] {
        let mut generalizer = Generalizer::start(&input, required.clone(), 100);
        assert!(generalizer.next_trial().is_some());
        generalizer.observe(Outcome::Completed, &Observation { coverage: Some(coverage_of(b"ab")), elapsed_ms: 1 });
        assert!(generalizer.verified);
        let proposal = generalizer.next_trial().unwrap();
        assert_eq!(proposal, Vec::<u8>::new());
        generalizer.observe(outcome, &Observation { coverage, elapsed_ms: 1 });
        assert_eq!(generalizer.mask, vec![Some(b'a'), Some(b'b')]);
    }
}

#[test]
fn attempts_are_bounded() {
    let input = vec![b'z'; 600];
    let mut generalizer = Generalizer::start(&input, coverage_of(&input), 2);
    // the verification run plus two proposals; the third window is never tried
    assert_eq!(run(&mut generalizer), 3);
    assert_eq!(
        generalizer.finish(),
        Some(vec![Segment::Gap, Segment::Fixed(vec![b'z'; 88]), Segment::Gap])
    );
    let mut unbounded = Generalizer::start(&input, coverage_of(&input), 1000);
    assert_eq!(run(&mut unbounded), 4);
    assert_eq!(unbounded.finish(), Some(vec![Segment::Gap]));
}

#[test]
fn oversized_input_is_not_generalized() {
    let input = vec![1u8; 8193];
    let mut generalizer = Generalizer::start(&input, CoverageMap::empty(3), 10);
    assert!(generalizer.abandoned);
    assert_eq!(generalizer.next_trial(), None);
    assert_eq!(generalizer.finish(), None);
    let fits = vec![1u8; 8192];
    assert!(!Generalizer::start(&fits, CoverageMap::empty(3), 10).abandoned);
}

#[test]
fn windows_shrink_from_256_to_1() {
    let sizes: Vec<usize> = (0..5).map(window_at).collect();
    assert_eq!(sizes, vec![256, 128, 64, 32, 1]);
}

#[test]
fn observation_without_a_pending_proposal_changes_nothing() {
    let input = b"abc".to_vec();
    let mut generalizer = Generalizer::start(&input, coverage_of(&input), 10);
    generalizer.observe(Outcome::Completed, &Observation { coverage: None, elapsed_ms: 0 });
    assert!(!generalizer.abandoned && !generalizer.verified);
    assert_eq!(generalizer.mask.len(), 3);
}
