use grimoire::coverage::CoverageMap;
use grimoire::executor::{classify, tracing_timeout, Outcome, Termination, DEFAULT_TIMEOUT_MS};
use grimoire::feedback::{evaluate, Observation};

fn map(bits: &[u8]) -> CoverageMap {
    CoverageMap::from_hits(&bits.to_vec())
}

#[test]
fn new_location_is_interesting_and_is_kept() {
    let mut cumulative = CoverageMap::empty(4);
    let obs = Observation { coverage: Some(map(&[0, 3, 0, 1])), elapsed_ms: 5 };
    let verdict = evaluate(&mut cumulative, Outcome::Completed, &obs);
    assert!(verdict.is_interesting);
    assert!(!verdict.is_objective);
    assert_eq!(cumulative.bits, vec![false, true, false, true]);
    let again = evaluate(&mut cumulative, Outcome::Completed, &obs);
    assert!(!again.is_interesting);
    assert_eq!(cumulative.bits, vec![false, true, false, true]);
}

#[test]
fn crash_is_objective_and_adds_no_coverage() {
    let mut cumulative = CoverageMap::empty(2);
    let obs = Observation { coverage: Some(map(&[1, 1])), elapsed_ms: 1 };
    let verdict = evaluate(&mut cumulative, Outcome::Crashed, &obs);
    assert!(verdict.is_objective);
    assert!(!verdict.is_interesting);
    assert_eq!(cumulative.count(), 0);
}

#[test]
fn timeout_is_never_interesting() {
    let mut cumulative = CoverageMap::empty(2);
    let obs = Observation { coverage: Some(map(&[1, 1])), elapsed_ms: 1 };
    let verdict = evaluate(&mut cumulative, Outcome::TimedOut, &obs);
    assert!(!verdict.is_objective);
    assert!(!verdict.is_interesting);
    assert_eq!(cumulative.count(), 0);
}

#[test]
fn missing_or_missized_observation_is_not_interesting() {
    let mut cumulative = CoverageMap::empty(2);
    let none = Observation { coverage: None, elapsed_ms: 1 };
    assert!(!evaluate(&mut cumulative, Outcome::Completed, &none).is_interesting);
    let wide = Observation { coverage: Some(map(&[1, 1, 1])), elapsed_ms: 1 };
    assert!(!evaluate(&mut cumulative, Outcome::Completed, &wide).is_interesting);
    assert_eq!(cumulative.bits, vec![false, false]);
}

#[test]
fn timeout_boundary() {
    let timeout = DEFAULT_TIMEOUT_MS;
    assert_eq!(classify(Termination::Returned, timeout + 1, timeout), Outcome::TimedOut);
    assert_eq!(classify(Termination::Returned, timeout - 1, timeout), Outcome::Completed);
    assert_eq!(classify(Termination::Returned, timeout, timeout), Outcome::Completed);
    assert_eq!(classify(Termination::Faulted, timeout - 1, timeout), Outcome::Crashed);
    assert_eq!(classify(Termination::Faulted, timeout + 1, timeout), Outcome::TimedOut);
}

#[test]
fn tracing_gets_ten_times_the_limit() {
    assert_eq!(DEFAULT_TIMEOUT_MS, 12000);
    assert_eq!(tracing_timeout(12000), 120000);
    assert_eq!(tracing_timeout(0), 0);
    assert_eq!(tracing_timeout(u64::MAX), u64::MAX);
    assert_eq!(tracing_timeout(u64::MAX / 10), u64::MAX / 10 * 10);
}

#[test]
fn subset_and_count() {
    let a = map(&[1, 0, 0, 1]);
    let b = map(&[1, 1, 0, 1]);
    assert!(a.is_subset_of(&b));
    assert!(a.is_strict_subset_of(&b));
    assert!(!b.is_subset_of(&a));
    assert!(!a.is_strict_subset_of(&a));
    assert_eq!(a.count(), 2);
    assert_eq!(b.count(), 3);
    assert!(a.same_as(&a.duplicate()));
    assert!(!a.same_as(&b));
    assert!(b.is_set(1));
    assert!(!b.is_set(2));
    assert!(!b.is_set(9));
}
