use grimoire::input::{
    bytes_equal, concretize, copy_bytes, full_mask, nul_terminated, segments_from_mask, Input,
    Segment,
};

fn fixed(text: &str) -> Segment {
    Segment::Fixed(text.as_bytes().to_vec())
}

#[test]
fn concretize_drops_gaps_and_joins_chunks() {
    let form = vec![Segment::Gap, fixed("GET "), Segment::Gap, fixed("/x"), Segment::Gap];
    assert_eq!(concretize(&form), b"GET /x".to_vec());
    assert_eq!(concretize(&vec![Segment::Gap]), Vec::<u8>::new());
    assert_eq!(concretize(&Vec::new()), Vec::<u8>::new());
}

#[test]
fn mask_becomes_alternating_form() {
    let mask = vec![Some(b'a'), Some(b'b'), None, None, Some(b'c'), None];
    let form = segments_from_mask(&mask);
    assert_eq!(form, vec![Segment::Gap, fixed("ab"), Segment::Gap, fixed("c"), Segment::Gap]);
    assert_eq!(concretize(&form), b"abc".to_vec());
}

#[test]
fn mask_without_gaps_is_bounded_by_gaps() {
    let form = segments_from_mask(&full_mask(&b"xyz".to_vec()));
    assert_eq!(form, vec![Segment::Gap, fixed("xyz"), Segment::Gap]);
}

#[test]
fn empty_and_all_dropped_masks_are_one_gap() {
    assert_eq!(segments_from_mask(&Vec::new()), vec![Segment::Gap]);
    assert_eq!(segments_from_mask(&vec![None, None, None]), vec![Segment::Gap]);
}

#[test]
fn leading_dropped_bytes_merge_with_opening_gap() {
    let form = segments_from_mask(&vec![None, Some(1), Some(2)]);
    assert_eq!(form, vec![Segment::Gap, Segment::Fixed(vec![1, 2]), Segment::Gap]);
}

#[test]
fn input_from_segments_carries_bytes_and_form() {
    let form = vec![Segment::Gap, fixed("ab"), Segment::Gap, fixed("cd"), Segment::Gap];
    let input = Input::from_segments(form.clone());
    assert_eq!(input.bytes, b"abcd".to_vec());
    assert_eq!(input.generalized, Some(form));
    assert_eq!(input.len(), 4);
    assert_eq!(input.duplicate(), input);
    let raw = Input::from_bytes(vec![9, 8]);
    assert_eq!(raw.generalized, None);
    assert_eq!(raw.bytes, vec![9, 8]);
}

#[test]
fn replayed_test_case_ends_in_zero() {
    assert_eq!(nul_terminated(b"abc".to_vec()), b"abc\0".to_vec());
    assert_eq!(nul_terminated(b"abc\0".to_vec()), b"abc\0".to_vec());
    assert_eq!(nul_terminated(vec![0]), vec![0]);
    assert_eq!(nul_terminated(vec![7]), vec![7, 0]);
}

#[test]
fn byte_helpers() {
    let a = b"hello".to_vec();
    assert_eq!(copy_bytes(&a), a);
    assert!(bytes_equal(&a, &b"hello".to_vec()));
    assert!(!bytes_equal(&a, &b"hellp".to_vec()));
    assert!(!bytes_equal(&a, &b"hell".to_vec()));
}
