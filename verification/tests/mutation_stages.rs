use grimoire::corpus::{Corpus, Lineage, Origin};
use grimoire::coverage::CoverageMap;
use grimoire::dictionary::load_dictionary;
use grimoire::grimoire::{
    apply_structural, delete_element, donor_at, extend_form, is_gap_bounded, replace_element,
    replace_token, slot_at, structural_mutant, StructuralOp,
};
use grimoire::havoc::{apply_operator, havoc_mutant, operator_at, stack_depth, HavocOp};
use grimoire::input::{concretize, Input, Segment};
use grimoire::input_to_state::{find_first, mutant_for, splice, trace_mutants, Comparison};
use libafl::mutators::Tokens;
use libafl_bolts::rands::StdRand;

fn fixed(text: &str) -> Segment {
    Segment::Fixed(text.as_bytes().to_vec())
}

fn differing_positions(a: &[u8], b: &[u8]) -> Vec<usize> {
    assert_eq!(a.len(), b.len());
    (0..a.len()).filter(|&i| a[i] != b[i]).collect()
}

fn is_insertion(before: &[u8], after: &[u8]) -> bool {
    if after.len() < before.len() {
        return false;
    }
    let grown = after.len() - before.len();
    (0..=before.len()).any(|at| after[..at] == before[..at] && after[at + grown..] == before[at..])
}

#[test]
fn bit_flip_inverts_one_bit() {
    let base = b"abcdefgh".to_vec();
    for seed in 0..50u64 {
        let mut rng = StdRand::with_seed(seed);
        let out = apply_operator(HavocOp::BitFlip, &mut rng, base.clone(), &Tokens::new());
        let diff = differing_positions(&base, &out);
        assert_eq!(diff.len(), 1);
        assert_eq!((base[diff[0]] ^ out[diff[0]]).count_ones(), 1);
    }
    let mut rng = StdRand::with_seed(1);
    assert_eq!(apply_operator(HavocOp::BitFlip, &mut rng, Vec::new(), &Tokens::new()), Vec::<u8>::new());
}

#[test]
fn byte_flip_inverts_one_byte() {
    let base = vec![0u8, 1, 2, 0xf0];
    for seed in 0..50u64 {
        let mut rng = StdRand::with_seed(seed);
        let out = apply_operator(HavocOp::ByteFlip, &mut rng, base.clone(), &Tokens::new());
        let diff = differing_positions(&base, &out);
        assert_eq!(diff.len(), 1);
        assert_eq!(out[diff[0]], base[diff[0]] ^ 0xff);
    }
}

#[test]
fn increment_and_decrement_wrap() {
    for seed in 0..20u64 {
        let mut rng = StdRand::with_seed(seed);
        assert_eq!(apply_operator(HavocOp::Increment, &mut rng, vec![255], &Tokens::new()), vec![0]);
        assert_eq!(apply_operator(HavocOp::Decrement, &mut rng, vec![0], &Tokens::new()), vec![255]);
        let up = apply_operator(HavocOp::Increment, &mut rng, vec![10, 20, 30], &Tokens::new());
        let diff = differing_positions(&[10, 20, 30], &up);
        assert_eq!(diff.len(), 1);
        assert_eq!(up[diff[0]], [10u8, 20, 30][diff[0]] + 1);
        let down = apply_operator(HavocOp::Decrement, &mut rng, vec![10, 20, 30], &Tokens::new());
        let diff = differing_positions(&[10, 20, 30], &down);
        assert_eq!(diff.len(), 1);
        assert_eq!(down[diff[0]], [10u8, 20, 30][diff[0]] - 1);
    }
}

#[test]
fn interesting_value_overwrites_one_byte() {
    let values = [128u8, 255, 0, 1, 16, 32, 64, 100, 127];
    let base = vec![7u8; 6];
    for seed in 0..50u64 {
        let mut rng = StdRand::with_seed(seed);
        let out = apply_operator(HavocOp::Interesting, &mut rng, base.clone(), &Tokens::new());
        let diff = differing_positions(&base, &out);
        assert_eq!(diff.len(), 1);
        assert!(values.contains(&out[diff[0]]));
    }
}

#[test]
fn block_delete_removes_a_range_and_keeps_a_byte() {
    let base = b"0123456789".to_vec();
    for seed in 0..50u64 {
        let mut rng = StdRand::with_seed(seed);
        let out = apply_operator(HavocOp::BlockDelete, &mut rng, base.clone(), &Tokens::new());
        assert!(!out.is_empty() && out.len() < base.len());
        assert!(is_insertion(&out, &base));
    }
    let mut rng = StdRand::with_seed(3);
    assert_eq!(apply_operator(HavocOp::BlockDelete, &mut rng, vec![1, 2], &Tokens::new()), vec![1, 2]);
}

#[test]
fn block_duplicate_inserts_a_copy_of_an_own_block() {
    let base = b"abcdefgh".to_vec();
    for seed in 0..50u64 {
        let mut rng = StdRand::with_seed(seed);
        let out = apply_operator(HavocOp::BlockDuplicate, &mut rng, base.clone(), &Tokens::new());
        let grown = out.len() - base.len();
        assert!((1..=16).contains(&grown));
        assert!(is_insertion(&base, &out));
        let at = (0..=base.len())
            .find(|&at| out[..at] == base[..at] && out[at + grown..] == base[at..])
            .unwrap();
        let block = &out[at..at + grown];
        assert!(base.windows(grown).any(|w| w == block));
    }
    let mut rng = StdRand::with_seed(3);
    assert_eq!(apply_operator(HavocOp::BlockDuplicate, &mut rng, vec![1], &Tokens::new()), vec![1]);
}

#[test]
fn block_insert_adds_a_run_of_one_value() {
    let base = b"xy".to_vec();
    for seed in 0..50u64 {
        let mut rng = StdRand::with_seed(seed);
        let out = apply_operator(HavocOp::BlockInsert, &mut rng, base.clone(), &Tokens::new());
        let grown = out.len() - base.len();
        assert!((1..=16).contains(&grown));
        assert!(is_insertion(&base, &out));
    }
    let mut rng = StdRand::with_seed(5);
    let from_nothing = apply_operator(HavocOp::BlockInsert, &mut rng, Vec::new(), &Tokens::new());
    assert!((1..=16).contains(&from_nothing.len()));
    assert!(from_nothing.iter().all(|b| *b == from_nothing[0]));
}

#[test]
fn token_splice_inserts_a_dictionary_token() {
    let dictionary = load_dictionary(None, &vec![b"<tag>".to_vec()], &Vec::new()).unwrap();
    let base = b"ab".to_vec();
    for seed in 0..20u64 {
        let mut rng = StdRand::with_seed(seed);
        let out = apply_operator(HavocOp::TokenSplice, &mut rng, base.clone(), &dictionary);
        assert_eq!(out.len(), 7);
        assert!(out.windows(5).any(|w| w == b"<tag>"));
        assert!(is_insertion(&base, &out));
    }
    let mut rng = StdRand::with_seed(5);
    assert_eq!(apply_operator(HavocOp::TokenSplice, &mut rng, base.clone(), &Tokens::new()), base);
}

#[test]
fn operators_respect_the_size_limit() {
    let full = vec![1u8; 1048576];
    let dictionary = load_dictionary(None, &vec![b"tok".to_vec()], &Vec::new()).unwrap();
    for op in [HavocOp::BlockDuplicate, HavocOp::BlockInsert, HavocOp::TokenSplice] {
        let mut rng = StdRand::with_seed(11);
        assert_eq!(apply_operator(op, &mut rng, full.clone(), &dictionary), full);
    }
    let near = vec![1u8; 1048572];
    for seed in 0..20u64 {
        let mut rng = StdRand::with_seed(seed);
        assert!(apply_operator(HavocOp::BlockInsert, &mut rng, near.clone(), &dictionary).len() <= 1048576);
    }
    // what was too long for a smaller limit still grows
    let mut rng = StdRand::with_seed(3);
    let long = vec![1u8; 16384];
    assert!(apply_operator(HavocOp::BlockInsert, &mut rng, long.clone(), &dictionary).len() > long.len());
}

#[test]
fn registered_operators_and_stack_depths() {
    assert_eq!(operator_at(0), HavocOp::BitFlip);
    assert_eq!(operator_at(5), HavocOp::BlockDelete);
    assert_eq!(operator_at(8), HavocOp::TokenSplice);
    assert_eq!(stack_depth(0), 2);
    assert_eq!(stack_depth(1), 4);
    assert_eq!(stack_depth(2), 8);
    assert_eq!(stack_depth(15), 65536);
    assert_eq!(slot_at(0), StructuralOp::Extension);
    assert_eq!(slot_at(1), StructuralOp::RecursiveReplacement);
    assert_eq!(slot_at(2), StructuralOp::StringReplacement);
    assert_eq!(slot_at(3), StructuralOp::RandomDelete);
    assert_eq!(slot_at(4), StructuralOp::RandomDelete);
}

#[test]
fn havoc_mutants_vary_and_stay_bounded() {
    let base = b"The quick brown fox".to_vec();
    let mut rng = StdRand::with_seed(42);
    let mut changed = 0;
    for _ in 0..200 {
        let mutant = havoc_mutant(&mut rng, &base, &Tokens::new());
        assert!(mutant.len() <= base.len() + 4 * 16);
        if mutant != base {
            changed += 1;
        }
    }
    assert!(changed > 150);
}

#[test]
fn same_seed_gives_same_mutants() {
    let base = b"determinism".to_vec();
    let mut a = StdRand::with_seed(7);
    let mut b = StdRand::with_seed(7);
    for _ in 0..50 {
        assert_eq!(havoc_mutant(&mut a, &base, &Tokens::new()), havoc_mutant(&mut b, &base, &Tokens::new()));
    }
}

#[test]
fn first_occurrence_is_found() {
    assert_eq!(find_first(&b"abcabc".to_vec(), &b"bc".to_vec()), Some(1));
    assert_eq!(find_first(&b"abcabc".to_vec(), &b"abcabc".to_vec()), Some(0));
    assert_eq!(find_first(&b"abcabc".to_vec(), &b"cab".to_vec()), Some(2));
    assert_eq!(find_first(&b"abc".to_vec(), &b"abcd".to_vec()), None);
    assert_eq!(find_first(&b"abc".to_vec(), &b"x".to_vec()), None);
    assert_eq!(find_first(&b"abc".to_vec(), &Vec::new()), None);
    assert_eq!(find_first(&Vec::new(), &b"a".to_vec()), None);
}

#[test]
fn splice_replaces_a_region() {
    assert_eq!(splice(&b"hello world".to_vec(), 6, 5, &b"there!".to_vec()), b"hello there!".to_vec());
    assert_eq!(splice(&b"abc".to_vec(), 0, 0, &b"x".to_vec()), b"xabc".to_vec());
    assert_eq!(splice(&b"abc".to_vec(), 3, 0, &b"x".to_vec()), b"abcx".to_vec());
    assert_eq!(splice(&b"abc".to_vec(), 1, 2, &Vec::new()), b"a".to_vec());
}

#[test]
fn comparison_suggests_its_right_operand() {
    let input = b"magic=AAAA;len=4".to_vec();
    let comparison = Comparison { lhs: b"AAAA".to_vec(), rhs: b"\x7fELF".to_vec() };
    assert_eq!(mutant_for(&input, &comparison), Some(b"magic=\x7fELF;len=4".to_vec()));
    let absent = Comparison { lhs: b"BBBB".to_vec(), rhs: b"x".to_vec() };
    assert_eq!(mutant_for(&input, &absent), None);
    let longer = Comparison { lhs: b"4".to_vec(), rhs: b"1024".to_vec() };
    assert_eq!(mutant_for(&input, &longer), Some(b"magic=AAAA;len=1024".to_vec()));
}

#[test]
fn one_mutant_per_matching_comparison_up_to_the_cap() {
    let input = b"abc".to_vec();
    let trace = vec![
        Comparison { lhs: b"a".to_vec(), rhs: b"X".to_vec() },
        Comparison { lhs: b"z".to_vec(), rhs: b"Y".to_vec() },
        Comparison { lhs: b"bc".to_vec(), rhs: b"Z".to_vec() },
        Comparison { lhs: b"c".to_vec(), rhs: b"!".to_vec() },
    ];
    assert_eq!(
        trace_mutants(&input, &trace, 128),
        vec![b"Xbc".to_vec(), b"aZ".to_vec(), b"ab!".to_vec()]
    );
    assert_eq!(trace_mutants(&input, &trace, 3), vec![b"Xbc".to_vec(), b"aZ".to_vec()]);
    assert_eq!(trace_mutants(&input, &trace, 0), Vec::<Vec<u8>>::new());
    assert_eq!(trace_mutants(&input, &Vec::new(), 128), Vec::<Vec<u8>>::new());
}

#[test]
fn extension_merges_the_adjoining_gaps() {
    let form = vec![Segment::Gap, fixed("a"), Segment::Gap];
    let donor = vec![Segment::Gap, fixed("b"), Segment::Gap, fixed("c"), Segment::Gap];
    let out = extend_form(&form, &donor);
    assert_eq!(
        out,
        vec![Segment::Gap, fixed("a"), Segment::Gap, fixed("b"), Segment::Gap, fixed("c"), Segment::Gap]
    );
    assert_eq!(concretize(&out), b"abc".to_vec());
    assert_eq!(extend_form(&form, &vec![Segment::Gap]), form);
}

#[test]
fn element_is_replaced_by_a_donor_form() {
    let form = vec![Segment::Gap, fixed("<"), Segment::Gap, fixed(">"), Segment::Gap];
    let donor = vec![Segment::Gap, fixed("b"), Segment::Gap];
    // a gap makes room for the donor
    assert_eq!(
        replace_element(&form, 2, &donor),
        vec![Segment::Gap, fixed("<"), Segment::Gap, fixed("b"), Segment::Gap, fixed(">"), Segment::Gap]
    );
    // a fixed chunk gives way to the donor
    assert_eq!(
        replace_element(&form, 1, &donor),
        vec![Segment::Gap, Segment::Gap, fixed("b"), Segment::Gap, Segment::Gap, fixed(">"), Segment::Gap]
    );
    assert_eq!(concretize(&replace_element(&form, 1, &donor)), b"b>".to_vec());
    assert_eq!(concretize(&replace_element(&form, 0, &donor)), b"b<>".to_vec());
    assert_eq!(concretize(&replace_element(&form, 4, &donor)), b"<>b".to_vec());
    assert_eq!(replace_element(&form, 4, &donor), extend_form(&form, &donor));
}

#[test]
fn delete_removes_one_inner_element() {
    let form = vec![Segment::Gap, fixed("a"), Segment::Gap, fixed("b"), Segment::Gap];
    assert_eq!(
        delete_element(&form, 1),
        vec![Segment::Gap, Segment::Gap, fixed("b"), Segment::Gap]
    );
    assert_eq!(
        delete_element(&form, 2),
        vec![Segment::Gap, fixed("a"), fixed("b"), Segment::Gap]
    );
    assert_eq!(concretize(&delete_element(&form, 3)), b"a".to_vec());
    assert!(is_gap_bounded(&delete_element(&form, 3)));
    assert!(is_gap_bounded(&form));
    assert!(!is_gap_bounded(&vec![fixed("a"), Segment::Gap]));
    assert!(!is_gap_bounded(&Vec::new()));
}

#[test]
fn token_is_replaced_in_the_first_chunk_that_holds_it() {
    let form = vec![Segment::Gap, fixed("int x"), Segment::Gap, fixed("int y; int z"), Segment::Gap];
    assert_eq!(
        replace_token(&form, &b"int".to_vec(), &b"long".to_vec()),
        vec![Segment::Gap, fixed("long x"), Segment::Gap, fixed("int y; int z"), Segment::Gap]
    );
    assert_eq!(
        replace_token(&form, &b"y;".to_vec(), &b"".to_vec()),
        vec![Segment::Gap, fixed("int x"), Segment::Gap, fixed("int  int z"), Segment::Gap]
    );
    assert_eq!(replace_token(&form, &b"float".to_vec(), &b"long".to_vec()), form);
}

fn donors() -> Corpus {
    let mut corpus = Corpus::new();
    let lineage = Lineage { origin: Origin::Seed, parent: None };
    corpus.add(
        Input::from_segments(vec![Segment::Gap, fixed("foo"), Segment::Gap, fixed("bar"), Segment::Gap]),
        CoverageMap::empty(1),
        1,
        lineage,
    );
    corpus.add(Input::from_bytes(b"plain".to_vec()), CoverageMap::empty(1), 1, lineage);
    corpus
}

#[test]
fn structural_operators_keep_the_form_bounded_by_gaps() {
    let corpus = donors();
    let dictionary = load_dictionary(None, &vec![b"foo".to_vec(), b"qux".to_vec()], &Vec::new()).unwrap();
    let base = vec![Segment::Gap, fixed("foo"), Segment::Gap, fixed("baz"), Segment::Gap];
    let mut rng = StdRand::with_seed(9);
    let mut changed = 0;
    for _ in 0..300 {
        let mutant = structural_mutant(&mut rng, &base, &corpus, &dictionary);
        assert!(is_gap_bounded(&mutant));
        if mutant != base {
            changed += 1;
        }
    }
    assert!(changed > 100);
}

#[test]
fn each_structural_operator_does_its_own_thing() {
    let corpus = donors();
    let dictionary = load_dictionary(None, &vec![b"foo".to_vec()], &Vec::new()).unwrap();
    let base = vec![Segment::Gap, fixed("foo"), Segment::Gap];
    let mut grew = false;
    let mut shrank = false;
    for seed in 0..100u64 {
        let mut rng = StdRand::with_seed(seed);
        let extended = apply_structural(StructuralOp::Extension, &mut rng, base.clone(), &corpus, &dictionary);
        assert!(extended == base || concretize(&extended) == b"foofoobar".to_vec());
        grew |= extended != base;
        let deleted = apply_structural(StructuralOp::RandomDelete, &mut rng, base.clone(), &corpus, &dictionary);
        assert_eq!(deleted, vec![Segment::Gap, Segment::Gap]);
        shrank |= deleted != base;
        let kept = apply_structural(StructuralOp::RandomDelete, &mut rng, vec![Segment::Gap, Segment::Gap], &corpus, &dictionary);
        assert_eq!(kept, vec![Segment::Gap, Segment::Gap]);
        let replaced = apply_structural(StructuralOp::StringReplacement, &mut rng, base.clone(), &corpus, &dictionary);
        assert_eq!(replaced, base);
        let filled = apply_structural(StructuralOp::RecursiveReplacement, &mut rng, base.clone(), &corpus, &dictionary);
        assert!(
            filled == base
                || concretize(&filled) == b"foobarfoo".to_vec()
                || concretize(&filled) == b"foobar".to_vec()
                || concretize(&filled) == b"foofoobar".to_vec()
        );
    }
    assert!(grew && shrank);
}

#[test]
fn only_entries_with_a_bounded_form_are_donors() {
    let mut corpus = donors();
    let lineage = Lineage { origin: Origin::Seed, parent: None };
    corpus.add(
        Input { bytes: b"x".to_vec(), generalized: Some(vec![fixed("x"), Segment::Gap]) },
        CoverageMap::empty(1),
        1,
        lineage,
    );
    assert_eq!(
        donor_at(&corpus, 0),
        Some(&vec![Segment::Gap, fixed("foo"), Segment::Gap, fixed("bar"), Segment::Gap])
    );
    assert_eq!(donor_at(&corpus, 1), None);
    assert_eq!(donor_at(&corpus, 2), None);
}

#[test]
fn operators_without_material_leave_the_form_alone() {
    let empty = Corpus::new();
    let base = vec![Segment::Gap, fixed("foo"), Segment::Gap];
    for seed in 0..20u64 {
        let mut rng = StdRand::with_seed(seed);
        for op in [StructuralOp::Extension, StructuralOp::RecursiveReplacement, StructuralOp::StringReplacement] {
            assert_eq!(apply_structural(op, &mut rng, base.clone(), &empty, &Tokens::new()), base);
        }
        let deleted = apply_structural(StructuralOp::RandomDelete, &mut rng, base.clone(), &empty, &Tokens::new());
        assert_eq!(deleted.len() + 1, base.len());
    }
}

#[test]
fn every_entry_a_donor_means_extension_always_extends() {
    let mut corpus = Corpus::new();
    let lineage = Lineage { origin: Origin::Seed, parent: None };
    corpus.add(Input::from_segments(vec![Segment::Gap, fixed("ab"), Segment::Gap]), CoverageMap::empty(1), 1, lineage);
    corpus.add(Input::from_segments(vec![Segment::Gap, fixed("cd"), Segment::Gap]), CoverageMap::empty(1), 1, lineage);
    let base = vec![Segment::Gap, fixed("x"), Segment::Gap];
    let mut seen = Vec::new();
    for seed in 0..40u64 {
        let mut rng = StdRand::with_seed(seed);
        let out = concretize(&apply_structural(StructuralOp::Extension, &mut rng, base.clone(), &corpus, &Tokens::new()));
        assert!(out == b"xab".to_vec() || out == b"xcd".to_vec());
        if !seen.contains(&out) {
            seen.push(out);
        }
    }
    assert_eq!(seen.len(), 2);
}
