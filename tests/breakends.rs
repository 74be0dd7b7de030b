use octopus::classify::{
    classify_pair, compare_chromosomes, is_independent_bnd_event, is_mate_pair_reciprocal_translocation,
    is_same_bnd_event, PairRelation,
};
use octopus::grammar::BreakendPattern::{
    BaseThenCloseBracket, BaseThenOpenBracket, CloseBracketThenBase, OpenBracketThenBase, Unrecognized,
};
use octopus::grammar::{get_bnd_pattern, BreakendGrammar, BreakendPattern};
use octopus::matcher::{best_candidate, match_keys, MatchKey};

fn key(chrom: &str, pos: i32, mate_chrom: &str, mate_pos: i32) -> MatchKey {
    MatchKey { chrom: chrom.to_string(), pos, mate_chrom: mate_chrom.to_string(), mate_pos }
}

#[test]
fn pattern_of_each_form() {
    assert_eq!(get_bnd_pattern("N]chr10:69650962]"), BreakendPattern::BaseThenCloseBracket);
    assert_eq!(get_bnd_pattern("G[chr2:200["), BreakendPattern::BaseThenOpenBracket);
    assert_eq!(get_bnd_pattern("[chr2:200[T"), BreakendPattern::OpenBracketThenBase);
    assert_eq!(get_bnd_pattern("]chr2:200]A"), BreakendPattern::CloseBracketThenBase);
}

#[test]
fn pattern_unrecognized_shapes() {
    assert_eq!(get_bnd_pattern("XYZ"), BreakendPattern::Unrecognized);
    assert_eq!(get_bnd_pattern("X[chr2:200["), BreakendPattern::Unrecognized);
    assert_eq!(get_bnd_pattern("N"), BreakendPattern::Unrecognized);
    assert_eq!(get_bnd_pattern(""), BreakendPattern::Unrecognized);
}

#[test]
fn locus_of_well_formed_notation() {
    let g = BreakendGrammar::new();
    let l = g.get_alt_chrom_pos("N]chr10:69650962]").unwrap();
    assert_eq!(l.chrom, "chr10");
    assert_eq!(l.pos, 69650962);
    let l = g.get_alt_chrom_pos("]chr2:321682]T").unwrap();
    assert_eq!(l.chrom, "chr2");
    assert_eq!(l.pos, 321682);
}

#[test]
fn locus_of_malformed_notation() {
    let g = BreakendGrammar::new();
    // Three pieces: "N", "chr2", "".
    assert!(g.get_alt_chrom_pos("N[chr2[").is_none());
    assert_eq!(get_bnd_pattern("N[chr2["), BreakendPattern::BaseThenOpenBracket);
    assert!(g.get_alt_chrom_pos("XYZ").is_none());
    assert!(g.get_alt_chrom_pos("N]chr10:abc]").is_none());
    assert!(g.get_alt_chrom_pos("N]chr10:1:2]").is_none());
}

#[test]
fn reciprocal_table_either_order() {
    let pairs = [
        (CloseBracketThenBase, CloseBracketThenBase),
        (BaseThenOpenBracket, BaseThenOpenBracket),
        (BaseThenCloseBracket, OpenBracketThenBase),
    ];
    for (a, b) in pairs {
        assert_eq!(classify_pair(a, b), PairRelation::ReciprocalTranslocation);
        assert_eq!(classify_pair(b, a), PairRelation::ReciprocalTranslocation);
        assert!(is_mate_pair_reciprocal_translocation(a, b));
        assert!(is_mate_pair_reciprocal_translocation(b, a));
    }
}

#[test]
fn duplicate_and_independent_tables() {
    assert_eq!(classify_pair(CloseBracketThenBase, BaseThenOpenBracket), PairRelation::DuplicateReportOfSameEvent);
    assert_eq!(classify_pair(BaseThenOpenBracket, CloseBracketThenBase), PairRelation::DuplicateReportOfSameEvent);
    assert!(is_same_bnd_event(BaseThenOpenBracket, CloseBracketThenBase));
    assert!(!is_same_bnd_event(BaseThenOpenBracket, BaseThenOpenBracket));
    let independent = [
        (BaseThenCloseBracket, CloseBracketThenBase),
        (BaseThenCloseBracket, BaseThenCloseBracket),
        (OpenBracketThenBase, OpenBracketThenBase),
        (BaseThenOpenBracket, BaseThenCloseBracket),
        (BaseThenOpenBracket, OpenBracketThenBase),
        (CloseBracketThenBase, OpenBracketThenBase),
    ];
    for (a, b) in independent {
        assert_eq!(classify_pair(a, b), PairRelation::IndependentEvents);
        assert_eq!(classify_pair(b, a), PairRelation::IndependentEvents);
        assert!(is_independent_bnd_event(b, a));
    }
}

#[test]
fn unrecognized_is_unclassified() {
    assert_eq!(classify_pair(Unrecognized, BaseThenOpenBracket), PairRelation::Unclassified);
    assert_eq!(classify_pair(CloseBracketThenBase, Unrecognized), PairRelation::Unclassified);
    assert_eq!(classify_pair(Unrecognized, Unrecognized), PairRelation::Unclassified);
}

#[test]
fn chromosome_order() {
    assert!(compare_chromosomes("chr1", "chr2"));
    assert!(!compare_chromosomes("chr2", "chr1"));
    assert!(compare_chromosomes("chr1", "chr1"));
    assert!(compare_chromosomes("chr1", "chr10"));
    assert!(!compare_chromosomes("chr10", "chr1"));
    assert!(compare_chromosomes("", "chrX"));
}

#[test]
fn matcher_pairs_exact_reciprocal_keys() {
    let keys = vec![Some(key("chrA", 100, "chrB", 200)), Some(key("chrB", 200, "chrA", 100))];
    let (pairs, rest) = match_keys(&keys, 0);
    assert_eq!(pairs, vec![(0, 1)]);
    assert!(rest.is_empty());
}

#[test]
fn matcher_pairs_at_tolerance_only() {
    let keys = vec![Some(key("chrA", 100, "chrB", 200)), Some(key("chrB", 205, "chrA", 100))];
    let (pairs, rest) = match_keys(&keys, 5);
    assert_eq!(pairs, vec![(0, 1)]);
    assert!(rest.is_empty());
    let keys = vec![Some(key("chrA", 100, "chrB", 200)), Some(key("chrB", 206, "chrA", 100))];
    let (pairs, rest) = match_keys(&keys, 5);
    assert!(pairs.is_empty());
    assert_eq!(rest, vec![0, 1]);
    let keys = vec![Some(key("chrA", 100, "chrB", 200)), Some(key("chrB", 200, "chrA", 94))];
    let (pairs, rest) = match_keys(&keys, 5);
    assert!(pairs.is_empty());
    assert_eq!(rest, vec![0, 1]);
}

#[test]
fn matcher_skips_records_without_key() {
    let keys = vec![Some(key("chrA", 100, "chrB", 200)), None, Some(key("chrB", 200, "chrA", 100)), None];
    let (pairs, rest) = match_keys(&keys, 0);
    assert_eq!(pairs, vec![(0, 2)]);
    assert!(rest.is_empty());
}

#[test]
fn matcher_prefers_nearest_candidate() {
    let keys = vec![
        Some(key("chrA", 103, "chrB", 200)),
        Some(key("chrA", 101, "chrB", 200)),
        Some(key("chrB", 200, "chrA", 100)),
    ];
    let (pairs, rest) = match_keys(&keys, 5);
    assert_eq!(pairs, vec![(1, 2)]);
    assert_eq!(rest, vec![0]);
}

#[test]
fn best_candidate_earliest_on_tie() {
    let keys = vec![
        Some(key("chrA", 102, "chrB", 200)),
        Some(key("chrA", 98, "chrB", 200)),
        Some(key("chrC", 100, "chrB", 200)),
    ];
    let current = key("chrB", 200, "chrA", 100);
    assert_eq!(best_candidate(&keys, &vec![0, 1, 2], &current, 5), Some(0));
    assert_eq!(best_candidate(&keys, &vec![1, 2], &current, 5), Some(0));
    assert_eq!(best_candidate(&keys, &vec![2], &current, 5), None);
}

#[test]
fn matcher_unmatched_keeps_input_order() {
    let keys = vec![
        Some(key("chr1", 10, "chr2", 20)),
        Some(key("chr3", 30, "chr4", 40)),
        Some(key("chr2", 20, "chr1", 10)),
        Some(key("chr5", 50, "chr6", 60)),
    ];
    let (pairs, rest) = match_keys(&keys, 0);
    assert_eq!(pairs, vec![(0, 2)]);
    assert_eq!(rest, vec![1, 3]);
}
