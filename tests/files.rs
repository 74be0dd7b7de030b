use octopus::classify::PairRelation;
use octopus::grammar::BreakendGrammar;
use octopus::validate::ValidationError;
use octopus::vcf::{analyze, find_mate_bnd_and_no_mate_events, get_bucket, is_same_chr_bnd, parse_vcf, Bucket};

fn lines(ls: &[&str]) -> Vec<String> {
    ls.iter().map(|l| l.to_string()).collect()
}

#[test]
fn reciprocal_pair_end_to_end() {
    let ls = lines(&[
        "#CHROM\tPOS\tID\tREF\tALT\tQUAL\tFILTER\tINFO\tFORMAT\tSAMPLE",
        "chr1\t100\tbnd1\tN\tN[chr2:200[\t.\tPASS\tSVTYPE=BND;MATEID=bnd2\tGT\t0/1",
        "chr2\t200\tbnd2\tN\tN[chr1:100[\t.\tPASS\tSVTYPE=BND;MATEID=bnd1\tGT\t0/1",
    ]);
    let a = analyze(&ls, 0).unwrap();
    assert_eq!(a.vcf.headers.len(), 1);
    assert_eq!(a.vcf.records.len(), 2);
    assert_eq!(a.vcf.diff_chr_bnd, vec![0, 1]);
    assert!(a.vcf.same_chr_bnd.is_empty());
    assert!(a.vcf.non_bnd.is_empty());
    assert!(a.unmatched.is_empty());
    assert_eq!(a.pairs.len(), 1);
    assert_eq!(a.pairs[0].first, 0);
    assert_eq!(a.pairs[0].second, 1);
    assert_eq!(a.pairs[0].relation, PairRelation::ReciprocalTranslocation);
}

#[test]
fn non_breakend_end_to_end() {
    let ls = lines(&["#header", "chr1\t100\tv1\tA\tXYZ\t50\tPASS\tDP=10\tGT\t0/1"]);
    let a = analyze(&ls, 10).unwrap();
    assert_eq!(a.vcf.headers, vec!["#header".to_string()]);
    assert_eq!(a.vcf.non_bnd, vec![0]);
    assert!(a.vcf.same_chr_bnd.is_empty());
    assert!(a.vcf.diff_chr_bnd.is_empty());
    assert!(a.pairs.is_empty());
    assert!(a.unmatched.is_empty());
}

#[test]
fn buckets_of_breakends() {
    let ls = lines(&[
        "#h",
        "chr1\t100\ta\tN\tN]chr1:500]\t.\tPASS\tX\tGT\t0/1",
        "chr1\t100\tb\tN\tN[chr2[\t.\tPASS\tX\tGT\t0/1",
        "chr3\t7\tc\tG\t]chr4:9]G\t.\tPASS\tX\tGT\t0/1",
        "chr3\t8\td\tG\tGT\t.\tPASS\tX\tGT\t0/1",
    ]);
    let g = BreakendGrammar::new();
    let p = parse_vcf(&g, &ls).unwrap();
    assert_eq!(p.same_chr_bnd, vec![0]);
    assert_eq!(p.diff_chr_bnd, vec![1, 2]);
    assert_eq!(p.non_bnd, vec![3]);
    assert_eq!(get_bucket(&g, &p.records[1]), Bucket::CrossChromosomeBreakend);
    assert!(is_same_chr_bnd(&g, &p.records[0]));
    assert!(!is_same_chr_bnd(&g, &p.records[2]));
    // The malformed breakend takes no part in pairing.
    let (pairs, rest) = find_mate_bnd_and_no_mate_events(&g, &p.records, 0);
    assert!(pairs.is_empty());
    assert_eq!(rest, vec![0, 2]);
}

#[test]
fn pairs_within_tolerance_and_classified() {
    let ls = lines(&[
        "#h",
        "chr1\t100\ta\tN\t]chr2:203]N\t.\tPASS\tX\tGT\t0/1",
        "chr2\t200\tb\tN\tN[chr1:98[\t.\tPASS\tX\tGT\t0/1",
    ]);
    let a = analyze(&ls, 3).unwrap();
    assert_eq!(a.pairs.len(), 1);
    assert_eq!(a.pairs[0].relation, PairRelation::DuplicateReportOfSameEvent);
    let a = analyze(&ls, 2).unwrap();
    assert!(a.pairs.is_empty());
    assert_eq!(a.unmatched, vec![0, 1]);
}

#[test]
fn analysis_reports_validation_errors() {
    let ls = lines(&["chr1\t100\tv1\tA\tXYZ\t50\tPASS\tDP=10\tGT\t0/1"]);
    assert_eq!(analyze(&ls, 0).err(), Some(ValidationError::MissingHeader));
    let ls = lines(&["#h", "chr1\t100\tv1\tA\tXYZ\tbad\tPASS\tDP=10\tGT\t0/1"]);
    assert_eq!(analyze(&ls, 0).err(), Some(ValidationError::NonNumericQuality("bad".to_string())));
}
