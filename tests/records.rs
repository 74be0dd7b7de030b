use octopus::info::{info_text, parse_info};
use octopus::record::SVEvent;
use octopus::text::{float_text, parse_i32};
use octopus::validate::{check_line, check_vcf_format, ValidationError};

fn lines(ls: &[&str]) -> Vec<String> {
    ls.iter().map(|l| l.to_string()).collect()
}

fn chars(s: &str) -> Vec<char> {
    s.chars().collect()
}

#[test]
fn info_items_and_flags() {
    let items = parse_info("K1=v1;K2;K3=v3");
    assert_eq!(
        items,
        vec![
            ("K1".to_string(), Some("v1".to_string())),
            ("K2".to_string(), None),
            ("K3".to_string(), Some("v3".to_string())),
        ]
    );
}

#[test]
fn info_splits_at_first_equals() {
    let items = SVEvent::parse_info("A=b=c;;D=");
    assert_eq!(
        items,
        vec![
            ("A".to_string(), Some("b=c".to_string())),
            ("".to_string(), None),
            ("D".to_string(), Some("".to_string())),
        ]
    );
    assert_eq!(parse_info(""), vec![("".to_string(), None)]);
}

#[test]
fn info_round_trip() {
    for text in ["K1=v1;K2;K3=v3", "SVTYPE=BND;MATEID=bnd_2;IMPRECISE", "A=b=c;;D=", ""] {
        let items = parse_info(text);
        let written = info_text(&items);
        assert_eq!(written, text);
        assert_eq!(parse_info(&written), items);
    }
}

#[test]
fn record_from_line() {
    let e = SVEvent::from_line("chr1\t100\tbnd1\tN\tN[chr2:200[\t.\tPASS\tSVTYPE=BND;IMPRECISE\tGT\t0/1").unwrap();
    assert_eq!(e.chrom, "chr1");
    assert_eq!(e.pos, 100);
    assert_eq!(e.id, "bnd1");
    assert_eq!(e.ref_allele, "N");
    assert_eq!(e.alt, "N[chr2:200[");
    assert_eq!(e.qual, ".");
    assert_eq!(e.filter, "PASS");
    assert_eq!(e.info, vec![("SVTYPE".to_string(), Some("BND".to_string())), ("IMPRECISE".to_string(), None)]);
    assert_eq!(e.format, "GT");
    assert_eq!(e.sample, "0/1");
    assert!(e.is_bnd());
    assert!(SVEvent::from_line("chr1\t100\tx").is_none());
    assert!(SVEvent::from_line("chr1\tabc\ta\tb\tc\td\te\tf\tg\th").is_none());
}

#[test]
fn is_bnd_needs_a_bracket() {
    let e = SVEvent::new(
        "chr1".to_string(),
        5,
        "v".to_string(),
        "A".to_string(),
        "XYZ".to_string(),
        "10".to_string(),
        "PASS".to_string(),
        "DP=3".to_string(),
        "GT".to_string(),
        "0/1".to_string(),
    );
    assert!(!e.is_bnd());
    assert_eq!(e.info, vec![("DP".to_string(), Some("3".to_string()))]);
}

#[test]
fn integer_text() {
    assert_eq!(parse_i32(&chars("69650962")), Some(69650962));
    assert_eq!(parse_i32(&chars("-12")), Some(-12));
    assert_eq!(parse_i32(&chars("+7")), Some(7));
    assert_eq!(parse_i32(&chars("2147483647")), Some(2147483647));
    assert_eq!(parse_i32(&chars("-2147483648")), Some(-2147483648));
    assert_eq!(parse_i32(&chars("2147483648")), None);
    assert_eq!(parse_i32(&chars("99999999999999999999")), None);
    assert_eq!(parse_i32(&chars("")), None);
    assert_eq!(parse_i32(&chars("-")), None);
    assert_eq!(parse_i32(&chars("12a")), None);
}

#[test]
fn float_text_agrees_with_std() {
    for s in ["30", "30.5", ".5", "5.", "1e3", "1E-3", "-2.5e+10", "inf", "-Infinity", "NaN", "+nan"] {
        assert!(float_text(&chars(s)), "{}", s);
        assert!(s.parse::<f32>().is_ok(), "{}", s);
    }
    for s in ["", ".", "abc", "1e", "e5", "1.2.3", "--1", "in", "infinit", " 1"] {
        assert!(!float_text(&chars(s)), "{}", s);
        assert!(s.parse::<f32>().is_err(), "{}", s);
    }
}

#[test]
fn validation_accepts_a_good_file() {
    let ls = lines(&["##fileformat=VCFv4.2", "chr1\t100\tb\tN\tN[chr2:200[\t30.5\tPASS\tX\tGT\t0/1"]);
    assert_eq!(check_vcf_format(&ls), Ok(()));
}

#[test]
fn validation_space_fails_first() {
    let ls = lines(&["#h", "chr1 100\tb\tN\tN\t.\tPASS\tX\tGT\t0/1", "short\tline"]);
    assert_eq!(check_vcf_format(&ls), Err(ValidationError::IllegalWhitespace));
}

#[test]
fn validation_missing_header_after_scan() {
    let ls = lines(&["chr1\t100\tb\tN\tN\t.\tPASS\tX\tGT\t0/1", "chr1\t200\tb\tN\tN\t.\tPASS\tX\tGT\t0/1"]);
    assert_eq!(check_vcf_format(&ls), Err(ValidationError::MissingHeader));
    let ls = lines(&["chr1\t100\tb\tN\tN\t.\tPASS\tX\tGT\t0/1", "bad"]);
    assert_eq!(check_vcf_format(&ls), Err(ValidationError::FieldCountError(1)));
    let ls = lines(&["chr1\t100\tb\tN\tN\t.\tPASS\tX\tGT\t0/1", "#last"]);
    assert_eq!(check_vcf_format(&ls), Ok(()));
}

#[test]
fn validation_each_fault() {
    assert_eq!(check_line("a\tb\tc"), Some(ValidationError::FieldCountError(3)));
    assert_eq!(
        check_line("chr1\tx1\tb\tN\tN\t.\tPASS\tX\tGT\t0/1"),
        Some(ValidationError::NonNumericPosition("x1".to_string()))
    );
    assert_eq!(
        check_line("chr1\t1\tb\tN\tN\thigh\tPASS\tX\tGT\t0/1"),
        Some(ValidationError::NonNumericQuality("high".to_string()))
    );
    assert_eq!(check_line("chr1\t1\tb\tN\tN\t.\tPASS\tX\tGT\t0/1\r"), Some(ValidationError::IllegalWhitespace));
    assert_eq!(check_line("# any text at all"), None);
    assert_eq!(check_line("chr1\t1\tb\tN\tN\t1e3\tPASS\tX\tGT\t0/1"), None);
}
