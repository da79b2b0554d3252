use hcl::metric_parse::{metric_parse, parse_sample, MetricParseError};
use hcl::sample::{Sample, UNIT};

#[test]
fn metric_parse_test() {
    assert_eq!(1234 * UNIT, metric_parse("1.234k").unwrap());
    assert_eq!(1234000 * UNIT, metric_parse("1.234M").unwrap());
    assert_eq!(123 * UNIT, metric_parse("123").unwrap());
    assert!(metric_parse("123OLOLOL").is_err());
}

#[test]
fn metric_parse_suffixes() {
    assert_eq!(2 * 1000 * UNIT, metric_parse("2k").unwrap());
    assert_eq!(2 * 1000000 * UNIT, metric_parse("2m").unwrap());
    assert_eq!(3 * 1000000000 * UNIT, metric_parse("3g").unwrap());
    assert_eq!(1000000000000 * UNIT, metric_parse("1T").unwrap());
    assert_eq!(-1000 * UNIT, metric_parse("-1k").unwrap());
    assert_eq!(UNIT / 2, metric_parse("0.5").unwrap());
    assert_eq!(123, metric_parse("0.000123").unwrap());
}

#[test]
fn metric_parse_trims() {
    assert_eq!(7 * UNIT, metric_parse("  7 ").unwrap());
    assert_eq!(5 * UNIT, metric_parse("\t5\n").unwrap());
}

#[test]
fn metric_parse_bad_number() {
    assert_eq!(metric_parse("abc"), Err(MetricParseError::BadNumber));
    assert_eq!(metric_parse(""), Err(MetricParseError::BadNumber));
    assert_eq!(metric_parse("1.2.3"), Err(MetricParseError::BadNumber));
    assert_eq!(metric_parse("--5"), Err(MetricParseError::BadNumber));
    assert_eq!(metric_parse("."), Err(MetricParseError::BadNumber));
}

#[test]
fn metric_parse_too_large() {
    // far beyond what a micro-unit sample can hold
    assert_eq!(metric_parse("9999999999999t"), Err(MetricParseError::TooLarge));
    assert_eq!(metric_parse("99999999999999999999"), Err(MetricParseError::TooLarge));
}

#[test]
fn sample_parsing_best_effort() {
    assert_eq!(parse_sample("1"), Sample::Val(UNIT));
    assert_eq!(parse_sample(" 2.5 "), Sample::Val(2 * UNIT + UNIT / 2));
    assert_eq!(parse_sample("-1"), Sample::Val(-UNIT));
    assert_eq!(parse_sample("+3"), Sample::Val(3 * UNIT));
    assert_eq!(parse_sample("00"), Sample::Val(0));
    assert_eq!(parse_sample("1."), Sample::Val(UNIT));
    assert_eq!(parse_sample("xxx"), Sample::Missing);
    assert_eq!(parse_sample(""), Sample::Missing);
    assert_eq!(parse_sample("1k"), Sample::Missing);
    assert_eq!(parse_sample("1.2.3"), Sample::Missing);
}
