use hcl::sample::{Sample, UNIT};
use hcl::scale::ScaleError;
use hcl::scale_config::ScalesConfig;
use hcl::series::Series;

fn samples(vs: &[i64]) -> Vec<Sample> {
    let mut r = Vec::new();
    for v in vs {
        r.push(Sample::Val(*v * UNIT));
    }
    r
}

#[test]
fn parse_default() {
    assert_eq!(ScalesConfig::new("1..2..3,x:2..3..4").unwrap().entries.len(), 2);
}

#[test]
fn parse_failures() {
    assert!(matches!(ScalesConfig::new("1..2..qq"), Err(ScaleError::NumberParse(_))));
    assert!(matches!(ScalesConfig::new("1..2..3..4"), Err(ScaleError::BadDomainConfig(_))));
    assert!(matches!(ScalesConfig::new("xyz"), Err(ScaleError::NumberParse(_))));
}

#[test]
fn parse_bad_format() {
    assert!(matches!(ScalesConfig::new("a:1..2..3:zzz"), Err(ScaleError::BadFormat(_))));
}

#[test]
fn parse_empty_domain() {
    assert!(matches!(ScalesConfig::new("cpu:0"), Err(ScaleError::EmptyDomain(_, _, _))));
}

#[test]
fn parse_scales_and_run() {
    let scales = ScalesConfig::new("-100..0..100,x:-100..0..1000,z:500,w:-200..200").unwrap();
    let scales = scales.materialize(&vec![]);
    assert!(scales.pick("x").unwrap().run(10 * UNIT).eq_frac(1, 100));
    assert!(scales.pick("y").unwrap().run(10 * UNIT).eq_frac(1, 10));
    assert!(scales.pick("y").unwrap().run(-10 * UNIT).eq_frac(-1, 10));
    assert!(scales.pick("z").unwrap().run(250 * UNIT).eq_frac(1, 2));
    assert!(scales.pick("z").unwrap().run(-250 * UNIT).eq_frac(-1, 2));
    assert!(scales.pick("w").unwrap().run(-100 * UNIT).eq_frac(1, 4));
    assert!(scales.pick("w").unwrap().run(-300 * UNIT).eq_frac(-1, 4));
}

#[test]
fn materialized() {
    let s = vec![
        Series { title: "cpu1".to_owned(), values: samples(&[0, 10, 11, 9]) },
        Series { title: "cpu2".to_owned(), values: samples(&[0, 100, 11, 99]) },
        Series { title: "ram_free_mb".to_owned(), values: samples(&[1111, 999, 888, 99]) },
    ];
    let scales = ScalesConfig::new("cpu:auto").unwrap();
    let scales = scales.materialize(&s);
    // both cpu series share one autoscale group

    let cpu_scale = scales.pick("cpu1").unwrap();
    assert_eq!(cpu_scale.to_tuple(), (-100 * UNIT, 0, 100 * UNIT));
    let cpu_scale = scales.pick("cpu2").unwrap();
    assert_eq!(cpu_scale.to_tuple(), (-100 * UNIT, 0, 100 * UNIT));
    // no entry matches the ram series at all
    assert!(scales.pick("ram_free_mb").is_none());
}

#[test]
fn wildcard_is_last() {
    // the catch-all is placed last whatever its input position
    let scales = ScalesConfig::new("10,cpu:100").unwrap();
    let m = scales.materialize(&vec![]);
    // cpu matches its own entry, not the catch-all
    assert_eq!(m.pick("cpu3").unwrap().to_tuple(), (-100 * UNIT, 0, 100 * UNIT));
    // everything else falls through to the catch-all
    assert_eq!(m.pick("other").unwrap().to_tuple(), (-10 * UNIT, 0, 10 * UNIT));
}
