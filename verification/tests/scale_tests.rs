use hcl::sample::{Sample, UNIT};
use hcl::scale::{min_max, Scale};

#[test]
fn scale_default() {
    assert!(Scale::default().run(UNIT).eq_frac(1, 1));
}

#[test]
fn scale_failures() {
    // a degenerate interval on either side is rejected
    assert!(Scale::from_config("0..0..1").is_err());
    assert!(Scale::from_config("1..1").is_err());
    assert!(Scale::from_config("10..10").is_err());
}

#[test]
fn run0() {
    let s = Scale::from_config("-10..0..10").unwrap();
    assert!(s.run(0).eq_frac(0, 1));
    assert!(s.run(-UNIT).eq_frac(-1, 10));
    assert!(s.run(2 * UNIT).eq_frac(1, 5));
    assert!(s.run(20 * UNIT).eq_frac(2, 1));
}

#[test]
fn scale_auto() {
    let s = Scale::auto(&vec![Sample::Val(-10 * UNIT), Sample::Val(20 * UNIT)]);
    assert_eq!(s.to_tuple(), (-10 * UNIT, 0, 20 * UNIT));

    let s = Scale::auto(&vec![Sample::Val(0)]);
    assert_eq!(s.to_tuple(), (-UNIT, 0, UNIT));

    let s = Scale::auto(&vec![]);
    assert_eq!(s.to_tuple(), (-UNIT, 0, UNIT));

    // a missing sample stands where the input was not finite
    let s = Scale::auto(&vec![Sample::Val(-10 * UNIT), Sample::Val(20 * UNIT), Sample::Missing]);
    assert_eq!(s.to_tuple(), (-10 * UNIT, 0, 20 * UNIT));
}

#[test]
fn scale_auto_one_sided() {
    let s = Scale::auto(&vec![Sample::Val(-4 * UNIT), Sample::Val(-2 * UNIT)]);
    assert_eq!(s.to_tuple(), (-4 * UNIT, 0, 4 * UNIT));
    let s = Scale::auto(&vec![Sample::Val(2 * UNIT), Sample::Val(8 * UNIT)]);
    assert_eq!(s.to_tuple(), (-8 * UNIT, 0, 8 * UNIT));
}

#[test]
fn parse_one_scale_and_run() {
    // maps [0; 10k] onto [0; 1]
    let scale10k = Scale::from_config("10k").unwrap();
    assert_eq!(scale10k.to_tuple(), (-10000 * UNIT, 0, 10000 * UNIT));
    assert!(scale10k.run(-5000 * UNIT).eq_frac(-1, 2));
    assert!(scale10k.run(25000 * UNIT).eq_frac(5, 2));

    // maps [-1k; 1k] onto [0; 1]
    let scale1k = Scale::from_config("-1k..1k").unwrap();
    assert_eq!(scale1k.to_tuple(), (-3000 * UNIT, -1000 * UNIT, 1000 * UNIT));
    assert!(scale1k.run(-5000 * UNIT).eq_frac(-2, 1));
    assert!(scale1k.run(0).eq_frac(1, 2));

    // maps [-1m; 0] onto [-1; 0] and [0; 1m] onto [0; 1]
    let scale1m = Scale::from_config("-1m..0..1m").unwrap();
    assert_eq!(scale1m.to_tuple(), (-1000000 * UNIT, 0, 1000000 * UNIT));
    assert!(scale1m.run(-200000 * UNIT).eq_frac(-1, 5));
    assert!(scale1m.run(1000000 * UNIT).eq_frac(1, 1));

    // maps [95; 100] onto [-1; 0] and [100; 105] onto [0; 1]
    let scale100 = Scale::from_config("95..100..105").unwrap();
    assert_eq!(scale100.to_tuple(), (95 * UNIT, 100 * UNIT, 105 * UNIT));
    assert!(scale100.run(101 * UNIT).eq_frac(1, 5));
    assert!(scale100.run(96 * UNIT).eq_frac(-4, 5));
}

#[test]
fn min_max_test() {
    let t = min_max(&vec![Sample::Val(0), Sample::Val(UNIT), Sample::Val(2 * UNIT)]);
    assert_eq!(t, Some((0, 2 * UNIT)));

    let t = min_max(&vec![Sample::Val(0)]);
    assert_eq!(t, Some((0, 0)));

    assert_eq!(min_max(&vec![]), None);
    assert_eq!(min_max(&vec![Sample::Missing]), None);
    assert_eq!(min_max(&vec![Sample::Missing, Sample::Missing]), None);

    let t = min_max(&vec![Sample::Val(0), Sample::Missing]);
    assert_eq!(t, Some((0, 0)));
}

#[test]
fn scale_endpoints_hit_range_ends() {
    // the law in numbers: run(a) = -1, run(b) = 0, run(c) = 1
    let s = Scale::from_config("95..100..105").unwrap();
    assert!(s.run(95 * UNIT).eq_frac(-1, 1));
    assert!(s.run(100 * UNIT).eq_frac(0, 1));
    assert!(s.run(105 * UNIT).eq_frac(1, 1));
}
