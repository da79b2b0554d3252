//! Scales: linear maps from a numeric domain `[a, b, c]` (all in
//! micro-units) onto the display range, `[a, b]` to `[-1, 0]` and
//! `[b, c]` to `[0, 1]`, extrapolating outside the domain. Results
//! are exact rationals.

use vstd::prelude::*;
use crate::metric_parse::{metric_fits, metric_micros, metric_parse, metric_wellformed};
use crate::sample::{has_present, present_max, present_min, Sample, UNIT};
use crate::text::{contains_seq, split_seq, split_str, str_contains};

verus! {

/// An exact rational display intensity; `den` is kept positive.
#[derive(Debug, Clone, Copy, PartialEq, Eq, Structural)]
pub struct Ratio {
    pub num: i128,
    pub den: i128,
}

impl Ratio {
    /// This ratio equals the rational `n / d`.
    pub open spec fn represents(self, n: int, d: int) -> bool {
        self.den > 0 && d != 0 && self.num * d == n * self.den
    }

    /// Exact comparison with the rational `n / d`.
    pub fn eq_frac(self, n: i64, d: i64) -> (r: bool)
        requires
            0 < self.den <= 0x2_0000_0000_0000_0000,
            -0x2_0000_0000_0000_0000 <= self.num <= 0x2_0000_0000_0000_0000,
            d != 0,
            -0x1000_0000_0000_0000 <= n <= 0x1000_0000_0000_0000,
            -0x1000_0000_0000_0000 <= d <= 0x1000_0000_0000_0000,
        ensures
            r == (self.num * d == n * self.den),
    {
        proof {
            assert(self.num * (d as int) <= 0x2_0000_0000_0000_0000 * 0x1000_0000_0000_0000
                && self.num * (d as int) >= -(0x2_0000_0000_0000_0000 * 0x1000_0000_0000_0000))
                by (nonlinear_arith)
                requires
                    -0x2_0000_0000_0000_0000 <= self.num <= 0x2_0000_0000_0000_0000,
                    -0x1000_0000_0000_0000 <= d as int <= 0x1000_0000_0000_0000,
            ;
            assert((n as int) * self.den <= 0x1000_0000_0000_0000 * 0x2_0000_0000_0000_0000
                && (n as int) * self.den >= -(0x1000_0000_0000_0000 * 0x2_0000_0000_0000_0000))
                by (nonlinear_arith)
                requires
                    -0x1000_0000_0000_0000 <= n as int <= 0x1000_0000_0000_0000,
                    0 < self.den <= 0x2_0000_0000_0000_0000,
            ;
        }
        self.num * (d as i128) == (n as i128) * self.den
    }
}

/// Domain errors of scale construction and configuration parsing.
#[derive(Debug)]
pub enum ScaleError {
    /// One of the two domain intervals is empty.
    EmptyDomain(i64, i64, i64),
    /// The domain as a whole cannot be used (wrong arity, or bounds
    /// out of the representable range).
    BadDomainConfig(String),
    /// An endpoint is not a number; holds the offending text.
    NumberParse(String),
    /// An entry of a scale-set configuration has too many colons.
    BadFormat(String),
}

/// A linear two-segment scale over micro-unit samples.
#[derive(Debug, Clone, Copy)]
pub struct Scale {
    pub a: i64,
    pub b: i64,
    pub c: i64,
}

/// What `run` returns: the position of `v` within the domain, as an
/// exact rational (`-1` at `a`, `0` at `b`, `1` at `c`).
pub open spec fn run_represents(a: int, b: int, c: int, v: int, r: Ratio) -> bool {
    r.represents(
        v - b,
        if v < b {
            b - a
        } else {
            c - b
        },
    )
}

impl Scale {
    /// Both domain intervals are non-empty.
    pub open spec fn valid(&self) -> bool {
        self.a != self.b && self.b != self.c
    }

    /// The identity domain: `-1.0, 0, 1.0` in micro-units.
    pub open spec fn is_identity(&self) -> bool {
        self.a == -UNIT && self.b == 0 && self.c == UNIT
    }

    fn new(a: i64, b: i64, c: i64) -> (r: Result<Scale, ScaleError>)
        ensures
            match r {
                Ok(s) => a != b && b != c && s == (Scale { a, b, c }),
                Err(e) => (a == b || b == c) && (e matches ScaleError::EmptyDomain(x, y, z) && x
                    == a && y == b && z == c),
            },
    {
        if a == b || b == c {
            return Err(ScaleError::EmptyDomain(a, b, c));
        }
        Ok(Scale { a, b, c })
    }

    /// Maps `[a, b]` onto `[0, 1]` by extending the domain downwards.
    fn new_positive(a: i64, b: i64) -> (r: Result<Scale, ScaleError>)
        ensures
            match r {
                Ok(s) => a != b && in_i64(2 * a - b) && s == (Scale { a: (2 * a - b) as i64, b: a, c: b }),
                Err(ScaleError::EmptyDomain(x, y, z)) => a == b && in_i64(2 * a - b) && x == a && y
                    == a && z == b,
                Err(ScaleError::BadDomainConfig(_)) => !in_i64(2 * a - b),
                Err(_) => false,
            },
    {
        let wide: i128 = 2 * (a as i128) - (b as i128);
        if wide < -0x8000_0000_0000_0000i128 || wide > 0x7fff_ffff_ffff_ffffi128 {
            return Err(ScaleError::BadDomainConfig("scale bounds out of range".to_owned()));
        }
        Scale::new(wide as i64, a, b)
    }

    /// Maps `[a, b]` onto `[-1, 0]` by extending the domain upwards.
    fn new_negative(a: i64, b: i64) -> (r: Result<Scale, ScaleError>)
        ensures
            match r {
                Ok(s) => a != b && in_i64(2 * b - a) && s == (Scale { a, b, c: (2 * b - a) as i64 }),
                Err(ScaleError::EmptyDomain(x, y, z)) => a == b && in_i64(2 * b - a) && x == a && y
                    == b && z == (2 * b - a) as i64,
                Err(ScaleError::BadDomainConfig(_)) => !in_i64(2 * b - a),
                Err(_) => false,
            },
    {
        let wide: i128 = 2 * (b as i128) - (a as i128);
        if wide < -0x8000_0000_0000_0000i128 || wide > 0x7fff_ffff_ffff_ffffi128 {
            return Err(ScaleError::BadDomainConfig("scale bounds out of range".to_owned()));
        }
        Scale::new(a, b, wide as i64)
    }

    /// Builds a scale for observed bounds: a straddling range keeps
    /// zero as the pivot; a one-sided range maps onto one segment
    /// only; a degenerate all-zero range yields the identity scale.
    pub fn from_min_max(mn: i64, mx: i64) -> (r: Result<Scale, ScaleError>)
        ensures
            match r {
                Ok(s) => mn <= mx && {
                    &&& (mn < 0 && mx > 0) ==> s == (Scale { a: mn, b: 0, c: mx })
                    &&& (mn < 0 && mx <= 0) ==> mn > -0x8000_0000_0000_0000 && s == (Scale {
                        a: mn,
                        b: 0,
                        c: (-mn) as i64,
                    })
                    &&& (mn >= 0 && mx > 0) ==> s == (Scale { a: (-mx) as i64, b: 0, c: mx })
                    &&& (mn >= 0 && mx <= 0) ==> s.is_identity()
                },
                Err(ScaleError::BadDomainConfig(_)) => mn > mx || (mn == -0x8000_0000_0000_0000
                    && mx <= 0),
                Err(_) => false,
            },
    {
        if mn > mx {
            return Err(ScaleError::BadDomainConfig("inverted bounds".to_owned()));
        }
        if mn < 0 && mx > 0 {
            return Scale::new(mn, 0, mx);
        }
        if mn < 0 {
            return Scale::new_negative(mn, 0);
        }
        if mx > 0 {
            return Scale::new_positive(0, mx);
        }
        Scale::new(-UNIT, 0, UNIT)
    }

    /// A sensible scale for the data seen: the identity scale when no
    /// present value exists (or the one unrepresentable corner is
    /// hit), otherwise built from the observed min and max.
    pub fn auto(v: &Vec<Sample>) -> (r: Scale)
        ensures
            r.valid(),
            !has_present(v@) ==> r.is_identity(),
            has_present(v@) ==> {
                let mn = present_min(v@);
                let mx = present_max(v@);
                &&& (mn < 0 && mx > 0) ==> r == (Scale { a: mn as i64, b: 0, c: mx as i64 })
                &&& (mn < 0 && mx <= 0 && mn > -0x8000_0000_0000_0000) ==> r == (Scale {
                    a: mn as i64,
                    b: 0,
                    c: (-mn) as i64,
                })
                &&& (mn == -0x8000_0000_0000_0000 && mx <= 0) ==> r.is_identity()
                &&& (mn >= 0 && mx > 0) ==> r == (Scale { a: (-mx) as i64, b: 0, c: mx as i64 })
                &&& (mn >= 0 && mx <= 0) ==> r.is_identity()
            },
    {
        proof {
            if has_present(v@) {
                crate::sample::lemma_present_min_max(v@);
            }
        }
        match min_max(v) {
            None => Scale { a: -UNIT, b: 0, c: UNIT },
            Some((mn, mx)) => match Scale::from_min_max(mn, mx) {
                Ok(s) => s,
                Err(_) => Scale { a: -UNIT, b: 0, c: UNIT },
            },
        }
    }

    /// Position of `v` in the domain, as an exact rational.
    pub fn run(&self, v: i64) -> (r: Ratio)
        requires
            self.valid(),
        ensures
            run_represents(self.a as int, self.b as int, self.c as int, v as int, r),
            0 < r.den <= 0x2_0000_0000_0000_0000,
            -0x2_0000_0000_0000_0000 <= r.num <= 0x2_0000_0000_0000_0000,
    {
        let mut num: i128 = (v as i128) - (self.b as i128);
        let mut den: i128 = if v < self.b {
            (self.b as i128) - (self.a as i128)
        } else {
            (self.c as i128) - (self.b as i128)
        };
        if den < 0 {
            proof {
                assert((-num) * (den as int) == num * (-(den as int))) by (nonlinear_arith);
            }
            num = -num;
            den = -den;
        }
        Ratio { num, den }
    }

    pub fn to_tuple(&self) -> (r: (i64, i64, i64))
        ensures
            r.0 == self.a && r.1 == self.b && r.2 == self.c,
    {
        (self.a, self.b, self.c)
    }
}

pub open spec fn in_i64(x: int) -> bool {
    -0x8000_0000_0000_0000 <= x <= 0x7fff_ffff_ffff_ffff
}

impl Default for Scale {
    fn default() -> (s: Scale)
        ensures
            s.is_identity(),
            s.valid(),
    {
        Scale { a: -UNIT, b: 0, c: UNIT }
    }
}

/// Observed bounds over the present samples, `None` when every sample
/// is missing.
pub fn min_max(v: &Vec<Sample>) -> (r: Option<(i64, i64)>)
    ensures
        match r {
            None => !has_present(v@),
            Some(p) => has_present(v@) && p.0 == present_min(v@) && p.1 == present_max(v@),
        },
{
    let mut acc: Option<(i64, i64)> = None;
    let mut i: usize = 0;
    while i < v.len()
        invariant
            i <= v@.len(),
            match acc {
                None => !has_present(v@.take(i as int)),
                Some(p) => has_present(v@.take(i as int)) && p.0 == present_min(v@.take(i as int))
                    && p.1 == present_max(v@.take(i as int)),
            },
        decreases v@.len() - i,
    {
        let s = v[i];
        proof {
            assert(v@.take(i + 1 as int).drop_last() =~= v@.take(i as int));
            assert(v@.take(i + 1 as int).last() == v@[i as int]);
            assert forall|k: int| 0 <= k < i implies v@.take(i + 1 as int)[k] == v@.take(i as int)[k]
                by {}
            assert(has_present(v@.take(i as int)) ==> has_present(v@.take(i + 1 as int)));
        }
        match s {
            Sample::Missing => {
                proof {
                    assert(has_present(v@.take(i + 1 as int)) == has_present(v@.take(i as int)))
                        by {
                        if has_present(v@.take(i + 1 as int)) {
                            let w = choose|w: int|
                                #![trigger v@.take(i + 1 as int)[w]]
                                0 <= w < v@.take(i + 1 as int).len() && v@.take(i + 1 as int)[w]
                                    .is_present();
                            if w < i {
                                assert(v@.take(i as int)[w].is_present());
                            }
                        }
                    }
                }
            },
            Sample::Val(x) => {
                proof {
                    assert(v@.take(i + 1 as int)[i as int].is_present());
                }
                acc = match acc {
                    None => Some((x, x)),
                    Some(p) => Some(
                        (
                            if x < p.0 {
                                x
                            } else {
                                p.0
                            },
                            if x > p.1 {
                                x
                            } else {
                                p.1
                            },
                        ),
                    ),
                };
            },
        }
        i += 1;
    }
    proof {
        assert(v@.take(v@.len() as int) =~= v@);
    }
    acc
}

/// An ordered list of `(pattern, scale)` pairs; the first pattern
/// occurring in a title decides its scale.
#[derive(Debug)]
pub struct Scales {
    pub scales: Vec<(String, Scale)>,
}

/// The scale of the first entry whose pattern occurs in the title.
pub open spec fn pick_spec(ms: Seq<(Seq<char>, Scale)>, title: Seq<char>) -> Option<Scale>
    decreases ms.len(),
{
    if ms.len() == 0 {
        None
    } else if contains_seq(title, ms[0].0) {
        Some(ms[0].1)
    } else {
        pick_spec(ms.drop_first(), title)
    }
}

pub open spec fn scales_model(v: Seq<(String, Scale)>) -> Seq<(Seq<char>, Scale)> {
    v.map_values(|p: (String, Scale)| (p.0@, p.1))
}

impl Scales {
    /// Finds the first entry whose pattern is a substring of `title`.
    #[verifier::loop_isolation(false)]
    pub fn pick(&self, title: &str) -> (r: Option<Scale>)
        ensures
            r == pick_spec(scales_model(self.scales@), title@),
    {
        let ghost ms = scales_model(self.scales@);
        proof {
            assert(ms.skip(0) =~= ms);
        }
        let mut i: usize = 0;
        while i < self.scales.len()
            invariant
                i <= self.scales@.len(),
                pick_spec(ms, title@) == pick_spec(ms.skip(i as int), title@),
            decreases self.scales@.len() - i,
        {
            proof {
                assert(ms.skip(i as int).drop_first() =~= ms.skip(i + 1 as int));
                assert(ms.skip(i as int)[0] == ms[i as int]);
            }
            if str_contains(title, self.scales[i].0.as_str()) {
                return Some(self.scales[i].1);
            }
            i += 1;
        }
        proof {
            assert(ms.skip(ms.len() as int).len() == 0);
        }
        None
    }

    pub fn with_scales(scales: Vec<(String, Scale)>) -> (r: Scales)
        ensures
            r.scales == scales,
    {
        Scales { scales }
    }
}

/// The domain pieces of a scale-configuration string: the text
/// between the `..` separators.
pub open spec fn cfg_parts(s: Seq<char>) -> Seq<Seq<char>> {
    split_seq(s, seq!['.', '.'])
}

pub open spec fn part_ok(p: Seq<char>) -> bool {
    metric_wellformed(p) && metric_fits(p)
}

pub open spec fn parts_ok(parts: Seq<Seq<char>>) -> bool {
    forall|i: int| 0 <= i < parts.len() ==> part_ok(#[trigger] parts[i])
}

/// Index of the first piece that is not a number, or the count.
pub open spec fn first_bad(parts: Seq<Seq<char>>) -> int
    decreases parts.len(),
{
    if parts.len() == 0 {
        0
    } else if !part_ok(parts[0]) {
        0
    } else {
        1 + first_bad(parts.drop_first())
    }
}

proof fn lemma_first_bad(parts: Seq<Seq<char>>)
    ensures
        0 <= first_bad(parts) <= parts.len(),
        first_bad(parts) < parts.len() ==> !part_ok(parts[first_bad(parts)]),
        forall|k: int| 0 <= k < first_bad(parts) ==> part_ok(#[trigger] parts[k]),
        first_bad(parts) == parts.len() ==> parts_ok(parts),
    decreases parts.len(),
{
    if parts.len() > 0 && part_ok(parts[0]) {
        lemma_first_bad(parts.drop_first());
        assert forall|k: int| 0 <= k < first_bad(parts) implies part_ok(#[trigger] parts[k]) by {
            if k > 0 {
                assert(parts.drop_first()[k - 1] == parts[k]);
            }
        }
        if first_bad(parts) == parts.len() {
            assert forall|k: int| 0 <= k < parts.len() implies part_ok(#[trigger] parts[k]) by {
                if k > 0 {
                    assert(parts.drop_first()[k - 1] == parts[k]);
                }
            }
        }
    }
}

/// Whether a domain string parses into a scale: every piece is a
/// number and the resulting domain is non-degenerate and in range.
pub open spec fn config_parses(cfg: Seq<char>) -> bool {
    let parts = cfg_parts(cfg);
    parts_ok(parts) && {
        if parts.len() == 1 {
            metric_micros(parts[0]) != 0
        } else if parts.len() == 2 {
            metric_micros(parts[0]) != metric_micros(parts[1]) && in_i64(
                2 * metric_micros(parts[0]) - metric_micros(parts[1]),
            )
        } else if parts.len() == 3 {
            metric_micros(parts[0]) != metric_micros(parts[1]) && metric_micros(parts[1])
                != metric_micros(parts[2])
        } else {
            false
        }
    }
}

/// The scale a parsing domain string denotes.
pub open spec fn config_scale_val(cfg: Seq<char>) -> Scale {
    let parts = cfg_parts(cfg);
    if parts.len() == 1 {
        let v = metric_micros(parts[0]);
        Scale { a: (-v) as i64, b: 0, c: v as i64 }
    } else if parts.len() == 2 {
        let v0 = metric_micros(parts[0]);
        let v1 = metric_micros(parts[1]);
        Scale { a: (2 * v0 - v1) as i64, b: v0 as i64, c: v1 as i64 }
    } else {
        let v0 = metric_micros(parts[0]);
        let v1 = metric_micros(parts[1]);
        let v2 = metric_micros(parts[2]);
        Scale { a: v0 as i64, b: v1 as i64, c: v2 as i64 }
    }
}

/// Which error a non-parsing domain string produces.
pub open spec fn config_err_matches(cfg: Seq<char>, e: ScaleError) -> bool {
    let parts = cfg_parts(cfg);
    match e {
        ScaleError::NumberParse(p) => !parts_ok(parts) && p@ == parts[first_bad(parts)],
        ScaleError::BadDomainConfig(_) => parts_ok(parts) && (parts.len() > 3 || (parts.len() == 2
            && !in_i64(2 * metric_micros(parts[0]) - metric_micros(parts[1])))),
        ScaleError::EmptyDomain(_, _, _) => parts_ok(parts) && {
            if parts.len() == 1 {
                metric_micros(parts[0]) == 0
            } else if parts.len() == 2 {
                metric_micros(parts[0]) == metric_micros(parts[1]) && in_i64(
                    2 * metric_micros(parts[0]) - metric_micros(parts[1]),
                )
            } else if parts.len() == 3 {
                metric_micros(parts[0]) == metric_micros(parts[1]) || metric_micros(parts[1])
                    == metric_micros(parts[2])
            } else {
                false
            }
        },
        ScaleError::BadFormat(_) => false,
    }
}

impl Scale {
    /// Parses a domain string `C`, `A..C` or `A..B..C` whose
    /// endpoints may carry metric suffixes: one value maps `[0, C]`
    /// onto `[0, 1]`, two map `[A, C]` onto `[0, 1]`, three give the
    /// domain explicitly.
    #[verifier::rlimit(30)]
    #[verifier::loop_isolation(false)]
    pub fn from_config(config: &str) -> (r: Result<Scale, ScaleError>)
        ensures
            match r {
                Ok(s) => config_parses(config@) && s == config_scale_val(config@),
                Err(e) => !config_parses(config@) && config_err_matches(config@, e),
            },
    {
        proof {
            reveal_strlit("..");
            assert(".."@ =~= seq!['.', '.']);
        }
        let pieces = split_str(config, "..");
        let ghost parts = cfg_parts(config@);
        proof {
            assert(pieces@.map_values(|t: String| t@) == parts);
            lemma_first_bad(parts);
        }
        let mut vals: Vec<i64> = Vec::new();
        let mut i: usize = 0;
        while i < pieces.len()
            invariant
                i <= pieces@.len(),
                parts == pieces@.map_values(|t: String| t@),
                vals@.len() == i,
                forall|k: int| 0 <= k < i ==> part_ok(#[trigger] parts[k]),
                forall|k: int| 0 <= k < i ==> vals@[k] == metric_micros(#[trigger] parts[k]),
            decreases pieces@.len() - i,
        {
            proof {
                assert(parts[i as int] == pieces@[i as int]@);
            }
            match metric_parse(pieces[i].as_str()) {
                Ok(v) => {
                    vals.push(v);
                },
                Err(_) => {
                    proof {
                        assert(parts[i as int] == pieces@[i as int]@);
                        assert(!part_ok(parts[i as int]));
                        lemma_first_bad(parts);
                        assert(first_bad(parts) == i);
                        assert(!parts_ok(parts));
                    }
                    let p = pieces[i].clone();
                    proof {
                        assert(p@ == parts[first_bad(parts)]);
                    }
                    return Err(ScaleError::NumberParse(p));
                },
            }
            i += 1;
        }
        proof {
            lemma_first_bad(parts);
            assert(parts_ok(parts));
        }
        if vals.len() == 1 {
            Scale::new_positive(0, vals[0])
        } else if vals.len() == 2 {
            Scale::new_positive(vals[0], vals[1])
        } else if vals.len() == 3 {
            Scale::new(vals[0], vals[1], vals[2])
        } else {
            Err(ScaleError::BadDomainConfig(config.to_owned()))
        }
    }
}

/// The scale maps the domain endpoints onto the range endpoints: the
/// pivot to zero, the lower bound to minus one, the upper to one.
pub proof fn lemma_scale_endpoints(a: int, b: int, c: int, ra: Ratio, rb: Ratio, rc: Ratio)
    requires
        a < b < c,
        run_represents(a, b, c, a, ra),
        run_represents(a, b, c, b, rb),
        run_represents(a, b, c, c, rc),
    ensures
        ra.num == -ra.den,
        rb.num == 0,
        rc.num == rc.den,
{
    assert(ra.num * (b - a) == (a - b) * ra.den);
    assert(ra.num == -ra.den) by (nonlinear_arith)
        requires
            ra.num * (b - a) == (a - b) * ra.den,
            b - a > 0,
    ;
    assert(rb.num * (c - b) == 0);
    assert(rb.num == 0) by (nonlinear_arith)
        requires
            rb.num * (c - b) == 0,
            c - b > 0,
    ;
    assert(rc.num * (c - b) == (c - b) * rc.den);
    assert(rc.num == rc.den) by (nonlinear_arith)
        requires
            rc.num * (c - b) == (c - b) * rc.den,
            c - b > 0,
    ;
}

/// On the lower segment the map is affine: the difference of two
/// results, as a rational, is the difference of the inputs divided by
/// the segment width.
pub proof fn lemma_scale_affine_low(
    a: int,
    b: int,
    c: int,
    v1: int,
    v2: int,
    r1: Ratio,
    r2: Ratio,
)
    requires
        a != b,
        v1 < b,
        v2 < b,
        run_represents(a, b, c, v1, r1),
        run_represents(a, b, c, v2, r2),
    ensures
        (r2.num * r1.den - r1.num * r2.den) * (b - a) == (v2 - v1) * (r1.den * r2.den),
{
    assert((r2.num * r1.den - r1.num * r2.den) * (b - a) == (v2 - v1) * (r1.den * r2.den))
        by (nonlinear_arith)
        requires
            r1.num * (b - a) == (v1 - b) * r1.den,
            r2.num * (b - a) == (v2 - b) * r2.den,
    ;
}

/// On the upper segment the map is affine in the same sense, over the
/// width of the upper interval.
pub proof fn lemma_scale_affine_high(
    a: int,
    b: int,
    c: int,
    v1: int,
    v2: int,
    r1: Ratio,
    r2: Ratio,
)
    requires
        b != c,
        v1 >= b,
        v2 >= b,
        run_represents(a, b, c, v1, r1),
        run_represents(a, b, c, v2, r2),
    ensures
        (r2.num * r1.den - r1.num * r2.den) * (c - b) == (v2 - v1) * (r1.den * r2.den),
{
    assert((r2.num * r1.den - r1.num * r2.den) * (c - b) == (v2 - v1) * (r1.den * r2.den))
        by (nonlinear_arith)
        requires
            r1.num * (c - b) == (v1 - b) * r1.den,
            r2.num * (c - b) == (v2 - b) * r2.den,
    ;
}

} // verus!
