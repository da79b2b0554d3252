//! Parsing of numeric text into micro-unit samples: plain decimal
//! numbers for data cells (best effort, `Missing` on failure) and
//! numbers with a metric suffix (`k`/`m`/`g`/`t`, case-insensitive)
//! for scale configuration.

use vstd::prelude::*;
use crate::sample::Sample;
use crate::text::{
    first_match,
    lemma_first_match,
    lemma_first_match_is,
    lemma_first_match_none,
    trim_seq,
    trim_str,
};

verus! {

pub open spec fn is_digit(c: char) -> bool {
    48 <= c as int && c as int <= 57
}

pub open spec fn digit_val(c: char) -> int {
    c as int - 48
}

pub open spec fn all_digits(s: Seq<char>) -> bool {
    forall|i: int| 0 <= i < s.len() ==> is_digit(#[trigger] s[i])
}

/// The number a digit string denotes, most significant digit first.
pub open spec fn digits_val(s: Seq<char>) -> int
    decreases s.len(),
{
    if s.len() == 0 {
        0
    } else {
        digits_val(s.drop_last()) * 10 + digit_val(s.last())
    }
}

pub open spec fn tenpow(n: int) -> int
    decreases n,
{
    if n <= 0 {
        1
    } else {
        10 * tenpow(n - 1)
    }
}

/// Micro-units contributed by a fractional digit string; digits past
/// the sixth place are below the sample resolution and are dropped.
pub open spec fn frac_micros(fp: Seq<char>) -> int {
    if fp.len() >= 6 {
        digits_val(fp.take(6))
    } else {
        digits_val(fp) * tenpow(6 - fp.len())
    }
}

/// Position of the decimal point, or the length when there is none.
pub open spec fn dot_pos(s: Seq<char>) -> int {
    first_match(s, seq!['.'])
}

pub open spec fn int_part(s: Seq<char>) -> Seq<char> {
    s.take(dot_pos(s))
}

pub open spec fn frac_part(s: Seq<char>) -> Seq<char> {
    if dot_pos(s) < s.len() {
        s.subrange(dot_pos(s) + 1, s.len() as int)
    } else {
        Seq::empty()
    }
}

pub open spec fn body_wellformed(s: Seq<char>) -> bool {
    &&& int_part(s).len() >= 1
    &&& all_digits(int_part(s))
    &&& all_digits(frac_part(s))
}

pub open spec fn body_micros(s: Seq<char>) -> int {
    digits_val(int_part(s)) * 1000000 + frac_micros(frac_part(s))
}

/// Shape of an accepted number: an optional sign, at least one
/// integral digit, and an optional fraction after one decimal point.
pub open spec fn number_wellformed(s: Seq<char>) -> bool {
    if s.len() == 0 {
        false
    } else if s[0] == '-' || s[0] == '+' {
        body_wellformed(s.drop_first())
    } else {
        body_wellformed(s)
    }
}

/// Value of an accepted number, in micro-units.
pub open spec fn number_micros(s: Seq<char>) -> int {
    if s.len() == 0 {
        0
    } else if s[0] == '-' {
        -body_micros(s.drop_first())
    } else if s[0] == '+' {
        body_micros(s.drop_first())
    } else {
        body_micros(s)
    }
}

pub open spec fn number_fits(s: Seq<char>) -> bool {
    -0x7fff_ffff_ffff_ffff <= number_micros(s) <= 0x7fff_ffff_ffff_ffff
}

/// The sample a raw data cell denotes: trimmed and parsed, `Missing`
/// when it is not a representable number.
pub open spec fn parse_sample_spec(s: Seq<char>) -> Sample {
    if number_wellformed(trim_seq(s)) && number_fits(trim_seq(s)) {
        Sample::Val(number_micros(trim_seq(s)) as i64)
    } else {
        Sample::Missing
    }
}

proof fn lemma_tenpow_vals()
    ensures
        tenpow(0) == 1,
        tenpow(1) == 10,
        tenpow(2) == 100,
        tenpow(3) == 1000,
        tenpow(4) == 10000,
        tenpow(5) == 100000,
        tenpow(6) == 1000000,
{
    assert(tenpow(0) == 1);
    assert(tenpow(1) == 10);
    assert(tenpow(2) == 100);
    assert(tenpow(3) == 1000);
    assert(tenpow(4) == 10000);
    assert(tenpow(5) == 100000);
    assert(tenpow(6) == 1000000);
}

proof fn lemma_tenpow_pos(n: int)
    ensures
        1 <= tenpow(n),
    decreases n,
{
    if n > 0 {
        lemma_tenpow_pos(n - 1);
    }
}

proof fn lemma_tenpow_mono(a: int, b: int)
    requires
        a <= b,
    ensures
        tenpow(a) <= tenpow(b),
        1 <= tenpow(a),
    decreases b - a,
{
    lemma_tenpow_pos(a);
    if a < b {
        lemma_tenpow_mono(a, b - 1);
        lemma_tenpow_pos(b - 1);
        if b > 0 {
            assert(tenpow(b) == 10 * tenpow(b - 1));
        }
    }
}

proof fn lemma_digits_val_bounds(s: Seq<char>)
    requires
        all_digits(s),
    ensures
        0 <= digits_val(s),
        digits_val(s) < tenpow(s.len() as int),
    decreases s.len(),
{
    if s.len() > 0 {
        assert(all_digits(s.drop_last())) by {
            assert(forall|i: int| 0 <= i < s.len() - 1 ==> s.drop_last()[i] == s[i]);
        }
        lemma_digits_val_bounds(s.drop_last());
        assert(tenpow(s.len() as int) == 10 * tenpow(s.len() - 1));
    }
}

proof fn lemma_digits_val_step(s: Seq<char>, k: int)
    requires
        0 <= k < s.len(),
    ensures
        digits_val(s.take(k + 1)) == digits_val(s.take(k)) * 10 + digit_val(s[k]),
{
    assert(s.take(k + 1).drop_last() =~= s.take(k));
    assert(s.take(k + 1).last() == s[k]);
}

enum NumOutcome {
    Value(i64),
    NotNumber,
    TooBig,
}

/// A sign-stripped view of `t`, its decimal-point position located.
/// Returns the parsed value or the reason there is none.
#[verifier::rlimit(80)]
#[verifier::loop_isolation(false)]
fn parse_outcome(t: &str) -> (r: NumOutcome)
    ensures
        match r {
            NumOutcome::Value(v) => number_wellformed(t@) && number_fits(t@) && v == number_micros(
                t@,
            ),
            NumOutcome::NotNumber => !number_wellformed(t@),
            NumOutcome::TooBig => number_wellformed(t@) && !number_fits(t@),
        },
{
    let n = t.unicode_len();
    if n == 0 {
        return NumOutcome::NotNumber;
    }
    let c0 = t.get_char(0);
    let mut start: usize = 0;
    let mut neg: bool = false;
    if c0 == '-' {
        neg = true;
        start = 1;
    } else if c0 == '+' {
        start = 1;
    }
    let ghost body = t@.subrange(start as int, n as int);
    proof {
        if start == 1 {
            assert(t@.drop_first() =~= body);
        } else {
            assert(t@ =~= body);
        }
        assert(number_wellformed(t@) == body_wellformed(body));
        assert(number_micros(t@) == (if c0 == '-' {
            -body_micros(body)
        } else {
            body_micros(body)
        }));
    }
    // locate the decimal point
    let mut d: usize = start;
    while d < n && t.get_char(d) != '.'
        invariant
            start <= d <= n,
            n == t@.len(),
            forall|k: int| start <= k < d ==> t@[k] != '.',
        decreases n - d,
    {
        d += 1;
    }
    proof {
        assert forall|k: int|
            #![trigger body.subrange(k, k + 1)]
            0 <= k < d - start implies body.subrange(k, k + 1) != seq!['.'] by {
            assert(body.subrange(k, k + 1)[0] == body[k]);
            assert(body[k] == t@[start + k]);
            assert(seq!['.'][0] == '.');
        }
        if d < n {
            assert(body.subrange(d - start as int, d - start + 1 as int) =~= seq!['.']) by {
                assert(body.subrange(d - start as int, d - start + 1 as int)[0] == body[
                    d - start as int
                ]);
                assert(body[d - start as int] == t@[d as int]);
            }
            lemma_first_match_is(body, seq!['.'], d - start as int);
        } else {
            assert forall|k: int|
                #![trigger body.subrange(k, k + 1)]
                0 <= k && k + 1 <= body.len() implies body.subrange(k, k + 1) != seq!['.'] by {
                assert(body.subrange(k, k + 1)[0] == body[k]);
                assert(body[k] == t@[start + k]);
            }
            lemma_first_match_none(body, seq!['.']);
        }
        assert(dot_pos(body) == d - start);
        assert(int_part(body) =~= t@.subrange(start as int, d as int));
        if d < n {
            assert(frac_part(body) =~= t@.subrange(d + 1 as int, n as int));
        } else {
            assert(frac_part(body) =~= Seq::<char>::empty());
        }
    }
    let ghost ip = int_part(body);
    let ghost fp = frac_part(body);
    if d == start {
        return NumOutcome::NotNumber;
    }
    // integral digits, accumulated while they still fit
    let mut i: usize = start;
    let mut acc: i64 = 0;
    let mut big: bool = false;
    while i < d
        invariant
            start <= i <= d,
            d <= n,
            n == t@.len(),
            ip =~= t@.subrange(start as int, d as int),
            forall|k: int| 0 <= k < i - start ==> is_digit(#[trigger] ip[k]),
            !big ==> 0 <= acc && acc == digits_val(ip.take(i - start as int)),
            big ==> digits_val(ip.take(i - start as int)) > 0x7fff_ffff_ffff_ffff,
        decreases d - i,
    {
        let c = t.get_char(i);
        let u = c as u32;
        proof {
            assert(ip[i - start as int] == t@[i as int]);
        }
        if !(48 <= u && u <= 57) {
            proof {
                assert(!is_digit(ip[i - start as int]));
            }
            return NumOutcome::NotNumber;
        }
        let dv: i64 = (u - 48) as i64;
        proof {
            lemma_digits_val_step(ip, i - start as int);
        }
        if big {
            proof {
                assert(digits_val(ip.take(i - start as int)) * 10 + digit_val(ip[i - start as int])
                    > 0x7fff_ffff_ffff_ffff);
            }
        } else if acc > (9223372036854775807 - dv) / 10 {
            big = true;
            proof {
                assert(acc * 10 + dv > 0x7fff_ffff_ffff_ffff);
            }
        } else {
            acc = acc * 10 + dv;
        }
        i += 1;
    }
    proof {
        assert(ip.take(d - start as int) =~= ip);
        assert(all_digits(ip));
    }
    // fractional digits: validated in full, the first six accumulated
    let mut fr: i64 = 0;
    let mut cnt: usize = 0;
    if d < n {
        let mut j: usize = d + 1;
        while j < n
            invariant
                d + 1 <= j <= n,
                n == t@.len(),
                d < n,
                fp =~= t@.subrange(d + 1 as int, n as int),
                forall|k: int| 0 <= k < j - d - 1 ==> is_digit(#[trigger] fp[k]),
                cnt == (if j - d - 1 <= 6 {
                    j - d - 1
                } else {
                    6int
                }),
                0 <= fr && fr == digits_val(fp.take(cnt as int)),
                fr < tenpow(cnt as int),
                cnt <= 6,
            decreases n - j,
        {
            let c = t.get_char(j);
            let u = c as u32;
            proof {
                assert(fp[j - d - 1 as int] == t@[j as int]);
            }
            if !(48 <= u && u <= 57) {
                proof {
                    assert(!is_digit(fp[j - d - 1 as int]));
                }
                return NumOutcome::NotNumber;
            }
            let dv: i64 = (u - 48) as i64;
            if cnt < 6 {
                proof {
                    lemma_digits_val_step(fp, cnt as int);
                    assert(tenpow(cnt + 1 as int) == 10 * tenpow(cnt as int));
                    lemma_tenpow_vals();
                    lemma_tenpow_mono(cnt as int, 5);
                    assert(fr < 100000);
                }
                fr = fr * 10 + dv;
                cnt += 1;
            }
            j += 1;
        }
        proof {
            assert(fp.take(fp.len() as int) =~= fp);
            assert(all_digits(fp));
        }
    } else {
        proof {
            assert(fp.take(0) =~= fp);
            assert(all_digits(fp));
        }
    }
    proof {
        assert(body_wellformed(body));
        lemma_digits_val_bounds(fp);
    }
    // scale a short fraction up to micro-units
    let ghost cnt0 = cnt as int;
    proof {
        lemma_tenpow_vals();
        assert(fr == digits_val(fp.take(cnt0)) * tenpow(0)) by {
            assert(tenpow(0) == 1);
        }
    }
    while cnt < 6
        invariant
            0 <= cnt <= 6,
            cnt0 <= cnt,
            0 <= fr && fr == digits_val(fp.take(cnt0)) * tenpow(cnt as int - cnt0),
            fr < tenpow(cnt as int),
        decreases 6 - cnt,
    {
        proof {
            assert(tenpow(cnt + 1 as int) == 10 * tenpow(cnt as int));
            assert(tenpow(cnt as int - cnt0 + 1) == 10 * tenpow(cnt as int - cnt0));
            lemma_tenpow_vals();
            lemma_tenpow_mono(cnt as int, 5);
            assert(fr < 100000);
            assert(fr * 10 == digits_val(fp.take(cnt0)) * tenpow(cnt as int - cnt0 + 1))
                by (nonlinear_arith)
                requires
                    fr == digits_val(fp.take(cnt0)) * tenpow(cnt as int - cnt0),
                    tenpow(cnt as int - cnt0 + 1) == 10 * tenpow(cnt as int - cnt0),
            ;
            assert(fr * 10 < tenpow(cnt + 1 as int)) by (nonlinear_arith)
                requires
                    fr < tenpow(cnt as int),
                    0 <= fr,
                    tenpow(cnt + 1 as int) == 10 * tenpow(cnt as int),
            ;
        }
        fr = fr * 10;
        cnt += 1;
    }
    proof {
        assert(fr == frac_micros(fp)) by {
            if fp.len() >= 6 {
                assert(cnt0 == 6);
                assert(tenpow(0) == 1);
            } else {
                assert(fp.take(cnt0) =~= fp);
            }
        }
        assert(fr < 1000000) by {
            assert(tenpow(0) == 1);
            assert(tenpow(1) == 10);
            assert(tenpow(2) == 100);
            assert(tenpow(3) == 1000);
            assert(tenpow(4) == 10000);
            assert(tenpow(5) == 100000);
            assert(tenpow(6) == 1000000);
        }
    }
    if big {
        proof {
            lemma_digits_val_bounds(ip);
            assert(body_micros(body) > 0x7fff_ffff_ffff_ffff);
        }
        return NumOutcome::TooBig;
    }
    let total: i128 = (acc as i128) * 1000000 + (fr as i128);
    proof {
        assert(total == body_micros(body));
    }
    if total > 9223372036854775807i128 {
        return NumOutcome::TooBig;
    }
    if neg {
        NumOutcome::Value(-(total as i64))
    } else {
        NumOutcome::Value(total as i64)
    }
}

/// Micro-unit multiplier of a metric suffix character; 1 for any
/// other character.
pub open spec fn suffix_mult(c: char) -> int {
    if c == 'k' || c == 'K' {
        1000
    } else if c == 'm' || c == 'M' {
        1000000
    } else if c == 'g' || c == 'G' {
        1000000000
    } else if c == 't' || c == 'T' {
        1000000000000
    } else {
        1
    }
}

pub open spec fn has_suffix(t: Seq<char>) -> bool {
    t.len() > 0 && suffix_mult(t.last()) != 1
}

/// The number part of a trimmed metric string: the suffix letter, if
/// any, stripped.
pub open spec fn metric_mantissa(s: Seq<char>) -> Seq<char> {
    if has_suffix(trim_seq(s)) {
        trim_seq(s).drop_last()
    } else {
        trim_seq(s)
    }
}

pub open spec fn metric_mult(s: Seq<char>) -> int {
    if has_suffix(trim_seq(s)) {
        suffix_mult(trim_seq(s).last())
    } else {
        1
    }
}

pub open spec fn metric_wellformed(s: Seq<char>) -> bool {
    number_wellformed(metric_mantissa(s))
}

/// Value of a metric string in micro-units: the mantissa scaled by
/// the suffix multiplier.
pub open spec fn metric_micros(s: Seq<char>) -> int {
    number_micros(metric_mantissa(s)) * metric_mult(s)
}

pub open spec fn metric_fits(s: Seq<char>) -> bool {
    -0x7fff_ffff_ffff_ffff <= metric_micros(s) <= 0x7fff_ffff_ffff_ffff
}

#[derive(Debug, Clone, Copy, PartialEq, Eq, Structural)]
pub enum MetricParseError {
    /// The text (suffix stripped) is not a decimal number.
    BadNumber,
    /// The number is beyond what a sample can hold.
    TooLarge,
}

/// Parses a number with an optional metric multiplier suffix
/// (`k`/`m`/`g`/`t`, either case) into micro-units.
pub fn metric_parse(s: &str) -> (r: Result<i64, MetricParseError>)
    ensures
        match r {
            Ok(v) => metric_wellformed(s@) && metric_fits(s@) && v == metric_micros(s@),
            Err(MetricParseError::BadNumber) => !metric_wellformed(s@),
            Err(MetricParseError::TooLarge) => metric_wellformed(s@) && !metric_fits(s@),
        },
{
    let t = trim_str(s);
    let n = t.unicode_len();
    let mut mult: i64 = 1;
    if n > 0 {
        let c = t.get_char(n - 1);
        if c == 'k' || c == 'K' {
            mult = 1000;
        } else if c == 'm' || c == 'M' {
            mult = 1000000;
        } else if c == 'g' || c == 'G' {
            mult = 1000000000;
        } else if c == 't' || c == 'T' {
            mult = 1000000000000;
        }
    }
    let outcome = if mult != 1 {
        let mantissa = t.substring_char(0, n - 1);
        proof {
            assert(mantissa@ =~= metric_mantissa(s@));
        }
        parse_outcome(mantissa)
    } else {
        proof {
            assert(t@ =~= metric_mantissa(s@));
        }
        parse_outcome(t)
    };
    match outcome {
        NumOutcome::NotNumber => Err(MetricParseError::BadNumber),
        NumOutcome::TooBig => {
            proof {
                let num = number_micros(metric_mantissa(s@));
                let mm = metric_mult(s@);
                assert(mm >= 1);
                assert(num > 0x7fff_ffff_ffff_ffff ==> num * mm >= num) by (nonlinear_arith)
                    requires
                        mm >= 1,
                ;
                assert(num < -0x7fff_ffff_ffff_ffff ==> num * mm <= num) by (nonlinear_arith)
                    requires
                        mm >= 1,
                ;
            }
            Err(MetricParseError::TooLarge)
        },
        NumOutcome::Value(v) => {
            proof {
                assert((v as int) * (mult as int) <= 0x7fff_ffff_ffff_ffff * 1000000000000
                    && (v as int) * (mult as int) >= -0x7fff_ffff_ffff_ffff * 1000000000000)
                    by (nonlinear_arith)
                    requires
                        -0x7fff_ffff_ffff_ffff <= v as int <= 0x7fff_ffff_ffff_ffff,
                        1 <= mult as int <= 1000000000000,
                ;
            }
            let wide: i128 = (v as i128) * (mult as i128);
            proof {
                assert(wide == metric_micros(s@));
            }
            if wide > 9223372036854775807i128 || wide < -9223372036854775807i128 {
                Err(MetricParseError::TooLarge)
            } else {
                Ok(wide as i64)
            }
        },
    }
}

/// Parses one raw data cell, best effort: whitespace is trimmed and
/// anything that is not a representable number becomes `Missing`.
pub fn parse_sample(s: &str) -> (r: Sample)
    ensures
        r == parse_sample_spec(s@),
{
    let t = trim_str(s);
    match parse_outcome(t) {
        NumOutcome::Value(v) => Sample::Val(v),
        NumOutcome::NotNumber => Sample::Missing,
        NumOutcome::TooBig => Sample::Missing,
    }
}

} // verus!
