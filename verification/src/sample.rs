//! The numeric model of one charted cell: an exact fixed-point number
//! in micro-units, or a missing-data marker. Malformed or absent input
//! cells degrade to `Missing` instead of aborting ingestion.

use vstd::prelude::*;

verus! {

/// Number of micro-units in 1.0; samples carry six decimal places.
pub const UNIT: i64 = 1000000;

/// One numeric sample of a series.
#[derive(Clone, Copy, Debug, PartialEq, Eq, Structural)]
pub enum Sample {
    /// A cell that was absent or did not parse as a number.
    Missing,
    /// An exact value counted in micro-units (`UNIT` is 1.0).
    Val(i64),
}

impl Sample {
    /// The value this sample contributes to a magnitude sum.
    pub open spec fn spec_micros(&self) -> int {
        match *self {
            Sample::Missing => 0,
            Sample::Val(v) => v as int,
        }
    }

    pub open spec fn is_present(&self) -> bool {
        !(*self is Missing)
    }

    pub fn is_missing(&self) -> (r: bool)
        ensures
            r == (*self is Missing),
    {
        matches!(*self, Sample::Missing)
    }
}

/// Sum of the present samples of a sequence, in micro-units; missing
/// samples contribute nothing.
pub open spec fn sample_sum(s: Seq<Sample>) -> int
    decreases s.len(),
{
    if s.len() == 0 {
        0
    } else {
        sample_sum(s.drop_last()) + s.last().spec_micros()
    }
}

pub proof fn lemma_sample_sum_push(s: Seq<Sample>, x: Sample)
    ensures
        sample_sum(s.push(x)) == sample_sum(s) + x.spec_micros(),
{
    assert(s.push(x).drop_last() =~= s);
    assert(s.push(x).last() == x);
}

pub proof fn lemma_sample_sum_bound(s: Seq<Sample>)
    ensures
        -(s.len() as int) * 0x8000_0000_0000_0000 <= sample_sum(s) <= (s.len() as int)
            * 0x8000_0000_0000_0000,
    decreases s.len(),
{
    if s.len() > 0 {
        lemma_sample_sum_bound(s.drop_last());
    }
}

/// Whether the sequence holds at least one present (non-missing) value.
pub open spec fn has_present(s: Seq<Sample>) -> bool {
    exists|i: int| 0 <= i < s.len() && s[i].is_present()
}

/// Smallest present value of the sequence; meaningful only under
/// `has_present`.
pub open spec fn present_min(s: Seq<Sample>) -> int
    decreases s.len(),
{
    if s.len() == 0 {
        0
    } else {
        let rest = s.drop_last();
        match s.last() {
            Sample::Missing => present_min(rest),
            Sample::Val(v) => if !has_present(rest) {
                v as int
            } else if present_min(rest) <= v as int {
                present_min(rest)
            } else {
                v as int
            },
        }
    }
}

/// Largest present value of the sequence; meaningful only under
/// `has_present`.
pub open spec fn present_max(s: Seq<Sample>) -> int
    decreases s.len(),
{
    if s.len() == 0 {
        0
    } else {
        let rest = s.drop_last();
        match s.last() {
            Sample::Missing => present_max(rest),
            Sample::Val(v) => if !has_present(rest) {
                v as int
            } else if present_max(rest) >= v as int {
                present_max(rest)
            } else {
                v as int
            },
        }
    }
}

/// With at least one present value, the observed minimum does not
/// exceed the observed maximum, and both are values of the sequence.
pub proof fn lemma_present_min_max(s: Seq<Sample>)
    requires
        has_present(s),
    ensures
        present_min(s) <= present_max(s),
        exists|i: int| 0 <= i < s.len() && s[i] == Sample::Val(present_min(s) as i64),
        exists|i: int| 0 <= i < s.len() && s[i] == Sample::Val(present_max(s) as i64),
        -0x8000_0000_0000_0000 <= present_min(s) <= 0x7fff_ffff_ffff_ffff,
        -0x8000_0000_0000_0000 <= present_max(s) <= 0x7fff_ffff_ffff_ffff,
    decreases s.len(),
{
    let rest = s.drop_last();
    if has_present(rest) {
        lemma_present_min_max(rest);
        let wmin = choose|i: int|
            0 <= i < rest.len() && rest[i] == Sample::Val(present_min(rest) as i64);
        let wmax = choose|i: int|
            0 <= i < rest.len() && rest[i] == Sample::Val(present_max(rest) as i64);
        assert(s[wmin] == rest[wmin]);
        assert(s[wmax] == rest[wmax]);
        match s.last() {
            Sample::Missing => {
                assert(present_min(s) == present_min(rest));
            },
            Sample::Val(v) => {
                assert(s[s.len() - 1] == Sample::Val(v));
            },
        }
    } else {
        match s.last() {
            Sample::Missing => {
                let w = choose|i: int| 0 <= i < s.len() && s[i].is_present();
                assert(rest[w] == s[w]);
                assert(false);
            },
            Sample::Val(v) => {
                assert(s[s.len() - 1] == Sample::Val(v));
            },
        }
    }
}

} // verus!
