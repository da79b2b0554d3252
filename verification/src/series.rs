//! The central data model: named series of samples, one-row slices,
//! and the set of all series with its optional shared X-axis labels,
//! together with the three merge operations.

use vstd::prelude::*;
use vstd::seq_lib::group_to_multiset_ensures;
use crate::sample::{Sample, sample_sum, lemma_sample_sum_bound, lemma_sample_sum_push};
use crate::window::SIZE_BOUND;

verus! {

/// One named, ordered sequence of samples: one chart line.
#[derive(Debug, Clone)]
pub struct Series {
    pub title: String,
    pub values: Vec<Sample>,
}

/// Mathematical model of one series.
pub struct SeriesModel {
    pub title: Seq<char>,
    pub values: Seq<Sample>,
}

impl View for Series {
    type V = SeriesModel;

    open spec fn view(&self) -> SeriesModel {
        SeriesModel { title: self.title@, values: self.values@ }
    }
}

impl Series {
    pub fn with_title(title: &str) -> (s: Series)
        ensures
            s@.title == title@,
            s@.values == Seq::<Sample>::empty(),
    {
        Series { title: title.to_owned(), values: Vec::new() }
    }
}

/// One new row of values, one per currently-known series, pending
/// merge into a `SeriesSet`.
pub struct Slice {
    pub x: Option<String>,
    pub y: Vec<Sample>,
}

impl Slice {
    pub fn default() -> (s: Slice)
        ensures
            s.x is None,
            s.y@ == Seq::<Sample>::empty(),
    {
        Slice { x: None, y: Vec::new() }
    }
}

/// The models of a sequence of series.
pub open spec fn models(ys: Seq<Series>) -> Seq<SeriesModel> {
    ys.map_values(|s: Series| s@)
}

/// Effect of appending one slice: on a width match, each series gains
/// its positional value and the labels gain the slice's X label when
/// both sides carry one; on a mismatch the set is untouched.
pub open spec fn append_slice_rel(pre: SeriesSet, slice: Slice, post: SeriesSet) -> bool {
    if slice.y@.len() != pre.y@.len() {
        post == pre
    } else {
        &&& post.y@.len() == pre.y@.len()
        &&& forall|i: int|
            0 <= i < pre.y@.len() ==> (#[trigger] post.y@[i])@.title == pre.y@[i]@.title
                && post.y@[i]@.values == pre.y@[i]@.values.push(slice.y@[i])
        &&& match (pre.x, slice.x) {
            (Some(p), Some(xv)) => post.x matches Some(q) && q.0 == p.0 && q.1@ == p.1@.push(xv),
            _ => post.x == pre.x,
        }
    }
}

/// Effect of the union merge: the resulting series are the documented
/// merge reordered by decreasing sum, and the X labels of both sides
/// are concatenated when both carry some.
pub open spec fn append_set_rel(pre: SeriesSet, other: SeriesSet, post: SeriesSet) -> bool {
    &&& models(post.y@).to_multiset() == merge_models(
        models(pre.y@),
        models(other.y@),
        pre.spec_series_size(),
        other.spec_series_size(),
    ).to_multiset()
    &&& sorted_by_sum_desc(models(post.y@))
    &&& forall|i: int|
        0 <= i < post.y@.len() ==> (#[trigger] post.y@[i])@.values.len() == pre.spec_series_size()
            + other.spec_series_size()
    &&& match (pre.x, other.x) {
        (Some(p), Some(q)) => post.x matches Some(r) && r.0 == p.0 && r.1@ == p.1@ + q.1@,
        _ => post.x == pre.x,
    }
}

/// The full current dataset: all series plus optional shared X-axis
/// labels (label-column title and the labels themselves).
#[derive(Debug, Clone)]
pub struct SeriesSet {
    pub x: Option<(String, Vec<String>)>,
    pub y: Vec<Series>,
}

impl SeriesSet {
    pub fn default() -> (s: SeriesSet)
        ensures
            s.x is None,
            s.y@ == Seq::<Series>::empty(),
            s.wf(),
    {
        SeriesSet { x: None, y: Vec::new() }
    }

    /// Number of data points: the length of the first series, or zero.
    pub open spec fn spec_series_size(&self) -> int {
        if self.y@.len() == 0 {
            0
        } else {
            self.y@[0].values@.len() as int
        }
    }

    /// All series have equal length, and counts stay inside the range
    /// the viewport arithmetic accepts.
    pub open spec fn wf(&self) -> bool {
        &&& forall|i: int|
            0 <= i < self.y@.len() ==> (#[trigger] self.y@[i]).values@.len()
                == self.spec_series_size()
        &&& self.y@.len() <= SIZE_BOUND
        &&& self.spec_series_size() <= SIZE_BOUND
    }

    /// The X labels, once settled, track the series length.
    pub open spec fn aligned(&self) -> bool {
        match self.x {
            Some(p) => p.1@.len() == self.spec_series_size(),
            None => true,
        }
    }

    pub fn series_size(&self) -> (n: i64)
        requires
            self.wf(),
        ensures
            n == self.spec_series_size(),
    {
        if self.y.len() == 0 {
            0
        } else {
            self.y[0].values.len() as i64
        }
    }

    pub fn series_count(&self) -> (n: i64)
        requires
            self.wf(),
        ensures
            n == self.y@.len(),
    {
        self.y.len() as i64
    }

    /// Appends one slice value to each series by position, and the X
    /// label when both sides carry one. A slice whose width does not
    /// match the set is dropped whole: a silent no-op.
    pub fn append_slice(&mut self, slice: Slice)
        requires
            old(self).wf(),
            old(self).spec_series_size() < SIZE_BOUND,
        ensures
            final(self).wf(),
            append_slice_rel(*old(self), slice, *final(self)),
            old(self).aligned() && (old(self).x is None || (slice.x is Some && old(self).y@.len()
                > 0)) && slice.y@.len() == old(self).y@.len() ==> final(self).aligned(),
    {
        if slice.y.len() != self.y.len() {
            return ;
        }
        let Slice { x: sx, y: sy } = slice;
        match sx {
            Some(xv) => {
                match &mut self.x {
                    Some(p) => {
                        p.1.push(xv);
                    },
                    None => {},
                }
            },
            None => {},
        }
        let ghost y0 = self.y@;
        let ghost x1 = self.x;
        let mut i: usize = 0;
        while i < self.y.len()
            invariant
                self.x == x1,
                i <= self.y@.len(),
                self.y@.len() == y0.len(),
                sy@.len() == y0.len(),
                forall|k: int| 0 <= k < y0.len() ==> y0[k].values@.len() < SIZE_BOUND,
                forall|k: int|
                    0 <= k < i ==> (#[trigger] self.y@[k])@.title == y0[k]@.title
                        && self.y@[k]@.values == y0[k]@.values.push(sy@[k]),
                forall|k: int| i <= k < y0.len() ==> self.y@[k] == y0[k],
            decreases self.y@.len() - i,
        {
            let mut tmp = Series { title: String::new(), values: Vec::new() };
            self.y.set_and_swap(i, &mut tmp);
            tmp.values.push(sy[i]);
            self.y.set_and_swap(i, &mut tmp);
            i += 1;
        }
    }
}

impl SeriesSet {
    /// A deep copy, equal to this set at the level of the models the
    /// contracts speak of.
    #[verifier::loop_isolation(false)]
    pub fn duplicate(&self) -> (r: SeriesSet)
        ensures
            models(r.y@) == models(self.y@),
            match self.x {
                Some(p) => r.x matches Some(q) && q.0 == p.0 && q.1@ == p.1@,
                None => r.x is None,
            },
            self.wf() ==> r.wf(),
            r.spec_series_size() == self.spec_series_size(),
    {
        let x: Option<(String, Vec<String>)> = match &self.x {
            Some(p) => Some((p.0.clone(), copy_strings(&p.1))),
            None => None,
        };
        let mut y: Vec<Series> = Vec::new();
        let mut i: usize = 0;
        while i < self.y.len()
            invariant
                i <= self.y@.len(),
                y@.len() == i,
                forall|k: int| 0 <= k < i ==> (#[trigger] y@[k])@ == self.y@[k]@,
            decreases self.y@.len() - i,
        {
            let s = Series {
                title: self.y[i].title.clone(),
                values: copy_values(&self.y[i].values),
            };
            y.push(s);
            i += 1;
        }
        let r = SeriesSet { x, y };
        proof {
            assert(models(r.y@) =~= models(self.y@));
            if self.y@.len() > 0 {
                assert(models(r.y@)[0] == models(self.y@)[0]);
            }
            assert(r.spec_series_size() == self.spec_series_size());
        }
        r
    }
}

fn copy_strings(v: &Vec<String>) -> (r: Vec<String>)
    ensures
        r@ == v@,
{
    let mut r: Vec<String> = Vec::new();
    let mut i: usize = 0;
    while i < v.len()
        invariant
            i <= v@.len(),
            r@ == v@.take(i as int),
        decreases v@.len() - i,
    {
        r.push(v[i].clone());
        proof {
            assert(v@.take(i + 1 as int) =~= v@.take(i as int).push(v@[i as int]));
        }
        i += 1;
    }
    proof {
        assert(v@.take(v@.len() as int) =~= v@);
    }
    r
}

/// Index of the first series with the given title, or `ms.len()` when
/// no title matches.
pub open spec fn title_index(ms: Seq<SeriesModel>, t: Seq<char>) -> int
    decreases ms.len(),
{
    if ms.len() == 0 {
        0
    } else if ms[0].title == t {
        0
    } else {
        1 + title_index(ms.drop_first(), t)
    }
}

pub open spec fn has_title(ms: Seq<SeriesModel>, t: Seq<char>) -> bool {
    title_index(ms, t) < ms.len()
}

pub proof fn lemma_title_index(ms: Seq<SeriesModel>, t: Seq<char>)
    ensures
        0 <= title_index(ms, t) <= ms.len(),
        has_title(ms, t) ==> ms[title_index(ms, t)].title == t,
        forall|k: int| 0 <= k < title_index(ms, t) ==> ms[k].title != t,
        !has_title(ms, t) ==> forall|k: int| 0 <= k < ms.len() ==> ms[k].title != t,
    decreases ms.len(),
{
    if ms.len() > 0 && ms[0].title != t {
        lemma_title_index(ms.drop_first(), t);
        assert forall|k: int| 0 <= k < title_index(ms, t) implies ms[k].title != t by {
            if k > 0 {
                assert(ms.drop_first()[k - 1] == ms[k]);
            }
        }
        assert forall|k: int| !has_title(ms, t) && 0 <= k < ms.len() implies ms[k].title != t by {
            if k > 0 {
                assert(ms.drop_first()[k - 1] == ms[k]);
            }
        }
    }
}

/// A run of `n` missing samples, used to pad a series over the span
/// where it did not exist.
pub open spec fn missing_seq(n: int) -> Seq<Sample> {
    Seq::new(n as nat, |i: int| Sample::Missing)
}

/// The historical prefix a merged series starts with: the same-titled
/// old series verbatim, or missing-data padding of the old length.
pub open spec fn old_prefix(olds: Seq<SeriesModel>, t: Seq<char>, old_len: int) -> Seq<Sample> {
    if has_title(olds, t) {
        olds[title_index(olds, t)].values
    } else {
        missing_seq(old_len)
    }
}

/// The merged form of the incoming series, in their arrival order.
pub open spec fn merged_new_part(
    olds: Seq<SeriesModel>,
    news: Seq<SeriesModel>,
    old_len: int,
) -> Seq<SeriesModel> {
    Seq::new(
        news.len(),
        |i: int|
            SeriesModel {
                title: news[i].title,
                values: old_prefix(olds, news[i].title, old_len) + news[i].values,
            },
    )
}

/// Whether old series `j` is the first-match target of some incoming
/// title, and hence absorbed into the merged form of that series.
pub open spec fn consumed(olds: Seq<SeriesModel>, news: Seq<SeriesModel>, j: int) -> bool {
    exists|i: int|
        0 <= i < news.len() && has_title(olds, news[i].title) && title_index(olds, news[i].title)
            == j
}

pub open spec fn padded(m: SeriesModel, new_len: int) -> SeriesModel {
    SeriesModel { title: m.title, values: m.values + missing_seq(new_len) }
}

/// The old series from index `j` on that no incoming series consumed,
/// each padded with missing samples for the new span.
pub open spec fn kept_from(
    olds: Seq<SeriesModel>,
    news: Seq<SeriesModel>,
    j: int,
    new_len: int,
) -> Seq<SeriesModel>
    decreases olds.len() - j,
{
    if j < 0 || j >= olds.len() {
        Seq::empty()
    } else {
        let rest = kept_from(olds, news, j + 1, new_len);
        if consumed(olds, news, j) {
            rest
        } else {
            seq![padded(olds[j], new_len)] + rest
        }
    }
}

/// The union merge before reordering: the incoming series in arrival
/// order, then the disappeared old series.
pub open spec fn merge_models(
    olds: Seq<SeriesModel>,
    news: Seq<SeriesModel>,
    old_len: int,
    new_len: int,
) -> Seq<SeriesModel> {
    merged_new_part(olds, news, old_len) + kept_from(olds, news, 0, new_len)
}

/// Most-active-first display order: sums of present values never
/// increase along the sequence.
pub open spec fn sorted_by_sum_desc(ms: Seq<SeriesModel>) -> bool {
    forall|i: int, j: int|
        0 <= i <= j < ms.len() ==> sample_sum(ms[i].values) >= sample_sum(ms[j].values)
}

/// Sum of the present samples of one value vector, in micro-units.
pub fn series_sum(v: &Vec<Sample>) -> (r: i128)
    ensures
        r == sample_sum(v@),
{
    let mut acc: i128 = 0;
    let mut i: usize = 0;
    while i < v.len()
        invariant
            i <= v@.len(),
            acc == sample_sum(v@.take(i as int)),
            -(i as int) * 0x8000_0000_0000_0000 <= acc <= (i as int) * 0x8000_0000_0000_0000,
        decreases v@.len() - i,
    {
        let s = v[i];
        proof {
            assert(v@.take(i + 1 as int) =~= v@.take(i as int).push(v@[i as int]));
            lemma_sample_sum_push(v@.take(i as int), v@[i as int]);
        }
        match s {
            Sample::Missing => {},
            Sample::Val(x) => {
                acc = acc + x as i128;
            },
        }
        i += 1;
    }
    proof {
        assert(v@.take(v@.len() as int) =~= v@);
    }
    acc
}

fn copy_values(v: &Vec<Sample>) -> (r: Vec<Sample>)
    ensures
        r@ == v@,
{
    let mut r: Vec<Sample> = Vec::new();
    let mut i: usize = 0;
    while i < v.len()
        invariant
            i <= v@.len(),
            r@ == v@.take(i as int),
        decreases v@.len() - i,
    {
        r.push(v[i]);
        proof {
            assert(v@.take(i + 1 as int) =~= v@.take(i as int).push(v@[i as int]));
        }
        i += 1;
    }
    proof {
        assert(v@.take(v@.len() as int) =~= v@);
    }
    r
}

fn extend_values(dst: &mut Vec<Sample>, src: &Vec<Sample>)
    ensures
        final(dst)@ == old(dst)@ + src@,
{
    let mut i: usize = 0;
    while i < src.len()
        invariant
            i <= src@.len(),
            dst@ == old(dst)@ + src@.take(i as int),
        decreases src@.len() - i,
    {
        dst.push(src[i]);
        proof {
            assert(src@.take(i + 1 as int) =~= src@.take(i as int).push(src@[i as int]));
        }
        i += 1;
    }
    proof {
        assert(src@.take(src@.len() as int) =~= src@);
        assert(old(dst)@ + src@.take(src@.len() as int) =~= old(dst)@ + src@);
    }
}

fn extend_missing(dst: &mut Vec<Sample>, n: usize)
    ensures
        final(dst)@ == old(dst)@ + missing_seq(n as int),
{
    let mut i: usize = 0;
    while i < n
        invariant
            i <= n,
            dst@ == old(dst)@ + missing_seq(i as int),
        decreases n - i,
    {
        dst.push(Sample::Missing);
        proof {
            assert(old(dst)@ + missing_seq(i + 1 as int) =~= (old(dst)@ + missing_seq(
                i as int,
            )).push(Sample::Missing));
        }
        i += 1;
    }
}

/// First series of `ys` carrying exactly the title `t`, if any.
fn find_title_index(ys: &Vec<Series>, t: &String) -> (r: Option<usize>)
    ensures
        match r {
            Some(j) => j < ys@.len() && has_title(models(ys@), t@) && j == title_index(
                models(ys@),
                t@,
            ),
            None => !has_title(models(ys@), t@),
        },
{
    proof {
        lemma_title_index(models(ys@), t@);
    }
    let mut i: usize = 0;
    while i < ys.len()
        invariant
            i <= ys@.len(),
            forall|k: int| 0 <= k < i ==> models(ys@)[k].title != t@,
        decreases ys@.len() - i,
    {
        proof {
            assert(models(ys@)[i as int] == ys@[i as int]@);
        }
        if ys[i].title == *t {
            proof {
                lemma_title_index(models(ys@), t@);
            }
            return Some(i);
        }
        i += 1;
    }
    proof {
        lemma_title_index(models(ys@), t@);
    }
    None
}

impl SeriesSet {
    /// Reorders the series by decreasing sum of their present values.
    fn order_by(&mut self)
        requires
            old(self).y@.len() <= SIZE_BOUND,
        ensures
            final(self).x == old(self).x,
            final(self).y@.len() == old(self).y@.len(),
            models(final(self).y@).to_multiset() == models(old(self).y@).to_multiset(),
            sorted_by_sum_desc(models(final(self).y@)),
            forall|i: int|
                0 <= i < final(self).y@.len() ==> models(old(self).y@).contains(
                    #[trigger] models(final(self).y@)[i],
                ),
    {
        broadcast use group_to_multiset_ensures;
        broadcast use vstd::multiset::group_multiset_axioms;

        let ghost m0 = models(old(self).y@);
        let mut i: usize = 1;
        while i < self.y.len()
            invariant
                1 <= i,
                i <= self.y@.len() || self.y@.len() < 1,
                self.x == old(self).x,
                self.y@.len() == old(self).y@.len(),
                models(self.y@).to_multiset() == m0.to_multiset(),
                self.y@.len() < 1 || sorted_by_sum_desc(models(self.y@).take(i as int)),
            decreases self.y@.len() - i,
        {
            let ghost prev = models(self.y@);
            let key = series_sum(&self.y[i].values);
            let mut p: usize = 0;
            let mut stop: bool = false;
            while p < i && !stop
                invariant
                    p <= i,
                    i < self.y@.len(),
                    prev == models(self.y@),
                    key == sample_sum(prev[i as int].values),
                    forall|k: int|
                        0 <= k < p ==> sample_sum((#[trigger] prev[k]).values) >= key,
                    stop ==> p < i && sample_sum(prev[p as int].values) < key,
                decreases i - p + (if stop { 0int } else { 1int }),
            {
                if series_sum(&self.y[p].values) < key {
                    stop = true;
                } else {
                    p += 1;
                }
            }
            if stop {
                let ghost before = self.y@;
                let item = self.y.remove(i);
                self.y.insert(p, item);
                proof {
                    let cur = models(self.y@);
                    let x = prev[i as int];
                    assert(cur =~= prev.remove(i as int).insert(p as int, x));
                    assert(prev.contains(x)) by {
                        assert(0 <= i < prev.len() && prev[i as int] == x);
                    }
                    prev.to_multiset_ensures();
                    assert(prev.to_multiset().count(x) > 0);
                    vstd::seq_lib::to_multiset_remove::<SeriesModel>(prev, i as int);
                    vstd::seq_lib::to_multiset_insert::<SeriesModel>(
                        prev.remove(i as int),
                        p as int,
                        x,
                    );
                    assert(cur.to_multiset() == prev.remove(i as int).insert(
                        p as int,
                        x,
                    ).to_multiset());
                    assert(cur.to_multiset() =~= prev.to_multiset());
                    assert(forall|k: int| 0 <= k < p ==> cur[k] == prev[k]);
                    assert(cur[p as int] == prev[i as int]);
                    assert(forall|k: int| p < k <= i ==> cur[k] == prev[k - 1]);
                    assert forall|a: int, b: int|
                        #![trigger cur[a], cur[b]]
                        0 <= a <= b <= i implies sample_sum(cur[a].values) >= sample_sum(
                        cur[b].values,
                    ) by {
                        assert forall|u: int, w: int|
                            0 <= u <= w < i implies sample_sum((#[trigger] prev[u]).values)
                            >= sample_sum((#[trigger] prev[w]).values) by {
                            assert(prev.take(i as int)[u] == prev[u]);
                            assert(prev.take(i as int)[w] == prev[w]);
                        }
                        if a < p && b < p {
                        } else if a < p && b == p {
                        } else if a < p && b > p {
                            assert(sample_sum(prev[a].values) >= sample_sum(prev[p as int].values));
                        } else if a == p {
                            if b > p {
                                assert(sample_sum(cur[b].values) == sample_sum(
                                    prev[b - 1].values,
                                ));
                                assert(sample_sum(prev[b - 1].values) <= sample_sum(
                                    prev[p as int].values,
                                ));
                            }
                        } else {
                        }
                    }
                    assert forall|a: int, b: int|
                        #![trigger cur.take(i + 1 as int)[a], cur.take(i + 1 as int)[b]]
                        0 <= a <= b < i + 1 implies sample_sum(cur.take(i + 1 as int)[a].values)
                        >= sample_sum(cur.take(i + 1 as int)[b].values) by {
                        assert(cur.take(i + 1 as int)[a] == cur[a]);
                        assert(cur.take(i + 1 as int)[b] == cur[b]);
                    }
                }
            } else {
                proof {
                    let cur = models(self.y@);
                    assert forall|a: int, b: int|
                        #![trigger cur.take(i + 1 as int)[a], cur.take(i + 1 as int)[b]]
                        0 <= a <= b < i + 1 implies sample_sum(cur.take(i + 1 as int)[a].values)
                        >= sample_sum(cur.take(i + 1 as int)[b].values) by {
                        assert(cur.take(i + 1 as int)[a] == cur[a]);
                        assert(cur.take(i + 1 as int)[b] == cur[b]);
                        assert(forall|k: int| 0 <= k < i ==> cur.take(i as int)[k] == cur[k]);
                        if b == i {
                            assert(sample_sum(cur[a].values) >= key);
                        }
                    }
                }
            }
            i += 1;
        }
        proof {
            if self.y@.len() >= 1 {
                assert(models(self.y@).take(self.y@.len() as int) =~= models(self.y@));
            }
            assert forall|k: int|
                0 <= k < models(self.y@).len() implies m0.contains(
                #[trigger] models(self.y@)[k],
            ) by {
                assert(models(self.y@).to_multiset().contains(models(self.y@)[k]));
                assert(m0.to_multiset().count(models(self.y@)[k]) > 0);
            }
        }
    }

    /// Union merge for batch mode: incoming series absorb same-titled
    /// history as their prefix, newly appeared series are padded with
    /// missing samples over the old span, disappeared old series are
    /// kept padded over the new span, X labels are concatenated, and
    /// the result is reordered by decreasing sum.
    pub fn append_set(&mut self, other: SeriesSet)
        requires
            old(self).wf(),
            other.wf(),
            old(self).spec_series_size() + other.spec_series_size() <= SIZE_BOUND,
            old(self).y@.len() + other.y@.len() <= SIZE_BOUND,
        ensures
            final(self).wf(),
            append_set_rel(*old(self), other, *final(self)),
    {
        broadcast use group_to_multiset_ensures;

        let ghost olds = models(old(self).y@);
        let ghost old_len = old(self).spec_series_size();
        let ghost new_len = other.spec_series_size();
        let old_n: usize = if self.y.len() == 0 {
            0
        } else {
            self.y[0].values.len()
        };
        let SeriesSet { x: ox, y: oy } = other;
        let ghost news = models(oy@);
        let new_n: usize = if oy.len() == 0 {
            0
        } else {
            oy[0].values.len()
        };
        match ox {
            Some(q) => {
                match &mut self.x {
                    Some(p) => {
                        let (_qt, mut qlabels) = q;
                        p.1.append(&mut qlabels);
                    },
                    None => {},
                }
            },
            None => {},
        }
        let mut used: Vec<bool> = vec![false; self.y.len()];
        let mut merged: Vec<Series> = Vec::new();
        let mut i: usize = 0;
        while i < oy.len()
            invariant
                i <= oy@.len(),
                news == models(oy@),
                olds == models(self.y@),
                forall|k: int| 0 <= k < olds.len() ==> (#[trigger] olds[k]).values.len() == old_len,
                forall|k: int| 0 <= k < news.len() ==> (#[trigger] news[k]).values.len() == new_len,
                old_len == old_n as int,
                new_len == new_n as int,
                used@.len() == olds.len(),
                forall|j: int|
                    0 <= j < olds.len() ==> (#[trigger] used@[j] == consumed(
                        olds,
                        news.take(i as int),
                        j,
                    )),
                models(merged@) =~= merged_new_part(olds, news, old_len).take(i as int),
            decreases oy@.len() - i,
        {
            let t = oy[i].title.clone();
            proof {
                lemma_title_index(olds, t@);
                assert(models(oy@)[i as int] == oy@[i as int]@);
                assert(t@ == news[i as int].title);
            }
            let ghost used0 = used@;
            let found = find_title_index(&self.y, &t);
            let mut vals: Vec<Sample>;
            match found {
                Some(j) => {
                    used.set(j, true);
                    vals = copy_values(&self.y[j].values);
                    proof {
                        assert(models(self.y@)[j as int] == self.y@[j as int]@);
                        assert(vals@ == olds[j as int].values);
                        assert(vals@ == old_prefix(olds, news[i as int].title, old_len));
                    }
                },
                None => {
                    vals = Vec::new();
                    extend_missing(&mut vals, old_n);
                    proof {
                        assert(vals@ =~= missing_seq(old_len));
                        assert(vals@ == old_prefix(olds, news[i as int].title, old_len));
                    }
                },
            }
            let ghost prefix_seq = vals@;
            extend_values(&mut vals, &oy[i].values);
            proof {
                assert(vals@ == prefix_seq + news[i as int].values);
            }
            let ghost mprev = merged@;
            merged.push(Series { title: t, values: vals });
            proof {
                let part = merged_new_part(olds, news, old_len);
                assert(models(merged@) =~= models(mprev).push(
                    SeriesModel { title: t@, values: vals@ },
                ));
                assert((SeriesModel { title: t@, values: vals@ }) == part[i as int]);
                assert(part.take(i + 1 as int) =~= part.take(i as int).push(part[i as int]));
                assert(models(merged@) =~= part.take(i + 1 as int));
                let pre = news.take(i as int);
                let post = news.take(i + 1 as int);
                assert(post =~= pre.push(news[i as int]));
                assert(forall|k: int| 0 <= k < i ==> post[k] == pre[k]);
                assert(post[i as int] == news[i as int]);
                assert forall|j: int| 0 <= j < olds.len() implies (used@[j] == consumed(
                    olds,
                    post,
                    j,
                )) by {
                    if consumed(olds, pre, j) {
                        let w = choose|w: int|
                            0 <= w < pre.len() && has_title(olds, pre[w].title) && title_index(
                                olds,
                                pre[w].title,
                            ) == j;
                        assert(post[w] == pre[w]);
                        assert(consumed(olds, post, j));
                        assert(used0[j]);
                    }
                    match found {
                        Some(jf) => {
                            assert(used@ == used0.update(jf as int, true));
                            if j == jf as int {
                                assert(has_title(olds, post[i as int].title) && title_index(
                                    olds,
                                    post[i as int].title,
                                ) == j);
                                assert(consumed(olds, post, j));
                            } else {
                                if consumed(olds, post, j) && !consumed(olds, pre, j) {
                                    let w = choose|w: int|
                                        0 <= w < post.len() && has_title(olds, post[w].title)
                                            && title_index(olds, post[w].title) == j;
                                    assert(w == i);
                                    assert(false);
                                }
                            }
                        },
                        None => {
                            if consumed(olds, post, j) && !consumed(olds, pre, j) {
                                let w = choose|w: int|
                                    0 <= w < post.len() && has_title(olds, post[w].title)
                                        && title_index(olds, post[w].title) == j;
                                assert(w == i);
                                assert(false);
                            }
                        },
                    }
                }
            }
            i += 1;
        }
        proof {
            assert(news.take(oy@.len() as int) =~= news);
            assert(merged_new_part(olds, news, old_len).take(news.len() as int)
                =~= merged_new_part(olds, news, old_len));
        }
        let mut j: usize = 0;
        while j < self.y.len()
            invariant
                j <= self.y@.len(),
                olds == models(self.y@),
                forall|k: int| 0 <= k < olds.len() ==> (#[trigger] olds[k]).values.len() == old_len,
                old_len == old_n as int,
                new_len == new_n as int,
                used@.len() == olds.len(),
                forall|k: int| 0 <= k < olds.len() ==> (#[trigger] used@[k] == consumed(olds, news, k)),
                models(merged@) + kept_from(olds, news, j as int, new_len) =~= merge_models(
                    olds,
                    news,
                    old_len,
                    new_len,
                ),
            decreases self.y@.len() - j,
        {
            if !used[j] {
                let t2 = self.y[j].title.clone();
                let mut vals = copy_values(&self.y[j].values);
                proof {
                    assert(models(self.y@)[j as int] == self.y@[j as int]@);
                    assert(vals@ == olds[j as int].values);
                }
                extend_missing(&mut vals, new_n);
                let ghost mprev = merged@;
                merged.push(Series { title: t2, values: vals });
                proof {
                    assert(!consumed(olds, news, j as int));
                    assert(models(merged@) =~= models(mprev).push(padded(olds[j as int], new_len)));
                    assert(kept_from(olds, news, j as int, new_len) == seq![
                        padded(olds[j as int], new_len),
                    ] + kept_from(olds, news, j + 1 as int, new_len));
                    assert(models(mprev).push(padded(olds[j as int], new_len)) + kept_from(
                        olds,
                        news,
                        j + 1 as int,
                        new_len,
                    ) =~= models(mprev) + kept_from(olds, news, j as int, new_len));
                }
            } else {
                proof {
                    assert(consumed(olds, news, j as int));
                    assert(kept_from(olds, news, j as int, new_len) == kept_from(
                        olds,
                        news,
                        j + 1 as int,
                        new_len,
                    ));
                }
            }
            j += 1;
        }
        proof {
            assert(kept_from(olds, news, self.y@.len() as int, new_len) =~= Seq::<
                SeriesModel,
            >::empty());
            assert(models(merged@) + kept_from(olds, news, self.y@.len() as int, new_len)
                =~= models(merged@));
            assert(models(merged@) =~= merge_models(olds, news, old_len, new_len));
            lemma_merge_lengths(olds, news, old_len, new_len);
            lemma_kept_from(olds, news, 0, new_len);
            assert(merged@.len() == models(merged@).len());
            assert(merged@.len() <= news.len() + olds.len());
        }
        self.y = merged;
        self.order_by();
        proof {
            assert forall|k: int| 0 <= k < self.y@.len() implies (#[trigger] self.y@[k])@.values.len()
                == old_len + new_len by {
                let mm = merge_models(olds, news, old_len, new_len);
                assert(models(self.y@)[k] == self.y@[k]@);
                assert(mm.contains(self.y@[k]@));
                let w = choose|w: int| 0 <= w < mm.len() && mm[w] == self.y@[k]@;
                assert(mm[w].values.len() == old_len + new_len);
            }
            assert(self.wf());
        }
    }
}

/// Length of every merged series, and where kept old series can come
/// from: supporting facts for the union-merge law.
proof fn lemma_kept_from(olds: Seq<SeriesModel>, news: Seq<SeriesModel>, j: int, new_len: int)
    ensures
        kept_from(olds, news, j, new_len).len() <= olds.len(),
        0 <= j <= olds.len() ==> kept_from(olds, news, j, new_len).len() <= olds.len() - j,
        forall|k: int|
            #![trigger kept_from(olds, news, j, new_len)[k]]
            0 <= k < kept_from(olds, news, j, new_len).len() ==> exists|w: int|
                #![trigger padded(olds[w], new_len)]
                j <= w < olds.len() && !consumed(olds, news, w) && kept_from(olds, news, j, new_len)[k]
                    == padded(olds[w], new_len),
    decreases olds.len() - j,
{
    if 0 <= j < olds.len() {
        lemma_kept_from(olds, news, j + 1, new_len);
        let cur = kept_from(olds, news, j, new_len);
        let rest = kept_from(olds, news, j + 1, new_len);
        if consumed(olds, news, j) {
            assert(cur == rest);
            assert forall|k: int| #![trigger cur[k]] 0 <= k < cur.len() implies exists|w: int|
                #![trigger padded(olds[w], new_len)]
                j <= w < olds.len() && !consumed(olds, news, w) && cur[k] == padded(
                    olds[w],
                    new_len,
                ) by {
                assert(cur[k] == rest[k]);
                let w = choose|w: int|
                    #![trigger padded(olds[w], new_len)]
                    j + 1 <= w < olds.len() && !consumed(olds, news, w) && rest[k] == padded(
                        olds[w],
                        new_len,
                    );
                assert(j <= w < olds.len() && !consumed(olds, news, w) && cur[k] == padded(
                    olds[w],
                    new_len,
                ));
            }
        } else {
            assert forall|k: int| #![trigger cur[k]] 0 <= k < cur.len() implies exists|w: int|
                #![trigger padded(olds[w], new_len)]
                j <= w < olds.len() && !consumed(olds, news, w) && cur[k] == padded(
                    olds[w],
                    new_len,
                ) by {
                if k == 0 {
                    assert(cur[0] == padded(olds[j], new_len));
                } else {
                    assert(cur[k] == rest[k - 1]);
                    let w = choose|w: int|
                        #![trigger padded(olds[w], new_len)]
                        j + 1 <= w < olds.len() && !consumed(olds, news, w) && rest[k - 1]
                            == padded(olds[w], new_len);
                    assert(j <= w < olds.len() && !consumed(olds, news, w) && cur[k] == padded(
                        olds[w],
                        new_len,
                    ));
                }
            }
        }
    }
}

proof fn lemma_merge_lengths(olds: Seq<SeriesModel>, news: Seq<SeriesModel>, old_len: int, new_len: int)
    requires
        forall|k: int| 0 <= k < olds.len() ==> (#[trigger] olds[k]).values.len() == old_len,
        forall|k: int| 0 <= k < news.len() ==> (#[trigger] news[k]).values.len() == new_len,
        old_len >= 0,
        new_len >= 0,
    ensures
        forall|k: int|
            0 <= k < merge_models(olds, news, old_len, new_len).len() ==> (
            #[trigger] merge_models(olds, news, old_len, new_len)[k]).values.len() == old_len
                + new_len,
{
    let mm = merge_models(olds, news, old_len, new_len);
    let fresh = merged_new_part(olds, news, old_len);
    lemma_kept_from(olds, news, 0, new_len);
    assert forall|k: int| 0 <= k < mm.len() implies (#[trigger] mm[k]).values.len() == old_len
        + new_len by {
        if k < fresh.len() {
            assert(mm[k] == fresh[k]);
            lemma_title_index(olds, news[k].title);
        } else {
            assert(mm[k] == kept_from(olds, news, 0, new_len)[k - fresh.len()]);
        }
    }
}

/// Union-merge law: after the merge (before reordering), every series
/// has length `old_len + new_len`; the first entries are the incoming
/// series in arrival order, carrying the same-titled old values
/// verbatim as prefix (missing-data padding when the title is new) and
/// their own values as suffix; the remaining entries are exactly the
/// old series no incoming title consumed, padded with missing samples
/// over the new span.
pub proof fn lemma_append_set_union(
    olds: Seq<SeriesModel>,
    news: Seq<SeriesModel>,
    old_len: int,
    new_len: int,
)
    requires
        forall|k: int| 0 <= k < olds.len() ==> (#[trigger] olds[k]).values.len() == old_len,
        forall|k: int| 0 <= k < news.len() ==> (#[trigger] news[k]).values.len() == new_len,
        old_len >= 0,
        new_len >= 0,
    ensures
        merge_models(olds, news, old_len, new_len).len() >= news.len(),
        forall|k: int|
            0 <= k < merge_models(olds, news, old_len, new_len).len() ==> (
            #[trigger] merge_models(olds, news, old_len, new_len)[k]).values.len() == old_len
                + new_len,
        forall|i: int|
            0 <= i < news.len() ==> (#[trigger] merge_models(olds, news, old_len, new_len)[i]).title
                == news[i].title,
        forall|i: int|
            0 <= i < news.len() ==> (#[trigger] merge_models(olds, news, old_len, new_len)[i]).values
                == old_prefix(olds, news[i].title, old_len) + news[i].values,
        forall|k: int|
            #![trigger merge_models(olds, news, old_len, new_len)[k]]
            news.len() <= k < merge_models(olds, news, old_len, new_len).len() ==> exists|w: int|
                #![trigger padded(olds[w], new_len)]
                0 <= w < olds.len() && !consumed(olds, news, w) && merge_models(
                    olds,
                    news,
                    old_len,
                    new_len,
                )[k] == padded(olds[w], new_len),
{
    let mm = merge_models(olds, news, old_len, new_len);
    let fresh = merged_new_part(olds, news, old_len);
    lemma_merge_lengths(olds, news, old_len, new_len);
    lemma_kept_from(olds, news, 0, new_len);
    assert forall|k: int| #![trigger mm[k]] news.len() <= k < mm.len() implies exists|w: int|
        #![trigger padded(olds[w], new_len)]
        0 <= w < olds.len() && !consumed(olds, news, w) && mm[k] == padded(olds[w], new_len) by {
        assert(mm[k] == kept_from(olds, news, 0, new_len)[k - fresh.len()]);
    }
}

} // verus!
