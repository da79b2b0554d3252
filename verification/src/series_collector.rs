//! Collector for the paired input format: titles define the schema of
//! one record, rows are parsed positionally, and the current dataset
//! can be handed out wholesale.

use vstd::prelude::*;
use vstd::pervasive::VecAdditionalExecFns;
use crate::metric_parse::parse_sample;
use crate::sample::Sample;
use crate::schema::{kept_titles, last_x_match, row_slice_y, y_source, Schema};
use crate::series::{models, Series, SeriesSet};
use crate::settings::Column;
use crate::window::SIZE_BOUND;

verus! {

/// Accumulates rows against a title schema; `xi` is the position of
/// the X column among all titles, when one is designated.
pub struct SeriesCollector {
    pub xi: Option<usize>,
    pub data: SeriesSet,
}

impl SeriesCollector {
    pub open spec fn spec_xi(&self) -> Option<int> {
        match self.xi {
            Some(k) => Some(k as int),
            None => None,
        }
    }

    pub open spec fn wf(&self) -> bool {
        &&& self.data.wf()
        &&& (self.xi is Some <==> self.data.x is Some)
    }

    pub fn default() -> (c: SeriesCollector)
        ensures
            c.wf(),
            c.xi is None,
            c.data.x is None,
            c.data.y@.len() == 0,
    {
        SeriesCollector { data: SeriesSet::default(), xi: None }
    }

    /// Builds a collector from already-split titles; the selector
    /// designates at most one of them as the X column.
    pub fn from_titles(titles: &Vec<String>, x: &Column) -> (c: SeriesCollector)
        requires
            titles@.len() <= SIZE_BOUND,
        ensures
            c.wf(),
            c.data.spec_series_size() == 0,
            c.data.aligned(),
            models(c.data.y@).map_values(|m: crate::series::SeriesModel| m.title) == kept_titles(
                x,
                titles@.map_values(|t: String| t@),
            ),
            forall|i: int| 0 <= i < c.data.y@.len() ==> (#[trigger] c.data.y@[i])@.values.len() == 0,
            match last_x_match(x, titles@.map_values(|t: String| t@)) {
                Some(i) => c.xi == Some(i as usize) && (c.data.x matches Some(p) && p.0@
                    == titles@.map_values(|t: String| t@)[i] && p.1@.len() == 0),
                None => c.xi is None && c.data.x is None,
            },
    {
        let sch = Schema::from_title_range(x, titles);
        let xi: Option<usize> = match &sch.x {
            Some(cs) => Some(cs.index),
            None => None,
        };
        let data = sch.empty_set();
        proof {
            assert(models(data.y@).map_values(|m: crate::series::SeriesModel| m.title)
                =~= sch.spec_titles());
        }
        SeriesCollector { xi, data }
    }

    /// Parses one row into the data, one value per series; the value
    /// at the X position (when inside the row) becomes a label.
    #[verifier::loop_isolation(false)]
    pub fn append(&mut self, values: &Vec<String>)
        requires
            old(self).wf(),
            old(self).data.spec_series_size() < SIZE_BOUND,
        ensures
            final(self).wf(),
            final(self).xi == old(self).xi,
            final(self).data.y@.len() == old(self).data.y@.len(),
            forall|i: int|
                0 <= i < old(self).data.y@.len() ==> (#[trigger] final(self).data.y@[i])@.title
                    == old(self).data.y@[i]@.title && final(self).data.y@[i]@.values == old(
                    self,
                ).data.y@[i]@.values.push(
                    row_slice_y(
                        values@.map_values(|t: String| t@),
                        old(self).spec_xi(),
                        old(self).data.y@.len() as int,
                    )[i],
                ),
            match old(self).data.x {
                Some(p) => {
                    if old(self).spec_xi() matches Some(k) && k < old(self).data.y@.len() && k
                        < values@.len() {
                        final(self).data.x matches Some(q) && q.0 == p.0 && q.1@ == p.1@.push(
                            values@[old(self).spec_xi()->0],
                        )
                    } else {
                        final(self).data.x == old(self).data.x
                    }
                },
                None => final(self).data.x is None,
            },
    {
        let ghost parts = values@.map_values(|t: String| t@);
        let ghost xi = self.spec_xi();
        let ghost count = self.data.y@.len() as int;
        let ghost y0 = self.data.y@;
        let ghost x0 = self.data.x;
        let n = self.data.y.len();
        let mut vi: usize = 0;
        while vi < n
            invariant
                vi <= n,
                n == self.data.y@.len(),
                self.data.y@.len() == y0.len(),
                self.data.x == x0,
                self.xi == old(self).xi,
                forall|k: int|
                    0 <= k < vi ==> (#[trigger] self.data.y@[k])@.title == y0[k]@.title
                        && self.data.y@[k]@.values == y0[k]@.values.push(
                        row_slice_y(parts, xi, count)[k],
                    ),
                forall|k: int| vi <= k < y0.len() ==> self.data.y@[k] == y0[k],
            decreases n - vi,
        {
            let src: usize = match self.xi {
                Some(k) => if vi < k {
                    vi
                } else {
                    vi + 1
                },
                None => vi,
            };
            let v: Sample = if src < values.len() {
                parse_sample(values[src].as_str())
            } else {
                Sample::Missing
            };
            proof {
                assert(row_slice_y(parts, xi, count)[vi as int] == v);
            }
            let mut tmp = Series { title: String::new(), values: Vec::new() };
            self.data.y.set_and_swap(vi, &mut tmp);
            tmp.values.push(v);
            self.data.y.set_and_swap(vi, &mut tmp);
            vi += 1;
        }
        match self.xi {
            Some(k) => {
                if k < n && k < values.len() {
                    let xv = values[k].clone();
                    match &mut self.data.x {
                        Some(p) => {
                            p.1.push(xv);
                        },
                        None => {},
                    }
                }
            },
            None => {},
        }
    }

    /// Starts a fresh record: clears every series and the labels,
    /// then takes the row.
    #[verifier::loop_isolation(false)]
    pub fn one_row(&mut self, values: &Vec<String>)
        requires
            old(self).wf(),
        ensures
            final(self).wf(),
            final(self).xi == old(self).xi,
            final(self).data.y@.len() == old(self).data.y@.len(),
            forall|i: int|
                0 <= i < old(self).data.y@.len() ==> (#[trigger] final(self).data.y@[i])@.title
                    == old(self).data.y@[i]@.title && final(self).data.y@[i]@.values == seq![
                    row_slice_y(
                        values@.map_values(|t: String| t@),
                        old(self).spec_xi(),
                        old(self).data.y@.len() as int,
                    )[i],
                ],
            match old(self).data.x {
                Some(p) => {
                    if old(self).spec_xi() matches Some(k) && k < old(self).data.y@.len() && k
                        < values@.len() {
                        final(self).data.x matches Some(q) && q.0 == p.0 && q.1@ == seq![
                            values@[old(self).spec_xi()->0],
                        ]
                    } else {
                        final(self).data.x matches Some(q) && q.0 == p.0 && q.1@
                            == Seq::<String>::empty()
                    }
                },
                None => final(self).data.x is None,
            },
    {
        match &mut self.data.x {
            Some(p) => {
                p.1.clear();
            },
            None => {},
        }
        let ghost y0 = self.data.y@;
        let ghost x1 = self.data.x;
        let n = self.data.y.len();
        let mut i: usize = 0;
        while i < n
            invariant
                i <= n,
                n == self.data.y@.len(),
                self.data.y@.len() == y0.len(),
                self.data.x == x1,
                self.xi == old(self).xi,
                forall|k: int|
                    0 <= k < i ==> (#[trigger] self.data.y@[k])@.title == y0[k]@.title
                        && self.data.y@[k]@.values.len() == 0,
                forall|k: int| i <= k < y0.len() ==> self.data.y@[k] == y0[k],
            decreases n - i,
        {
            let mut tmp = Series { title: String::new(), values: Vec::new() };
            self.data.y.set_and_swap(i, &mut tmp);
            tmp.values.clear();
            self.data.y.set_and_swap(i, &mut tmp);
            i += 1;
        }
        proof {
            assert(self.data.spec_series_size() == 0) by {
                if self.data.y@.len() > 0 {
                    assert(self.data.y@[0]@.values.len() == 0);
                }
            }
        }
        self.append(values);
        proof {
            assert forall|i: int| 0 <= i < old(self).data.y@.len() implies (
            #[trigger] final(self).data.y@[i])@.values == seq![
                row_slice_y(
                    values@.map_values(|t: String| t@),
                    old(self).spec_xi(),
                    old(self).data.y@.len() as int,
                )[i],
            ] by {
                assert(final(self).data.y@[i]@.values =~= seq![
                    row_slice_y(
                        values@.map_values(|t: String| t@),
                        old(self).spec_xi(),
                        old(self).data.y@.len() as int,
                    )[i],
                ]);
            }
        }
    }

    /// The accumulated dataset, copied out.
    pub fn current(&self) -> (r: SeriesSet)
        ensures
            models(r.y@) == models(self.data.y@),
            match self.data.x {
                Some(p) => r.x matches Some(q) && q.0 == p.0 && q.1@ == p.1@,
                None => r.x is None,
            },
            self.data.wf() ==> r.wf(),
    {
        self.data.duplicate()
    }
}

} // verus!
