//! Schema: how one raw input row is turned into the internal format.
//! A header row is partitioned into at most one X-label column and an
//! ordered list of series titles; every later row is parsed
//! positionally into one `Slice`.

use vstd::prelude::*;
use crate::metric_parse::{parse_sample, parse_sample_spec};
use crate::sample::Sample;
use crate::series::{Series, SeriesSet, Slice};
use crate::settings::{col_matches, Column};
use crate::text::{lemma_split_count, split_seq, split_str};
use crate::window::SIZE_BOUND;

verus! {

/// The designated X column: its title and its position in the row.
pub struct ColumnSchema {
    pub title: String,
    pub index: usize,
}

impl ColumnSchema {
    pub fn new(title: String, index: usize) -> (c: ColumnSchema)
        ensures
            c.title == title,
            c.index == index,
    {
        ColumnSchema { title, index }
    }
}

/// Position of the last header field the selector designates, if any;
/// a later match supersedes an earlier one.
pub open spec fn last_x_match(c: &Column, parts: Seq<Seq<char>>) -> Option<int>
    decreases parts.len(),
{
    if parts.len() == 0 {
        None
    } else if col_matches(c, parts.last(), parts.len() - 1) {
        Some((parts.len() - 1) as int)
    } else {
        last_x_match(c, parts.drop_last())
    }
}

/// The header fields the selector does not designate, in order: the
/// series titles.
pub open spec fn kept_titles(c: &Column, parts: Seq<Seq<char>>) -> Seq<Seq<char>>
    decreases parts.len(),
{
    if parts.len() == 0 {
        Seq::empty()
    } else {
        let rest = kept_titles(c, parts.drop_last());
        if col_matches(c, parts.last(), parts.len() - 1) {
            rest
        } else {
            rest.push(parts.last())
        }
    }
}

/// Schema: the optional X column and the ordered series titles taken
/// from a header row.
pub struct Schema {
    pub x: Option<ColumnSchema>,
    pub titles: Vec<String>,
}

impl Schema {
    pub open spec fn spec_titles(&self) -> Seq<Seq<char>> {
        self.titles@.map_values(|t: String| t@)
    }

    pub open spec fn spec_x_index(&self) -> Option<int> {
        match self.x {
            Some(cs) => Some(cs.index as int),
            None => None,
        }
    }

    pub open spec fn wf(&self) -> bool {
        self.titles@.len() <= SIZE_BOUND
    }

    fn default() -> (s: Schema)
        ensures
            s.x is None,
            s.titles@ == Seq::<String>::empty(),
    {
        Schema { x: None, titles: Vec::new() }
    }

    /// Partitions already-split header fields by the X selector.
    #[verifier::loop_isolation(false)]
    pub fn from_title_range(x: &Column, titles: &Vec<String>) -> (s: Schema)
        requires
            titles@.len() <= SIZE_BOUND,
        ensures
            s.wf(),
            s.spec_titles() == kept_titles(x, titles@.map_values(|t: String| t@)),
            match last_x_match(x, titles@.map_values(|t: String| t@)) {
                Some(i) => s.x matches Some(cs) && cs.index == i && cs.title@
                    == titles@.map_values(|t: String| t@)[i],
                None => s.x is None,
            },
    {
        let ghost parts = titles@.map_values(|t: String| t@);
        let mut res = Schema::default();
        let mut i: usize = 0;
        while i < titles.len()
            invariant
                i <= titles@.len(),
                res.titles@.len() <= i,
                res.titles@.map_values(|t: String| t@) =~= kept_titles(x, parts.take(i as int)),
                match last_x_match(x, parts.take(i as int)) {
                    Some(ix) => res.x matches Some(cs) && cs.index == ix && cs.title@ == parts[ix],
                    None => res.x is None,
                },
            decreases titles@.len() - i,
        {
            proof {
                assert(parts.take(i + 1 as int).drop_last() =~= parts.take(i as int));
                assert(parts.take(i + 1 as int).last() == parts[i as int]);
            }
            let t = &titles[i];
            if x.matches(t.as_str(), i) {
                res.x = Some(ColumnSchema::new(t.clone(), i));
            } else {
                res.titles.push(t.clone());
            }
            i += 1;
        }
        proof {
            assert(parts.take(titles@.len() as int) =~= parts);
        }
        res
    }

    /// Builds the schema from a comma-separated header line.
    pub fn from_titles(x: &Column, titles: &str) -> (s: Schema)
        requires
            titles@.len() < SIZE_BOUND,
        ensures
            s.wf(),
            s.spec_titles() == kept_titles(x, split_seq(titles@, seq![','])),
            match last_x_match(x, split_seq(titles@, seq![','])) {
                Some(i) => s.x matches Some(cs) && cs.index == i && cs.title@ == split_seq(
                    titles@,
                    seq![','],
                )[i],
                None => s.x is None,
            },
    {
        proof {
            reveal_strlit(",");
            assert(","@ =~= seq![',']);
            lemma_split_count(titles@, seq![',']);
        }
        let parts = split_str(titles, ",");
        proof {
            assert(parts@.map_values(|t: String| t@) == split_seq(titles@, seq![',']));
        }
        Schema::from_title_range(x, &parts)
    }

    /// A stub of a dataset: one empty series per title, and the empty
    /// label column when an X column is designated.
    #[verifier::loop_isolation(false)]
    pub fn empty_set(&self) -> (r: SeriesSet)
        requires
            self.wf(),
        ensures
            r.wf(),
            r.aligned(),
            r.spec_series_size() == 0,
            r.y@.len() == self.titles@.len(),
            forall|i: int|
                0 <= i < self.titles@.len() ==> (#[trigger] r.y@[i])@.title == self.spec_titles()[i]
                    && r.y@[i]@.values.len() == 0,
            match self.x {
                Some(cs) => r.x matches Some(p) && p.0@ == cs.title@ && p.1@.len() == 0,
                None => r.x is None,
            },
    {
        let x: Option<(String, Vec<String>)> = match &self.x {
            Some(cs) => Some((cs.title.clone(), Vec::new())),
            None => None,
        };
        let mut y: Vec<Series> = Vec::new();
        let mut i: usize = 0;
        while i < self.titles.len()
            invariant
                i <= self.titles@.len(),
                y@.len() == i,
                forall|k: int|
                    0 <= k < i ==> (#[trigger] y@[k])@.title == self.spec_titles()[k]
                        && y@[k]@.values.len() == 0,
            decreases self.titles@.len() - i,
        {
            y.push(Series::with_title(self.titles[i].as_str()));
            i += 1;
        }
        let r = SeriesSet { x, y };
        proof {
            assert(r.spec_series_size() == 0);
        }
        r
    }
}

/// The row position that feeds series `i`: positions at or past the X
/// column are shifted by one.
pub open spec fn y_source(xi: Option<int>, i: int) -> int {
    match xi {
        None => i,
        Some(x) => if i < x {
            i
        } else {
            i + 1
        },
    }
}

/// The samples one row yields: one per known series title, parsed
/// best effort, `Missing` where the row is too short.
pub open spec fn row_slice_y(parts: Seq<Seq<char>>, xi: Option<int>, count: int) -> Seq<Sample> {
    Seq::new(
        count as nat,
        |i: int|
            if y_source(xi, i) < parts.len() {
                parse_sample_spec(parts[y_source(xi, i)])
            } else {
                Sample::Missing
            },
    )
}

/// The X label one row yields, when an X column is designated and the
/// row reaches it.
pub open spec fn row_slice_x(parts: Seq<Seq<char>>, xi: Option<int>) -> Option<Seq<char>> {
    match xi {
        Some(ix) => if 0 <= ix < parts.len() {
            Some(parts[ix])
        } else {
            None
        },
        None => None,
    }
}

impl Schema {
    /// Parses already-split row fields into one slice.
    #[verifier::loop_isolation(false)]
    pub fn slice_from_range(&self, row: &Vec<String>) -> (r: Slice)
        requires
            self.wf(),
        ensures
            r.y@.len() == self.titles@.len(),
            r.y@ == row_slice_y(
                row@.map_values(|t: String| t@),
                self.spec_x_index(),
                self.titles@.len() as int,
            ),
            match row_slice_x(row@.map_values(|t: String| t@), self.spec_x_index()) {
                Some(xv) => r.x matches Some(s) && s@ == xv,
                None => r.x is None,
            },
    {
        let ghost parts = row@.map_values(|t: String| t@);
        let ghost xi = self.spec_x_index();
        let mut res = Slice::default();
        match &self.x {
            Some(cs) => {
                if cs.index < row.len() {
                    res.x = Some(row[cs.index].clone());
                }
            },
            None => {},
        }
        let count = self.titles.len();
        let mut i: usize = 0;
        while i < count
            invariant
                i <= count,
                res.y@ =~= row_slice_y(parts, xi, count as int).take(i as int),
                match row_slice_x(parts, xi) {
                    Some(xv) => res.x matches Some(s) && s@ == xv,
                    None => res.x is None,
                },
            decreases count - i,
        {
            let src: usize = match &self.x {
                Some(cs) => if i < cs.index {
                    i
                } else {
                    i + 1
                },
                None => i,
            };
            let v: Sample = if src < row.len() {
                parse_sample(row[src].as_str())
            } else {
                Sample::Missing
            };
            res.y.push(v);
            proof {
                assert(row_slice_y(parts, xi, count as int).take(i + 1 as int) =~= row_slice_y(
                    parts,
                    xi,
                    count as int,
                ).take(i as int).push(row_slice_y(parts, xi, count as int)[i as int]));
            }
            i += 1;
        }
        proof {
            assert(row_slice_y(parts, xi, count as int).take(count as int) =~= row_slice_y(
                parts,
                xi,
                count as int,
            ));
        }
        res
    }

    /// Parses one comma-separated row into a slice.
    pub fn slice(&self, row: &str) -> (r: Slice)
        requires
            self.wf(),
        ensures
            r.y@.len() == self.titles@.len(),
            r.y@ == row_slice_y(
                split_seq(row@, seq![',']),
                self.spec_x_index(),
                self.titles@.len() as int,
            ),
            match row_slice_x(split_seq(row@, seq![',']), self.spec_x_index()) {
                Some(xv) => r.x matches Some(s) && s@ == xv,
                None => r.x is None,
            },
    {
        proof {
            reveal_strlit(",");
            assert(","@ =~= seq![',']);
        }
        let parts = split_str(row, ",");
        proof {
            assert(parts@.map_values(|t: String| t@) == split_seq(row@, seq![',']));
        }
        self.slice_from_range(&parts)
    }
}

} // verus!
