//! Incremental line parsers: the decision half of the fetch loop.
//! Each parser consumes one input line at a time and may yield an
//! ingestion message; the surrounding I/O loop lives outside the
//! library and only hands lines in and messages on.

use vstd::prelude::*;
use crate::schema::{kept_titles, last_x_match, row_slice_x, row_slice_y, Schema};
use crate::series::{SeriesSet, Slice};
use crate::settings::Column;
use crate::text::{split_seq, split_str};
use crate::window::SIZE_BOUND;

verus! {

/// One unit of ingestion handed to the main loop.
pub enum ReaderMessage {
    /// A whole (possibly restructured) dataset to union-merge in.
    Extend(SeriesSet),
    /// One row to append to the known series.
    Append(Slice),
    /// The input ended.
    EOF,
}

/// Parser for the comma-separated format: the first non-empty line of
/// a batch is the header, every further line a data row; an empty
/// line ends the batch.
pub struct LineReader {
    pub schema: Option<Schema>,
    pub x: Column,
}

impl LineReader {
    pub open spec fn wf(&self) -> bool {
        match self.schema {
            Some(s) => s.wf(),
            None => true,
        }
    }

    pub fn new(x: Column) -> (r: LineReader)
        ensures
            r.schema is None,
            r.x == x,
            r.wf(),
    {
        LineReader { schema: None, x }
    }

    /// Takes one line: an empty line resets the schema; the first
    /// line after a reset becomes the header and yields the fresh
    /// empty dataset; any other line yields one parsed row.
    pub fn on_line(&mut self, l: &str) -> (r: Option<ReaderMessage>)
        requires
            old(self).wf(),
            l@.len() < SIZE_BOUND,
        ensures
            final(self).wf(),
            final(self).x == old(self).x,
            l@.len() == 0 ==> final(self).schema is None && r is None,
            l@.len() > 0 && old(self).schema is None ==> ({
                let sch = final(self).schema->0;
                let parts = split_seq(l@, seq![',']);
                &&& final(self).schema is Some
                &&& sch.wf()
                &&& sch.spec_titles() == kept_titles(&old(self).x, parts)
                &&& match last_x_match(&old(self).x, parts) {
                    Some(i) => sch.x matches Some(cs) && cs.index == i,
                    None => sch.x is None,
                }
                &&& r matches Some(m) && (m matches ReaderMessage::Extend(set) && set.wf()
                    && set.spec_series_size() == 0 && set.y@.len() == sch.titles@.len() && (forall|
                    k: int,
                |
                    0 <= k < set.y@.len() ==> (#[trigger] set.y@[k])@.title == sch.spec_titles()[k]
                        && set.y@[k]@.values.len() == 0) && (sch.x is Some <==> set.x is Some))
            }),
            (l@.len() > 0 && old(self).schema is Some) ==> ({
                let sch0 = old(self).schema->0;
                let parts = split_seq(l@, seq![',']);
                &&& final(self).schema == old(self).schema
                &&& r matches Some(m) && (m matches ReaderMessage::Append(sl) && sl.y@
                    == row_slice_y(parts, sch0.spec_x_index(), sch0.titles@.len() as int) && (
                match row_slice_x(parts, sch0.spec_x_index()) {
                    Some(xv) => sl.x matches Some(s) && s@ == xv,
                    None => sl.x is None,
                }))
            }),
    {
        if l.unicode_len() == 0 {
            self.schema = None;
            return None;
        }
        let msg: Option<ReaderMessage>;
        match &self.schema {
            None => {
                let sch = Schema::from_titles(&self.x, l);
                let set = sch.empty_set();
                self.schema = Some(sch);
                msg = Some(ReaderMessage::Extend(set));
            },
            Some(sch) => {
                msg = Some(ReaderMessage::Append(sch.slice(l)));
            },
        }
        msg
    }

    /// The input ended; nothing is buffered in this format.
    pub fn on_eof(&self) -> (r: ReaderMessage)
        ensures
            r is EOF,
    {
        ReaderMessage::EOF
    }
}

/// What flushing one paired record yields: the non-X titles become
/// empty series each holding exactly its parsed value, and the X
/// column (when designated and inside the row) its one label.
pub open spec fn flushed_set(
    x: &Column,
    titles: Seq<Seq<char>>,
    values: Seq<Seq<char>>,
    set: SeriesSet,
) -> bool {
    let kept = kept_titles(x, titles);
    let xi = match last_x_match(x, titles) {
        Some(i) => Some(i),
        None => None,
    };
    &&& set.y@.len() == kept.len()
    &&& forall|k: int|
        0 <= k < kept.len() ==> (#[trigger] set.y@[k])@.title == kept[k] && set.y@[k]@.values
            == seq![row_slice_y(values, xi, kept.len() as int)[k]]
    &&& match last_x_match(x, titles) {
        Some(i) => set.x matches Some(p) && p.0@ == titles[i] && (match row_slice_x(
            values,
            Some(i),
        ) {
            Some(xv) => p.1@.len() == 1 && p.1@[0]@ == xv,
            None => p.1@.len() == 0,
        }),
        None => set.x is None,
    }
}

/// Parser for the paired format: repeated `title: value` lines, one
/// pair per line; an empty line ends one record.
pub struct PairReader {
    pub titles: Vec<String>,
    pub values: Vec<String>,
    pub x: Column,
}

impl PairReader {
    pub open spec fn wf(&self) -> bool {
        self.titles@.len() == self.values@.len()
    }

    pub fn new(x: Column) -> (r: PairReader)
        ensures
            r.wf(),
            r.titles@.len() == 0,
            r.values@.len() == 0,
            r.x == x,
    {
        PairReader { titles: Vec::new(), values: Vec::new(), x }
    }

    /// Empties the accumulated record into one dataset.
    fn flush(&mut self) -> (set: SeriesSet)
        requires
            old(self).wf(),
            old(self).titles@.len() <= SIZE_BOUND,
        ensures
            final(self).wf(),
            final(self).x == old(self).x,
            final(self).titles@.len() == 0,
            final(self).values@.len() == 0,
            set.wf(),
            flushed_set(
                &old(self).x,
                old(self).titles@.map_values(|t: String| t@),
                old(self).values@.map_values(|t: String| t@),
                set,
            ),
    {
        let sch = Schema::from_title_range(&self.x, &self.titles);
        let mut data = sch.empty_set();
        let sl = sch.slice_from_range(&self.values);
        data.append_slice(sl);
        self.titles.clear();
        self.values.clear();
        proof {
            let kept = kept_titles(
                &old(self).x,
                old(self).titles@.map_values(|t: String| t@),
            );
            assert forall|k: int| 0 <= k < kept.len() implies (#[trigger] data.y@[k])@.values
                == seq![
                row_slice_y(
                    old(self).values@.map_values(|t: String| t@),
                    match last_x_match(
                        &old(self).x,
                        old(self).titles@.map_values(|t: String| t@),
                    ) {
                        Some(i) => Some(i),
                        None => None,
                    },
                    kept.len() as int,
                )[k],
            ] by {
                assert(data.y@[k]@.values =~= seq![
                    row_slice_y(
                        old(self).values@.map_values(|t: String| t@),
                        sch.spec_x_index(),
                        sch.titles@.len() as int,
                    )[k],
                ]);
            }
        }
        data
    }

    /// Takes one line: a non-empty line may add one `title: value`
    /// pair (lines without a colon are ignored); an empty line
    /// flushes the record as a whole dataset.
    pub fn on_line(&mut self, l: &str) -> (r: Option<ReaderMessage>)
        requires
            old(self).wf(),
            old(self).titles@.len() < SIZE_BOUND,
        ensures
            final(self).wf(),
            final(self).x == old(self).x,
            l@.len() > 0 ==> r is None && ({
                let parts = split_seq(l@, seq![':']);
                if parts.len() >= 2 {
                    final(self).titles@.map_values(|t: String| t@) == old(self).titles@.map_values(
                        |t: String| t@,
                    ).push(parts[0]) && final(self).values@.map_values(|t: String| t@) == old(
                        self,
                    ).values@.map_values(|t: String| t@).push(parts[1])
                } else {
                    final(self).titles == old(self).titles && final(self).values == old(
                        self,
                    ).values
                }
            }),
            l@.len() == 0 ==> ({
                &&& final(self).titles@.len() == 0
                &&& final(self).values@.len() == 0
                &&& r matches Some(m) && (m matches ReaderMessage::Extend(set) && set.wf()
                    && flushed_set(
                    &old(self).x,
                    old(self).titles@.map_values(|t: String| t@),
                    old(self).values@.map_values(|t: String| t@),
                    set,
                ))
            }),
    {
        if l.unicode_len() == 0 {
            let set = self.flush();
            return Some(ReaderMessage::Extend(set));
        }
        proof {
            reveal_strlit(":");
            assert(":"@ =~= seq![':']);
        }
        let parts = split_str(l, ":");
        proof {
            assert(parts@.map_values(|t: String| t@) == split_seq(l@, seq![':']));
        }
        if parts.len() >= 2 {
            let t = parts[0].clone();
            let v = parts[1].clone();
            self.titles.push(t);
            self.values.push(v);
            proof {
                assert(self.titles@.map_values(|t: String| t@) =~= old(
                    self,
                ).titles@.map_values(|t: String| t@).push(split_seq(l@, seq![':'])[0]));
                assert(self.values@.map_values(|t: String| t@) =~= old(
                    self,
                ).values@.map_values(|t: String| t@).push(split_seq(l@, seq![':'])[1]));
            }
        }
        None
    }

    /// The input ended: a part-filled record still flushes; an empty
    /// buffer just reports the end.
    pub fn on_eof(&mut self) -> (r: ReaderMessage)
        requires
            old(self).wf(),
            old(self).titles@.len() <= SIZE_BOUND,
        ensures
            final(self).wf(),
            final(self).x == old(self).x,
            final(self).titles@.len() == 0,
            final(self).values@.len() == 0,
            old(self).titles@.len() == 0 ==> r is EOF,
            old(self).titles@.len() > 0 ==> (r matches ReaderMessage::Extend(set) && set.wf()
                && flushed_set(
                &old(self).x,
                old(self).titles@.map_values(|t: String| t@),
                old(self).values@.map_values(|t: String| t@),
                set,
            )),
    {
        if self.titles.len() > 0 {
            let set = self.flush();
            ReaderMessage::Extend(set)
        } else {
            ReaderMessage::EOF
        }
    }
}

} // verus!
