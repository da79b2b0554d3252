//! An ordered sequence of dataset epochs with a navigable current
//! pointer, used in batch mode. A fresh history holds one empty
//! placeholder epoch; the first real dataset replaces it instead of
//! appending, so no artificial empty first epoch remains.

use vstd::prelude::*;
use vstd::pervasive::VecAdditionalExecFns;
use crate::series::{append_slice_rel, SeriesSet, Slice};
use crate::window::SIZE_BOUND;

verus! {

pub struct History {
    pub sets: Vec<SeriesSet>,
    pub index: usize,
    pub empty: bool,
}

impl History {
    /// There is always at least one epoch and the pointer stays in
    /// range.
    pub open spec fn wf(&self) -> bool {
        &&& self.sets@.len() >= 1
        &&& self.index < self.sets@.len()
        &&& forall|i: int| 0 <= i < self.sets@.len() ==> (#[trigger] self.sets@[i]).wf()
    }

    pub fn new() -> (h: History)
        ensures
            h.wf(),
            h.sets@.len() == 1,
            h.sets@[0].x is None,
            h.sets@[0].y@.len() == 0,
            h.index == 0,
            h.empty,
    {
        let mut sets: Vec<SeriesSet> = Vec::new();
        sets.push(SeriesSet::default());
        History { sets, index: 0, empty: true }
    }

    pub fn current(&self) -> (r: &SeriesSet)
        requires
            self.wf(),
        ensures
            r == self.sets@[self.index as int],
    {
        &self.sets[self.index]
    }

    /// Moves the pointer one epoch forward; reports whether it moved.
    pub fn forward(&mut self) -> (moved: bool)
        requires
            old(self).wf(),
        ensures
            final(self).wf(),
            final(self).sets == old(self).sets,
            final(self).empty == old(self).empty,
            moved == (old(self).index + 1 < old(self).sets@.len()),
            final(self).index == (if moved {
                old(self).index + 1
            } else {
                old(self).index as int
            }),
    {
        let n = self.sets.len();
        if self.index + 1 < n {
            self.index = self.index + 1;
            return true;
        }
        false
    }

    /// Moves the pointer one epoch back; reports whether it moved.
    pub fn backward(&mut self) -> (moved: bool)
        requires
            old(self).wf(),
        ensures
            final(self).wf(),
            final(self).sets == old(self).sets,
            final(self).empty == old(self).empty,
            moved == (old(self).index > 0),
            final(self).index == (if moved {
                old(self).index - 1
            } else {
                old(self).index as int
            }),
    {
        if self.index > 0 {
            self.index = self.index - 1;
            return true;
        }
        false
    }

    /// Jumps to the newest epoch; reports whether that was a move.
    pub fn last(&mut self) -> (moved: bool)
        requires
            old(self).wf(),
        ensures
            final(self).wf(),
            final(self).sets == old(self).sets,
            final(self).empty == old(self).empty,
            moved == (old(self).index + 1 != old(self).sets@.len()),
            final(self).index == (if moved {
                old(self).sets@.len() - 1
            } else {
                old(self).index as int
            }),
    {
        let n = self.sets.len();
        if self.index + 1 != n {
            self.index = n - 1;
            return true;
        }
        false
    }

    /// Appends one slice to the epoch at the pointer.
    pub fn append_slice(&mut self, s: Slice)
        requires
            old(self).wf(),
            old(self).sets@[old(self).index as int].spec_series_size() < SIZE_BOUND,
        ensures
            final(self).wf(),
            final(self).index == old(self).index,
            !final(self).empty,
            final(self).sets@.len() == old(self).sets@.len(),
            append_slice_rel(
                old(self).sets@[old(self).index as int],
                s,
                final(self).sets@[old(self).index as int],
            ),
            forall|i: int|
                0 <= i < old(self).sets@.len() && i != old(self).index ==> final(self).sets@[i]
                    == (#[trigger] old(self).sets@[i]),
    {
        let i = self.index;
        let mut cur = SeriesSet { x: None, y: Vec::new() };
        self.sets.set_and_swap(i, &mut cur);
        cur.append_slice(s);
        self.sets.set_and_swap(i, &mut cur);
        self.empty = false;
    }

    /// Replaces the epoch at the pointer wholesale.
    pub fn replace_current(&mut self, s: SeriesSet)
        requires
            old(self).wf(),
            s.wf(),
        ensures
            final(self).wf(),
            final(self).index == old(self).index,
            !final(self).empty,
            final(self).sets@ == old(self).sets@.update(old(self).index as int, s),
    {
        let i = self.index;
        self.sets.set(i, s);
        self.empty = false;
    }

    /// Pushes a new epoch; the first real dataset replaces the
    /// initial placeholder instead.
    pub fn append(&mut self, set: SeriesSet)
        requires
            old(self).wf(),
            set.wf(),
            old(self).sets@.len() < SIZE_BOUND,
        ensures
            final(self).wf(),
            !final(self).empty,
            old(self).empty ==> final(self).sets@ == old(self).sets@.update(
                old(self).index as int,
                set,
            ) && final(self).index == old(self).index,
            !old(self).empty ==> final(self).sets@ == old(self).sets@.push(set)
                && final(self).index == old(self).index,
    {
        if self.empty {
            self.replace_current(set);
        } else {
            self.sets.push(set);
        }
    }
}

} // verus!
