//! Viewport state for one screen dimension and the controller that
//! clamps it against the current data length and view size.

use vstd::prelude::*;

verus! {

/// Largest data size, view size or navigation delta the controller
/// accepts; keeps every intermediate offset/cursor computation well
/// inside `i64`.
pub const SIZE_BOUND: i64 = 0x1000_0000_0000;

/// Cursor position of a fresh window: far to the right, so that the
/// first adjustment pins the cursor to the last visible column.
pub const FRESH_CURSOR: i64 = 1048576;

/// Scroll state of one screen dimension. `offset` is the index of the
/// data element shown at the leftmost cell; `cursor` is the selected
/// cell relative to the left border of the view.
#[derive(Clone, Copy, Debug, PartialEq, Eq, Structural)]
pub struct Window {
    pub offset: i64,
    pub cursor: i64,
}

/// Mathematical model of a `Window`.
pub struct WinView {
    pub offset: int,
    pub cursor: int,
}

impl View for Window {
    type V = WinView;

    open spec fn view(&self) -> WinView {
        WinView { offset: self.offset as int, cursor: self.cursor as int }
    }
}

impl Default for Window {
    fn default() -> (w: Window)
        ensures
            w.offset == 0,
            w.cursor == FRESH_CURSOR,
    {
        Window { offset: 0, cursor: FRESH_CURSOR }
    }
}

pub open spec fn spec_max(a: int, b: int) -> int {
    if a >= b {
        a
    } else {
        b
    }
}

pub open spec fn spec_min(a: int, b: int) -> int {
    if a <= b {
        a
    } else {
        b
    }
}

/// Ranges in which the controller keeps a window; `Window::default`
/// satisfies it and every adjustment preserves it.
pub open spec fn win_ok(w: WinView) -> bool {
    &&& 0 <= w.offset <= SIZE_BOUND
    &&& -1 <= w.cursor <= SIZE_BOUND
}

pub open spec fn bounds_ok(data_size: int, view_size: int) -> bool {
    &&& 0 <= data_size <= SIZE_BOUND
    &&& 0 <= view_size <= SIZE_BOUND
}

/// Transition of `set_cursor`: clamp the requested cursor `c` to
/// `[-offset, data_size - offset - 1]`; a negative result scrolls the
/// window left, one at or past `view_size` scrolls it right. Returns
/// the new window and whether anything changed.
pub open spec fn cursor_adjust(w: WinView, data_size: int, view_size: int, c: int) -> (WinView, bool) {
    let cc = spec_max(-w.offset, spec_min(c, data_size - w.offset - 1));
    if cc < 0 {
        (WinView { offset: w.offset + cc, cursor: 0 }, true)
    } else if cc >= view_size {
        (WinView { offset: w.offset + cc - (view_size - 1), cursor: view_size - 1 }, true)
    } else if cc != w.cursor {
        (WinView { offset: w.offset, cursor: cc }, true)
    } else {
        (w, false)
    }
}

/// Transition of `set_offset`: first the cursor is re-validated (a
/// `move_cursor(0)` on the incoming state), then the requested offset
/// is clamped to `[0, data_size - view_size]`. When the clamped offset
/// differs the move reports `true`; otherwise it reports whatever the
/// cursor re-validation reported.
pub open spec fn offset_adjust(w: WinView, data_size: int, view_size: int, o: int) -> (WinView, bool) {
    let step = cursor_adjust(w, data_size, view_size, w.cursor);
    let oo = spec_max(spec_min(data_size - view_size, o), 0);
    if oo != step.0.offset {
        (WinView { offset: oo, cursor: step.0.cursor }, true)
    } else {
        step
    }
}

/// Transition of `on_data`: a no-op offset move then a no-op cursor
/// move, each used purely for clamping against the new bounds. Also
/// yields what each of the two sub-moves reported.
pub open spec fn data_adjust(w: WinView, data_size: int, view_size: int) -> (WinView, bool, bool) {
    let first = offset_adjust(w, data_size, view_size, w.offset);
    let second = cursor_adjust(first.0, data_size, view_size, first.0.cursor);
    (second.0, first.1, second.1)
}

/// Short-lived controller: the window under adjustment together with
/// the current data length and view size.
pub struct WindowAdjust {
    pub data_size: i64,
    pub view_size: i64,
    pub window: Window,
}

impl WindowAdjust {
    pub open spec fn wf(&self) -> bool {
        &&& bounds_ok(self.data_size as int, self.view_size as int)
        &&& win_ok(self.window@)
    }

    pub open spec fn spec_data_size(&self) -> int {
        self.data_size as int
    }

    pub open spec fn spec_view_size(&self) -> int {
        self.view_size as int
    }

    pub fn new(data_size: i64, view_size: i64, window: Window) -> (m: WindowAdjust)
        requires
            bounds_ok(data_size as int, view_size as int),
            win_ok(window@),
        ensures
            m.wf(),
            m.spec_data_size() == data_size as int,
            m.spec_view_size() == view_size as int,
            m.window == window,
    {
        WindowAdjust { data_size, view_size, window }
    }

    pub fn set_cursor(&mut self, c: i64) -> (moved: bool)
        requires
            old(self).wf(),
            -3 * SIZE_BOUND <= c <= 3 * SIZE_BOUND,
        ensures
            final(self).wf(),
            final(self).spec_data_size() == old(self).spec_data_size(),
            final(self).spec_view_size() == old(self).spec_view_size(),
            (final(self).window@, moved) == cursor_adjust(
                old(self).window@,
                old(self).spec_data_size(),
                old(self).spec_view_size(),
                c as int,
            ),
    {
        let upper = self.data_size - self.window.offset - 1;
        let mut cc = if c <= upper {
            c
        } else {
            upper
        };
        if cc < -self.window.offset {
            cc = -self.window.offset;
        }
        if cc < 0 {
            self.window.cursor = 0;
            self.window.offset = self.window.offset + cc;
            true
        } else if cc >= self.view_size {
            self.window.cursor = self.view_size - 1;
            self.window.offset = self.window.offset + cc - self.window.cursor;
            true
        } else if cc != self.window.cursor {
            self.window.cursor = cc;
            true
        } else {
            false
        }
    }

    pub fn move_cursor(&mut self, delta: i64) -> (moved: bool)
        requires
            old(self).wf(),
            -2 * SIZE_BOUND <= delta <= 2 * SIZE_BOUND,
        ensures
            final(self).wf(),
            final(self).spec_data_size() == old(self).spec_data_size(),
            final(self).spec_view_size() == old(self).spec_view_size(),
            (final(self).window@, moved) == cursor_adjust(
                old(self).window@,
                old(self).spec_data_size(),
                old(self).spec_view_size(),
                old(self).window@.cursor + delta,
            ),
    {
        let c = self.window.cursor + delta;
        self.set_cursor(c)
    }

    pub fn cursor_end(&mut self) -> (moved: bool)
        requires
            old(self).wf(),
        ensures
            final(self).wf(),
            final(self).spec_data_size() == old(self).spec_data_size(),
            final(self).spec_view_size() == old(self).spec_view_size(),
            (final(self).window@, moved) == cursor_adjust(
                old(self).window@,
                old(self).spec_data_size(),
                old(self).spec_view_size(),
                old(self).spec_view_size() - 1,
            ),
    {
        let c = self.view_size - 1;
        self.set_cursor(c)
    }

    pub fn cursor_begin(&mut self) -> (moved: bool)
        requires
            old(self).wf(),
        ensures
            final(self).wf(),
            final(self).spec_data_size() == old(self).spec_data_size(),
            final(self).spec_view_size() == old(self).spec_view_size(),
            (final(self).window@, moved) == cursor_adjust(
                old(self).window@,
                old(self).spec_data_size(),
                old(self).spec_view_size(),
                0,
            ),
    {
        self.set_cursor(0)
    }

    pub fn set_offset(&mut self, o: i64) -> (moved: bool)
        requires
            old(self).wf(),
            -3 * SIZE_BOUND <= o <= 3 * SIZE_BOUND,
        ensures
            final(self).wf(),
            final(self).spec_data_size() == old(self).spec_data_size(),
            final(self).spec_view_size() == old(self).spec_view_size(),
            (final(self).window@, moved) == offset_adjust(
                old(self).window@,
                old(self).spec_data_size(),
                old(self).spec_view_size(),
                o as int,
            ),
    {
        let cursor_moved = self.move_cursor(0);
        let limit = self.data_size - self.view_size;
        let mut oo = if o <= limit {
            o
        } else {
            limit
        };
        if oo < 0 {
            oo = 0;
        }
        if oo != self.window.offset {
            self.window.offset = oo;
            true
        } else {
            cursor_moved
        }
    }

    pub fn move_offset(&mut self, delta: i64) -> (moved: bool)
        requires
            old(self).wf(),
            -2 * SIZE_BOUND <= delta <= 2 * SIZE_BOUND,
        ensures
            final(self).wf(),
            final(self).spec_data_size() == old(self).spec_data_size(),
            final(self).spec_view_size() == old(self).spec_view_size(),
            (final(self).window@, moved) == offset_adjust(
                old(self).window@,
                old(self).spec_data_size(),
                old(self).spec_view_size(),
                old(self).window@.offset + delta,
            ),
    {
        let o = self.window.offset + delta;
        self.set_offset(o)
    }

    pub fn begin(&mut self) -> (moved: bool)
        requires
            old(self).wf(),
        ensures
            final(self).wf(),
            final(self).spec_data_size() == old(self).spec_data_size(),
            final(self).spec_view_size() == old(self).spec_view_size(),
            (final(self).window@, moved) == offset_adjust(
                old(self).window@,
                old(self).spec_data_size(),
                old(self).spec_view_size(),
                0,
            ),
    {
        self.set_offset(0)
    }

    pub fn end(&mut self) -> (moved: bool)
        requires
            old(self).wf(),
        ensures
            final(self).wf(),
            final(self).spec_data_size() == old(self).spec_data_size(),
            final(self).spec_view_size() == old(self).spec_view_size(),
            (final(self).window@, moved) == offset_adjust(
                old(self).window@,
                old(self).spec_data_size(),
                old(self).spec_view_size(),
                old(self).spec_data_size() - old(self).spec_view_size(),
            ),
    {
        let o = self.data_size - self.view_size;
        self.set_offset(o)
    }

    pub fn pageup(&mut self) -> (moved: bool)
        requires
            old(self).wf(),
        ensures
            final(self).wf(),
            final(self).spec_data_size() == old(self).spec_data_size(),
            final(self).spec_view_size() == old(self).spec_view_size(),
            (final(self).window@, moved) == offset_adjust(
                old(self).window@,
                old(self).spec_data_size(),
                old(self).spec_view_size(),
                old(self).window@.offset - old(self).spec_view_size(),
            ),
    {
        let delta = -self.view_size;
        self.move_offset(delta)
    }

    pub fn pagedown(&mut self) -> (moved: bool)
        requires
            old(self).wf(),
        ensures
            final(self).wf(),
            final(self).spec_data_size() == old(self).spec_data_size(),
            final(self).spec_view_size() == old(self).spec_view_size(),
            (final(self).window@, moved) == offset_adjust(
                old(self).window@,
                old(self).spec_data_size(),
                old(self).spec_view_size(),
                old(self).window@.offset + old(self).spec_view_size(),
            ),
    {
        let delta = self.view_size;
        self.move_offset(delta)
    }

    pub fn halfpageup(&mut self) -> (moved: bool)
        requires
            old(self).wf(),
        ensures
            final(self).wf(),
            final(self).spec_data_size() == old(self).spec_data_size(),
            final(self).spec_view_size() == old(self).spec_view_size(),
            (final(self).window@, moved) == offset_adjust(
                old(self).window@,
                old(self).spec_data_size(),
                old(self).spec_view_size(),
                old(self).window@.offset - old(self).spec_view_size() / 2,
            ),
    {
        let half = ((self.view_size as u64) / 2) as i64;
        let delta = -half;
        self.move_offset(delta)
    }

    pub fn halfpagedown(&mut self) -> (moved: bool)
        requires
            old(self).wf(),
        ensures
            final(self).wf(),
            final(self).spec_data_size() == old(self).spec_data_size(),
            final(self).spec_view_size() == old(self).spec_view_size(),
            (final(self).window@, moved) == offset_adjust(
                old(self).window@,
                old(self).spec_data_size(),
                old(self).spec_view_size(),
                old(self).window@.offset + old(self).spec_view_size() / 2,
            ),
    {
        let half = ((self.view_size as u64) / 2) as i64;
        self.move_offset(half)
    }

    /// Runs on new data arrival: with a different (or even empty)
    /// dataset, offset and cursor might not be valid anymore.
    pub fn on_data(&mut self)
        requires
            old(self).wf(),
        ensures
            final(self).wf(),
            final(self).spec_data_size() == old(self).spec_data_size(),
            final(self).spec_view_size() == old(self).spec_view_size(),
            final(self).window@ == data_adjust(
                old(self).window@,
                old(self).spec_data_size(),
                old(self).spec_view_size(),
            ).0,
    {
        self.move_offset(0);
        self.move_cursor(0);
    }
}

/// With a single data element the cursor can only rest on position 0:
/// whatever cursor move is requested, the clamped cursor lands there.
pub proof fn lemma_cursor_pinned_on_unit_data(w: WinView, view_size: int, c: int)
    requires
        0 <= w.offset,
        1 <= view_size,
    ensures
        cursor_adjust(w, 1, view_size, c).0.cursor == 0,
{
}

/// Re-validating a window against unchanged bounds twice is the same
/// as doing it once, and the second pass reports no change from either
/// of its two sub-moves. A zero-wide view is excluded: there the clamp
/// has no resting cursor cell and keeps toggling.
pub proof fn lemma_on_data_idempotent(w: WinView, data_size: int, view_size: int)
    requires
        win_ok(w),
        bounds_ok(data_size, view_size),
        1 <= view_size,
    ensures
        data_adjust(data_adjust(w, data_size, view_size).0, data_size, view_size)
            == (data_adjust(w, data_size, view_size).0, false, false),
{
}

} // verus!
