//! The orchestrating state: the live dataset, the two viewport
//! windows (X over data points, Y over series), the optional scale
//! configuration, the pause flag, and the reaction to ingestion and
//! input events.

use vstd::prelude::*;
use crate::scale_config::{cfg_models, entries_ok, scales_config_models, ScalesConfig};
use crate::series::{append_set_rel, append_slice_rel, SeriesSet, Slice};
use crate::settings::Settings;
use crate::text::split_seq;
use crate::window::{
    bounds_ok,
    cursor_adjust,
    data_adjust,
    offset_adjust,
    win_ok,
    Window,
    WindowAdjust,
    FRESH_CURSOR,
    SIZE_BOUND,
};

verus! {

/// A decoded keyboard event, as the dispatcher understands it.
#[derive(Debug, Clone, Copy, PartialEq, Eq, Structural)]
pub enum KeyInput {
    Up,
    Down,
    Left,
    Right,
    Char(char),
    Ctrl(char),
    Other,
}

/// A decoded mouse event.
#[derive(Debug, Clone, Copy, PartialEq, Eq, Structural)]
pub enum MouseButtonInput {
    Left,
    WheelUp,
    WheelDown,
    Other,
}

/// What a key press caused: whether the screen needs a redraw, and
/// whether the fetch loop should be asked to pause.
#[derive(Debug, Clone, Copy, PartialEq, Eq, Structural)]
pub struct KeyOutcome {
    pub redraw: bool,
    pub pause_fetcher: bool,
}

pub struct State {
    pub data: SeriesSet,
    pub error_message: Option<String>,
    pub x: Window,
    pub y: Window,
    pub scales: Option<ScalesConfig>,
    pub auto: bool,
    pub show_cursor: bool,
}

/// The viewport follower applied on new data: re-clamp, and while not
/// paused jump to the end (auto-tail).
pub open spec fn tail_adjust(
    w: crate::window::WinView,
    data_size: int,
    view_size: int,
    auto: bool,
) -> crate::window::WinView {
    let stepped = data_adjust(w, data_size, view_size).0;
    if auto {
        offset_adjust(stepped, data_size, view_size, data_size - view_size).0
    } else {
        stepped
    }
}

/// Everything except the Y window is untouched.
pub open spec fn untouched_but_y(pre: State, post: State) -> bool {
    &&& post.data == pre.data
    &&& post.error_message == pre.error_message
    &&& post.x == pre.x
    &&& post.scales == pre.scales
    &&& post.auto == pre.auto
    &&& post.show_cursor == pre.show_cursor
}

/// Everything except the X window is untouched.
pub open spec fn untouched_but_x(pre: State, post: State) -> bool {
    &&& post.data == pre.data
    &&& post.error_message == pre.error_message
    &&& post.y == pre.y
    &&& post.scales == pre.scales
    &&& post.auto == pre.auto
    &&& post.show_cursor == pre.show_cursor
}

/// A key with no effect on flags or the fetcher.
pub open spec fn plain_keys(pre: State, post: State, r: KeyOutcome) -> bool {
    &&& post.auto == pre.auto
    &&& post.show_cursor == pre.show_cursor
    &&& !r.pause_fetcher
}

/// The Y window moved to the given offset target; nothing else did.
pub open spec fn y_offset_rel(pre: State, post: State, moved: bool, h: int, o: int) -> bool {
    untouched_but_y(pre, post) && ({
        let st = offset_adjust(pre.y@, pre.data.y@.len() as int, h, o);
        post.y@ == st.0 && moved == st.1
    })
}

/// The X cursor moved to the given target; nothing else did.
pub open spec fn x_cursor_rel(pre: State, post: State, moved: bool, w: int, c: int) -> bool {
    untouched_but_x(pre, post) && ({
        let st = cursor_adjust(pre.x@, pre.data.spec_series_size(), w, c);
        post.x@ == st.0 && moved == st.1
    })
}

/// The X offset moved to the given target; nothing else did.
pub open spec fn x_offset_rel(pre: State, post: State, moved: bool, w: int, o: int) -> bool {
    untouched_but_x(pre, post) && ({
        let st = offset_adjust(pre.x@, pre.data.spec_series_size(), w, o);
        post.x@ == st.0 && moved == st.1
    })
}

/// What each plain character key does: `j`/`k` scroll the series
/// window, `g`/`G` jump it to an edge, `h`/`l` move the X cursor,
/// `H`/`L` pin it to a view edge, `$`/`0` jump the X window (or, when
/// already there, the cursor) to an edge, `c` toggles the cursor,
/// `p` toggles pause and signals the fetcher; anything else is a
/// no-op.
pub open spec fn char_key_rel(pre: State, post: State, r: KeyOutcome, c: char, w: int, h: int) -> bool {
    if c == 'j' {
        plain_keys(pre, post, r) && y_offset_rel(pre, post, r.redraw, h, pre.y@.offset + 1)
    } else if c == 'k' {
        plain_keys(pre, post, r) && y_offset_rel(pre, post, r.redraw, h, pre.y@.offset - 1)
    } else if c == 'g' {
        plain_keys(pre, post, r) && y_offset_rel(pre, post, r.redraw, h, 0)
    } else if c == 'G' {
        plain_keys(pre, post, r) && y_offset_rel(
            pre,
            post,
            r.redraw,
            h,
            pre.data.y@.len() - h,
        )
    } else if c == 'l' {
        plain_keys(pre, post, r) && x_cursor_rel(pre, post, r.redraw, w, pre.x@.cursor + 1)
    } else if c == 'h' {
        plain_keys(pre, post, r) && x_cursor_rel(pre, post, r.redraw, w, pre.x@.cursor - 1)
    } else if c == 'H' {
        plain_keys(pre, post, r) && x_cursor_rel(pre, post, r.redraw, w, 0)
    } else if c == 'L' {
        plain_keys(pre, post, r) && x_cursor_rel(pre, post, r.redraw, w, w - 1)
    } else if c == '$' {
        plain_keys(pre, post, r) && ({
            let e = offset_adjust(pre.x@, pre.data.spec_series_size(), w, pre.data.spec_series_size() - w);
            if e.1 {
                x_offset_rel(pre, post, r.redraw, w, pre.data.spec_series_size() - w) && r.redraw
            } else {
                x_cursor_rel(pre, post, r.redraw, w, w - 1)
            }
        })
    } else if c == '0' {
        plain_keys(pre, post, r) && ({
            let e = offset_adjust(pre.x@, pre.data.spec_series_size(), w, 0);
            if e.1 {
                x_offset_rel(pre, post, r.redraw, w, 0) && r.redraw
            } else {
                x_cursor_rel(pre, post, r.redraw, w, 0)
            }
        })
    } else if c == 'c' {
        post == (State { show_cursor: !pre.show_cursor, ..pre }) && r.redraw && !r.pause_fetcher
    } else if c == 'p' {
        post == (State { auto: !pre.auto, ..pre }) && r.redraw && r.pause_fetcher
    } else {
        post == pre && !r.redraw && !r.pause_fetcher
    }
}

/// What each control key does: `b`/`f` page the series window,
/// `u`/`d` half-page it, `l`/`h` shift the X offset by one; anything
/// else is a no-op.
pub open spec fn ctrl_key_rel(pre: State, post: State, r: KeyOutcome, c: char, w: int, h: int) -> bool {
    if c == 'b' {
        plain_keys(pre, post, r) && y_offset_rel(pre, post, r.redraw, h, pre.y@.offset - h)
    } else if c == 'f' {
        plain_keys(pre, post, r) && y_offset_rel(pre, post, r.redraw, h, pre.y@.offset + h)
    } else if c == 'u' {
        plain_keys(pre, post, r) && y_offset_rel(pre, post, r.redraw, h, pre.y@.offset - h / 2)
    } else if c == 'd' {
        plain_keys(pre, post, r) && y_offset_rel(pre, post, r.redraw, h, pre.y@.offset + h / 2)
    } else if c == 'l' {
        plain_keys(pre, post, r) && x_offset_rel(pre, post, r.redraw, w, pre.x@.offset + 1)
    } else if c == 'h' {
        plain_keys(pre, post, r) && x_offset_rel(pre, post, r.redraw, w, pre.x@.offset - 1)
    } else {
        post == pre && !r.redraw && !r.pause_fetcher
    }
}

impl State {
    pub open spec fn wf(&self) -> bool {
        &&& self.data.wf()
        &&& win_ok(self.x@)
        &&& win_ok(self.y@)
    }

    /// Builds the initial state; the scale string, when given, must
    /// have been validated at startup.
    pub fn from_settings(settings: &Settings) -> (s: State)
        requires
            match settings.scales {
                Some(cfg) => entries_ok(split_seq(cfg@, seq![','])),
                None => true,
            },
        ensures
            s.wf(),
            s.data.x is None && s.data.y@.len() == 0,
            s.error_message is None,
            s.x.offset == 0 && s.x.cursor == FRESH_CURSOR,
            s.y.offset == 0 && s.y.cursor == FRESH_CURSOR,
            s.auto,
            !s.show_cursor,
            match settings.scales {
                Some(cfg) => s.scales matches Some(sc) && cfg_models(sc.entries@)
                    == scales_config_models(cfg@),
                None => s.scales is None,
            },
    {
        let scales: Option<ScalesConfig> = match &settings.scales {
            Some(cfg) => match ScalesConfig::new(cfg.as_str()) {
                Ok(sc) => Some(sc),
                Err(_) => {
                    proof {
                        assert(false);
                    }
                    None
                },
            },
            None => None,
        };
        State {
            data: SeriesSet::default(),
            error_message: None,
            x: Window::default(),
            y: Window::default(),
            scales,
            auto: true,
            show_cursor: false,
        }
    }

    pub fn is_auto(&self) -> (r: bool)
        ensures
            r == self.auto,
    {
        self.auto
    }

    /// Toggles the pause flag; always requests a redraw.
    pub fn pause(&mut self) -> (r: bool)
        ensures
            *final(self) == (State { auto: !old(self).auto, ..*old(self) }),
            r,
    {
        self.auto = !self.auto;
        true
    }

    /// Toggles cursor visibility; always requests a redraw.
    pub fn hide_cursor(&mut self) -> (r: bool)
        ensures
            *final(self) == (State { show_cursor: !old(self).show_cursor, ..*old(self) }),
            r,
    {
        self.show_cursor = !self.show_cursor;
        true
    }

    pub fn cursor_allowed(&self) -> (r: bool)
        ensures
            r == self.show_cursor,
    {
        self.show_cursor
    }

    /// One incremental row arrived: the error clears, the row merges
    /// into the dataset, and the X window follows the new size.
    pub fn append_slice(&mut self, slice: Slice, width: i64)
        requires
            old(self).wf(),
            old(self).data.spec_series_size() < SIZE_BOUND,
            0 <= width <= SIZE_BOUND,
        ensures
            final(self).wf(),
            final(self).error_message is None,
            append_slice_rel(old(self).data, slice, final(self).data),
            final(self).x@ == tail_adjust(
                old(self).x@,
                final(self).data.spec_series_size(),
                width as int,
                old(self).auto,
            ),
            final(self).y == old(self).y,
            final(self).scales == old(self).scales,
            final(self).auto == old(self).auto,
            final(self).show_cursor == old(self).show_cursor,
    {
        self.error_message = None;
        self.data.append_slice(slice);
        let ds = self.data.series_size();
        let mut xm = WindowAdjust::new(ds, width, self.x);
        xm.on_data();
        if self.auto {
            xm.end();
        }
        self.x = xm.window;
    }

    /// One batch arrived: the error clears, the batch union-merges
    /// into the dataset, and the X window follows the new size.
    pub fn extend_dataset(&mut self, d: SeriesSet, width: i64)
        requires
            old(self).wf(),
            d.wf(),
            old(self).data.spec_series_size() + d.spec_series_size() <= SIZE_BOUND,
            old(self).data.y@.len() + d.y@.len() <= SIZE_BOUND,
            0 <= width <= SIZE_BOUND,
        ensures
            final(self).wf(),
            final(self).error_message is None,
            append_set_rel(old(self).data, d, final(self).data),
            final(self).x@ == tail_adjust(
                old(self).x@,
                final(self).data.spec_series_size(),
                width as int,
                old(self).auto,
            ),
            final(self).y == old(self).y,
            final(self).scales == old(self).scales,
            final(self).auto == old(self).auto,
            final(self).show_cursor == old(self).show_cursor,
    {
        self.error_message = None;
        self.data.append_set(d);
        let ds = self.data.series_size();
        let mut xm = WindowAdjust::new(ds, width, self.x);
        xm.on_data();
        if self.auto {
            xm.end();
        }
        self.x = xm.window;
    }

    /// A fetch failed: keep the data, show the message until the next
    /// successful ingestion clears it.
    pub fn on_error(&mut self, e: String)
        ensures
            *final(self) == (State { error_message: Some(e), ..*old(self) }),
    {
        self.error_message = Some(e);
    }

    /// Dispatches one key press onto the two windows, the cursor
    /// toggle or the pause toggle.
    pub fn on_key_press(&mut self, input: KeyInput, w: i64, h: i64) -> (r: KeyOutcome)
        requires
            old(self).wf(),
            0 <= w <= SIZE_BOUND,
            0 <= h <= SIZE_BOUND,
        ensures
            final(self).wf(),
            final(self).data == old(self).data,
            final(self).scales == old(self).scales,
            final(self).error_message == old(self).error_message,
            ({
                let xs = old(self).data.spec_series_size();
                let yc = old(self).data.y@.len() as int;
                match input {
                    KeyInput::Down => plain_keys(*old(self), *final(self), r) && y_offset_rel(
                        *old(self),
                        *final(self),
                        r.redraw,
                        h as int,
                        old(self).y@.offset + 1,
                    ),
                    KeyInput::Up => plain_keys(*old(self), *final(self), r) && y_offset_rel(
                        *old(self),
                        *final(self),
                        r.redraw,
                        h as int,
                        old(self).y@.offset - 1,
                    ),
                    KeyInput::Right => plain_keys(*old(self), *final(self), r) && x_cursor_rel(
                        *old(self),
                        *final(self),
                        r.redraw,
                        w as int,
                        old(self).x@.cursor + 1,
                    ),
                    KeyInput::Left => plain_keys(*old(self), *final(self), r) && x_cursor_rel(
                        *old(self),
                        *final(self),
                        r.redraw,
                        w as int,
                        old(self).x@.cursor - 1,
                    ),
                    KeyInput::Char(c) => char_key_rel(*old(self), *final(self), r, c, w as int, h as int),
                    KeyInput::Ctrl(c) => ctrl_key_rel(*old(self), *final(self), r, c, w as int, h as int),
                    KeyInput::Other => plain_keys(*old(self), *final(self), r) && *final(self)
                        == *old(self) && !r.redraw,
                }
            }),
    {
        match input {
            KeyInput::Down => {
                let moved = self.y_move_offset(1, h);
                KeyOutcome { redraw: moved, pause_fetcher: false }
            },
            KeyInput::Up => {
                let moved = self.y_move_offset(-1, h);
                KeyOutcome { redraw: moved, pause_fetcher: false }
            },
            KeyInput::Right => {
                let moved = self.x_move_cursor(1, w);
                KeyOutcome { redraw: moved, pause_fetcher: false }
            },
            KeyInput::Left => {
                let moved = self.x_move_cursor(-1, w);
                KeyOutcome { redraw: moved, pause_fetcher: false }
            },
            KeyInput::Char(c) => self.on_char_key(c, w, h),
            KeyInput::Ctrl(c) => self.on_ctrl_key(c, w, h),
            KeyInput::Other => KeyOutcome { redraw: false, pause_fetcher: false },
        }
    }

    /// Scrolls the series window to the given offset target.
    fn y_set_offset(&mut self, o: i64, h: i64) -> (moved: bool)
        requires
            old(self).wf(),
            0 <= h <= SIZE_BOUND,
            -3 * SIZE_BOUND <= o <= 3 * SIZE_BOUND,
        ensures
            final(self).wf(),
            untouched_but_y(*old(self), *final(self)),
            ({
                let st = offset_adjust(old(self).y@, old(self).data.y@.len() as int, h as int, o as int);
                final(self).y@ == st.0 && moved == st.1
            }),
    {
        let yc = self.data.series_count();
        let mut m = WindowAdjust::new(yc, h, self.y);
        let moved = m.set_offset(o);
        self.y = m.window;
        moved
    }

    fn y_move_offset(&mut self, delta: i64, h: i64) -> (moved: bool)
        requires
            old(self).wf(),
            0 <= h <= SIZE_BOUND,
            -2 * SIZE_BOUND <= delta <= 2 * SIZE_BOUND,
        ensures
            final(self).wf(),
            untouched_but_y(*old(self), *final(self)),
            ({
                let st = offset_adjust(
                    old(self).y@,
                    old(self).data.y@.len() as int,
                    h as int,
                    old(self).y@.offset + delta,
                );
                final(self).y@ == st.0 && moved == st.1
            }),
    {
        let yc = self.data.series_count();
        let mut m = WindowAdjust::new(yc, h, self.y);
        let moved = m.move_offset(delta);
        self.y = m.window;
        moved
    }

    fn x_move_cursor(&mut self, delta: i64, w: i64) -> (moved: bool)
        requires
            old(self).wf(),
            0 <= w <= SIZE_BOUND,
            -2 * SIZE_BOUND <= delta <= 2 * SIZE_BOUND,
        ensures
            final(self).wf(),
            untouched_but_x(*old(self), *final(self)),
            ({
                let st = cursor_adjust(
                    old(self).x@,
                    old(self).data.spec_series_size(),
                    w as int,
                    old(self).x@.cursor + delta,
                );
                final(self).x@ == st.0 && moved == st.1
            }),
    {
        let xs = self.data.series_size();
        let mut m = WindowAdjust::new(xs, w, self.x);
        let moved = m.move_cursor(delta);
        self.x = m.window;
        moved
    }

    fn x_set_cursor(&mut self, c: i64, w: i64) -> (moved: bool)
        requires
            old(self).wf(),
            0 <= w <= SIZE_BOUND,
            -3 * SIZE_BOUND <= c <= 3 * SIZE_BOUND,
        ensures
            final(self).wf(),
            untouched_but_x(*old(self), *final(self)),
            ({
                let st = cursor_adjust(
                    old(self).x@,
                    old(self).data.spec_series_size(),
                    w as int,
                    c as int,
                );
                final(self).x@ == st.0 && moved == st.1
            }),
    {
        let xs = self.data.series_size();
        let mut m = WindowAdjust::new(xs, w, self.x);
        let moved = m.set_cursor(c);
        self.x = m.window;
        moved
    }

    fn x_set_offset(&mut self, o: i64, w: i64) -> (moved: bool)
        requires
            old(self).wf(),
            0 <= w <= SIZE_BOUND,
            -3 * SIZE_BOUND <= o <= 3 * SIZE_BOUND,
        ensures
            final(self).wf(),
            untouched_but_x(*old(self), *final(self)),
            ({
                let st = offset_adjust(
                    old(self).x@,
                    old(self).data.spec_series_size(),
                    w as int,
                    o as int,
                );
                final(self).x@ == st.0 && moved == st.1
            }),
    {
        let xs = self.data.series_size();
        let mut m = WindowAdjust::new(xs, w, self.x);
        let moved = m.set_offset(o);
        self.x = m.window;
        moved
    }

    /// The plain character bindings.
    #[verifier::rlimit(50)]
    fn on_char_key(&mut self, c: char, w: i64, h: i64) -> (r: KeyOutcome)
        requires
            old(self).wf(),
            0 <= w <= SIZE_BOUND,
            0 <= h <= SIZE_BOUND,
        ensures
            final(self).wf(),
            char_key_rel(*old(self), *final(self), r, c, w as int, h as int),
    {
        if c == 'j' {
            let moved = self.y_move_offset(1, h);
            KeyOutcome { redraw: moved, pause_fetcher: false }
        } else if c == 'k' {
            let moved = self.y_move_offset(-1, h);
            KeyOutcome { redraw: moved, pause_fetcher: false }
        } else if c == 'g' {
            let moved = self.y_set_offset(0, h);
            KeyOutcome { redraw: moved, pause_fetcher: false }
        } else if c == 'G' {
            let yc = self.data.series_count();
            let moved = self.y_set_offset(yc - h, h);
            KeyOutcome { redraw: moved, pause_fetcher: false }
        } else if c == 'l' {
            let moved = self.x_move_cursor(1, w);
            KeyOutcome { redraw: moved, pause_fetcher: false }
        } else if c == 'h' {
            let moved = self.x_move_cursor(-1, w);
            KeyOutcome { redraw: moved, pause_fetcher: false }
        } else if c == 'H' {
            let moved = self.x_set_cursor(0, w);
            KeyOutcome { redraw: moved, pause_fetcher: false }
        } else if c == 'L' {
            let moved = self.x_set_cursor(w - 1, w);
            KeyOutcome { redraw: moved, pause_fetcher: false }
        } else if c == '$' {
            let xs = self.data.series_size();
            let moved = self.x_set_offset(xs - w, w) || self.x_set_cursor(w - 1, w);
            KeyOutcome { redraw: moved, pause_fetcher: false }
        } else if c == '0' {
            let moved = self.x_set_offset(0, w) || self.x_set_cursor(0, w);
            KeyOutcome { redraw: moved, pause_fetcher: false }
        } else if c == 'c' {
            let moved = self.hide_cursor();
            KeyOutcome { redraw: moved, pause_fetcher: false }
        } else if c == 'p' {
            let moved = self.pause();
            KeyOutcome { redraw: moved, pause_fetcher: true }
        } else {
            KeyOutcome { redraw: false, pause_fetcher: false }
        }
    }

    /// The control-key bindings.
    #[verifier::rlimit(50)]
    fn on_ctrl_key(&mut self, c: char, w: i64, h: i64) -> (r: KeyOutcome)
        requires
            old(self).wf(),
            0 <= w <= SIZE_BOUND,
            0 <= h <= SIZE_BOUND,
        ensures
            final(self).wf(),
            ctrl_key_rel(*old(self), *final(self), r, c, w as int, h as int),
    {
        if c == 'b' {
            let moved = self.y_move_offset(-h, h);
            KeyOutcome { redraw: moved, pause_fetcher: false }
        } else if c == 'f' {
            let moved = self.y_move_offset(h, h);
            KeyOutcome { redraw: moved, pause_fetcher: false }
        } else if c == 'u' {
            let half = ((h as u64) / 2) as i64;
            let moved = self.y_move_offset(-half, h);
            KeyOutcome { redraw: moved, pause_fetcher: false }
        } else if c == 'd' {
            let half = ((h as u64) / 2) as i64;
            let moved = self.y_move_offset(half, h);
            KeyOutcome { redraw: moved, pause_fetcher: false }
        } else if c == 'l' {
            let moved = self.x_set_offset_delta(1, w);
            KeyOutcome { redraw: moved, pause_fetcher: false }
        } else if c == 'h' {
            let moved = self.x_set_offset_delta(-1, w);
            KeyOutcome { redraw: moved, pause_fetcher: false }
        } else {
            KeyOutcome { redraw: false, pause_fetcher: false }
        }
    }

    fn x_set_offset_delta(&mut self, delta: i64, w: i64) -> (moved: bool)
        requires
            old(self).wf(),
            0 <= w <= SIZE_BOUND,
            -2 * SIZE_BOUND <= delta <= 2 * SIZE_BOUND,
        ensures
            final(self).wf(),
            untouched_but_x(*old(self), *final(self)),
            ({
                let st = offset_adjust(
                    old(self).x@,
                    old(self).data.spec_series_size(),
                    w as int,
                    old(self).x@.offset + delta,
                );
                final(self).x@ == st.0 && moved == st.1
            }),
    {
        let xs = self.data.series_size();
        let mut m = WindowAdjust::new(xs, w, self.x);
        let moved = m.move_offset(delta);
        self.x = m.window;
        moved
    }

    /// Dispatches one mouse event: the wheel scrolls the series
    /// window, a left press puts the X cursor on the clicked column.
    pub fn on_mouse_press(&mut self, b: MouseButtonInput, mx: i64, w: i64, h: i64) -> (r: bool)
        requires
            old(self).wf(),
            0 <= w <= SIZE_BOUND,
            0 <= h <= SIZE_BOUND,
            0 <= mx <= SIZE_BOUND,
        ensures
            final(self).wf(),
            final(self).data == old(self).data,
            final(self).scales == old(self).scales,
            final(self).error_message == old(self).error_message,
            final(self).auto == old(self).auto,
            final(self).show_cursor == old(self).show_cursor,
            ({
                let xs = old(self).data.spec_series_size();
                let yc = old(self).data.y@.len() as int;
                match b {
                    MouseButtonInput::WheelDown => final(self).x == old(self).x && ({
                        let st = offset_adjust(old(self).y@, yc, h as int, old(self).y@.offset + 1);
                        final(self).y@ == st.0 && r == st.1
                    }),
                    MouseButtonInput::WheelUp => final(self).x == old(self).x && ({
                        let st = offset_adjust(old(self).y@, yc, h as int, old(self).y@.offset - 1);
                        final(self).y@ == st.0 && r == st.1
                    }),
                    MouseButtonInput::Left => final(self).y == old(self).y && ({
                        let st = cursor_adjust(old(self).x@, xs, w as int, mx - 1);
                        final(self).x@ == st.0 && r == st.1
                    }),
                    MouseButtonInput::Other => *final(self) == *old(self) && !r,
                }
            }),
    {
        let xs = self.data.series_size();
        let yc = self.data.series_count();
        match b {
            MouseButtonInput::WheelDown => {
                let mut m = WindowAdjust::new(yc, h, self.y);
                let moved = m.move_offset(1);
                self.y = m.window;
                moved
            },
            MouseButtonInput::WheelUp => {
                let mut m = WindowAdjust::new(yc, h, self.y);
                let moved = m.move_offset(-1);
                self.y = m.window;
                moved
            },
            MouseButtonInput::Left => {
                let mut m = WindowAdjust::new(xs, w, self.x);
                let moved = m.set_cursor(mx - 1);
                self.x = m.window;
                moved
            },
            MouseButtonInput::Other => false,
        }
    }
}

} // verus!
