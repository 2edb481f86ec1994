//! The view of a graph: zoom, drawn watermark and mode, and the rules by
//! which they change.

use vstd::prelude::*;
use crate::Time;
use crate::render::PointStyle;

verus! {

/// The product of two 32-bit numbers, which fits in 64 bits.
pub fn product(a: u32, b: u32) -> (r: u64)
    ensures
        r == a * b,
        r <= 0xffff_fffe_0000_0001,
{
    assert(0 <= a * b <= 0xffff_ffff * 0xffff_ffff) by (nonlinear_arith)
        requires
            0 <= a <= 0xffff_ffff,
            0 <= b <= 0xffff_ffff,
    ;
    a as u64 * b as u64
}

/// The parameters of a graph. They do not change once the graph is made.
#[derive(Clone, Copy, Debug, PartialEq, Eq, Structural)]
pub struct Config {
    /// Maximum zoom out, in units of t per x pixel.
    pub base_zoom_x: u32,
    /// Maximum zoom in, in units of t per x pixel.
    pub max_zoom_x: u32,
    /// The width of the graph in pixels.
    pub graph_width: u32,
    /// The height of the graph in pixels.
    pub graph_height: u32,
    /// How many windows width of data to store at maximum zoom out.
    pub windows_to_store: u32,
    /// How a sample is drawn.
    pub point_style: PointStyle,
}

impl Config {
    /// The zoom limits are in order, and the closest zoom still gives each
    /// pixel a whole unit of time.
    pub open spec fn wf(&self) -> bool {
        1 <= self.max_zoom_x <= self.base_zoom_x
    }

    /// Whether the zoom limits are in order.
    pub fn is_valid(&self) -> (b: bool)
        ensures
            b == self.wf(),
    {
        1 <= self.max_zoom_x && self.max_zoom_x <= self.base_zoom_x
    }

    /// The span of time that the graph shows at maximum zoom out.
    pub open spec fn base_window(&self) -> int {
        self.graph_width * self.base_zoom_x
    }

    /// The span of time before the latest sample that the store keeps.
    pub open spec fn keep_window(&self) -> int {
        self.windows_to_store * self.base_window()
    }

    /// The time before which samples are discarded once the latest sample has
    /// time `t_latest`: `keep_window()` before it, or 0 if that is before the
    /// start of time.
    pub open spec fn spec_discard_start(&self, t_latest: Time) -> Time {
        if t_latest >= self.keep_window() {
            (t_latest - self.keep_window()) as Time
        } else {
            0
        }
    }

    /// The time before which samples are discarded once the latest sample has
    /// time `t_latest`.
    #[verifier::when_used_as_spec(spec_discard_start)]
    pub fn discard_start(&self, t_latest: Time) -> (t: Time)
        ensures
            t == self.discard_start(t_latest),
            t <= t_latest,
    {
        let base: u64 = product(self.graph_width, self.base_zoom_x);
        assert(0 <= self.windows_to_store * base <= 0xffff_ffff * 0xffff_ffff_ffff_ffff)
            by (nonlinear_arith)
            requires
                0 <= self.windows_to_store <= 0xffff_ffff,
                0 <= base <= 0xffff_ffff_ffff_ffff,
        ;
        let keep: u128 = self.windows_to_store as u128 * base as u128;
        if t_latest as u128 >= keep {
            (t_latest as u128 - keep) as u32
        } else {
            0
        }
    }
}

impl Default for Config {
    /// The parameters of a graph 800 pixels wide and 200 high that shows
    /// between 1 and 1000 units of time in each pixel, keeps 100 windows of
    /// samples and draws each sample as one pixel.
    fn default() -> (c: Config)
        ensures
            c == (Config {
                base_zoom_x: 1000,
                max_zoom_x: 1,
                graph_width: 800,
                graph_height: 200,
                windows_to_store: 100,
                point_style: PointStyle::Point,
            }),
            c.wf(),
    {
        Config {
            base_zoom_x: 1000,
            max_zoom_x: 1,
            graph_width: 800,
            graph_height: 200,
            windows_to_store: 100,
            point_style: PointStyle::Point,
        }
    }
}

/// Whether the view moves with the data.
#[derive(Clone, Copy, Debug, PartialEq, Eq, Structural)]
pub enum ViewMode {
    /// The view shows the most recent samples: new samples push old ones left.
    Following,
    /// The view stays at the window of time that the user chose.
    Scrolled,
}

/// A rectangle of the graph to draw: the samples with a time in `[t0, t1)`,
/// `width` pixels wide and `height` high, `x` pixels from the left edge.
#[derive(Clone, Copy, Debug, PartialEq, Eq, Structural)]
pub struct Patch {
    /// The first time that the patch covers.
    pub t0: Time,
    /// The first time after those that the patch covers.
    pub t1: Time,
    /// The width of the patch in pixels.
    pub width: u32,
    /// The height of the patch in pixels.
    pub height: u32,
    /// Where the patch starts, in pixels from the left edge of the graph.
    /// `x + width` may exceed the width of the graph: what lies past the right
    /// edge is not shown.
    pub x: u32,
    /// By how many pixels the image drawn so far moves left before the patch
    /// is drawn.
    pub shift: u32,
}

/// What is on screen: the zoom, how far the graph has been drawn, the span of
/// the samples at hand, and the mode.
#[derive(Clone, Copy, Debug, PartialEq, Eq, Structural)]
pub struct View {
    /// Zoom level, in units of t per x pixel.
    pub zoom_x: u32,
    /// The time up to which the graph has been drawn.
    pub last_drawn_t: Time,
    /// The pixel column up to which the graph has been drawn.
    pub last_drawn_x: u32,
    /// The time of the earliest sample at hand, or 0.
    pub min_t: Time,
    /// The time of the latest sample ever taken in.
    pub max_t: Time,
    /// Whether the view moves with the data.
    pub mode: ViewMode,
}

/// What the controls beside a graph show.
#[derive(Clone, Copy, Debug, PartialEq, Eq, Structural)]
pub struct Controls {
    /// The low end of the scrollbar: the time of the earliest sample at hand,
    /// as of the last tick.
    pub lower: Time,
    /// The high end of the scrollbar: the time of the latest sample, as of
    /// the last tick.
    pub upper: Time,
    /// The span of time that the graph shows at its zoom: the size of a page
    /// of the scrollbar.
    pub page_size: u64,
    /// The position of the scrollbar: the latest sample when following, the
    /// start of the window shown when scrolled.
    pub value: i128,
    /// Whether the graph can zoom in further.
    pub zoom_in: bool,
    /// Whether the graph can zoom out further.
    pub zoom_out: bool,
    /// Whether the graph can be told to follow: it does not follow already.
    pub follow: bool,
}

/// The lesser of two numbers.
pub open spec fn least(a: int, b: int) -> int {
    if a <= b {
        a
    } else {
        b
    }
}

impl View {
    /// The view fits the graph: its zoom lies within the limits and it has
    /// not drawn past the right edge.
    pub open spec fn wf(&self, c: Config) -> bool {
        &&& c.max_zoom_x <= self.zoom_x <= c.base_zoom_x
        &&& self.last_drawn_x <= c.graph_width
    }

    /// The span of time that the graph shows at this zoom.
    pub open spec fn window(&self, c: Config) -> int {
        c.graph_width * self.zoom_x
    }

    /// The view of a new graph: zoomed out, nothing drawn, following.
    pub open spec fn initial(c: Config) -> View {
        View {
            zoom_x: c.base_zoom_x,
            last_drawn_t: 0,
            last_drawn_x: 0,
            min_t: 0,
            max_t: 0,
            mode: ViewMode::Following,
        }
    }

    /// The view of a new graph: zoomed out, nothing drawn, following.
    pub fn default_from_config(c: &Config) -> (v: View)
        ensures
            v == Self::initial(*c),
            c.wf() ==> v.wf(*c),
    {
        View {
            zoom_x: c.base_zoom_x,
            last_drawn_t: 0,
            last_drawn_x: 0,
            min_t: 0,
            max_t: 0,
            mode: ViewMode::Following,
        }
    }

    /// The first time of a full redraw: one window before `last_drawn_t`, or 0
    /// if that is before the start of time.
    pub open spec fn redraw_t0(&self, c: Config) -> Time {
        if self.last_drawn_t > self.window(c) {
            (self.last_drawn_t - self.window(c)) as Time
        } else {
            0
        }
    }

    /// The width of a full redraw in pixels: one pixel for each `zoom_x`
    /// units of time from `redraw_t0` to `last_drawn_t`, and no more than the
    /// graph is wide.
    pub open spec fn redraw_width(&self, c: Config) -> int {
        least((self.last_drawn_t - self.redraw_t0(c)) / (self.zoom_x as int), c.graph_width as int)
    }

    /// Where a patch of `width` pixels starts in a full redraw: against the
    /// right edge when following, at the left edge when scrolled.
    pub open spec fn redraw_x(&self, c: Config, width: int) -> int {
        match self.mode {
            ViewMode::Following => c.graph_width - width,
            ViewMode::Scrolled => 0,
        }
    }

    /// The patch of a full redraw, if it is at least one pixel wide.
    pub open spec fn redraw_patch(&self, c: Config) -> Option<Patch> {
        let width = self.redraw_width(c);
        if width > 0 {
            Some(
                Patch {
                    t0: self.redraw_t0(c),
                    t1: self.last_drawn_t,
                    width: width as u32,
                    height: c.graph_height,
                    x: self.redraw_x(c, width) as u32,
                    shift: 0,
                },
            )
        } else {
            None
        }
    }

    /// The view after a full redraw: drawn up to the right end of the patch,
    /// or as before if there was no patch.
    pub open spec fn redrawn(&self, c: Config) -> View {
        let width = self.redraw_width(c);
        if width > 0 {
            View { last_drawn_x: (self.redraw_x(c, width) + width) as u32, ..*self }
        } else {
            *self
        }
    }

    /// Plan a full redraw of the graph: the whole window that ends at
    /// `last_drawn_t`, drawn from scratch.
    pub fn redraw(&mut self, c: &Config) -> (p: Option<Patch>)
        requires
            c.wf(),
            old(self).wf(*c),
        ensures
            p == old(self).redraw_patch(*c),
            *final(self) == old(self).redrawn(*c),
            final(self).wf(*c),
            p is Some ==> p->Some_0.x + p->Some_0.width <= c.graph_width,
    {
        let t1 = self.last_drawn_t;
        let span: u64 = product(c.graph_width, self.zoom_x);
        let t0: u32 = if t1 as u64 > span {
            (t1 as u64 - span) as u32
        } else {
            0
        };
        let full = (t1 - t0) / self.zoom_x;
        let width = if full <= c.graph_width {
            full
        } else {
            c.graph_width
        };
        if width > 0 {
            let x = match self.mode {
                ViewMode::Following => c.graph_width - width,
                ViewMode::Scrolled => 0,
            };
            self.last_drawn_x = x + width;
            Some(Patch { t0, t1, width, height: c.graph_height, x, shift: 0 })
        } else {
            None
        }
    }

    /// `zoom` held to the limits of the graph.
    pub open spec fn clamp_zoom(c: Config, zoom: u32) -> u32 {
        if zoom > c.base_zoom_x {
            c.base_zoom_x
        } else if zoom < c.max_zoom_x {
            c.max_zoom_x
        } else {
            zoom
        }
    }

    /// Set the zoom to `new_zoom_x`, held to the limits of the graph. The
    /// rest of the view stays; a full redraw is due.
    pub fn set_zoom_x(&mut self, c: &Config, new_zoom_x: u32)
        requires
            c.wf(),
            old(self).wf(*c),
        ensures
            *final(self) == (View { zoom_x: Self::clamp_zoom(*c, new_zoom_x), ..*old(self) }),
            c.max_zoom_x <= final(self).zoom_x <= c.base_zoom_x,
            final(self).wf(*c),
    {
        self.zoom_x = if new_zoom_x > c.base_zoom_x {
            c.base_zoom_x
        } else if new_zoom_x < c.max_zoom_x {
            c.max_zoom_x
        } else {
            new_zoom_x
        };
    }

    /// Follow the data: the view is drawn up to `last_t`, the time of the
    /// latest sample. A full redraw is due.
    pub fn set_follow(&mut self, last_t: Time)
        ensures
            *final(self) == (View {
                mode: ViewMode::Following,
                last_drawn_t: last_t,
                ..*old(self)
            }),
    {
        self.mode = ViewMode::Following;
        self.last_drawn_t = last_t;
    }

    /// The mode after a scroll to `new_val`: following if that is within one
    /// unit of time of `last_t`, the time of the latest sample, or past it;
    /// scrolled otherwise.
    pub open spec fn scroll_mode(new_val: Time, last_t: Time) -> ViewMode {
        if new_val + 1 >= last_t {
            ViewMode::Following
        } else {
            ViewMode::Scrolled
        }
    }

    /// The time up to which the view is drawn after a scroll to `new_val`: one
    /// window after `new_val`, but not after `last_t`, and from there down to
    /// the nearest multiple of `zoom_x`.
    pub open spec fn scroll_t(&self, c: Config, new_val: Time, last_t: Time) -> Time {
        let end = least(new_val + self.window(c), last_t as int);
        ((end / (self.zoom_x as int)) * self.zoom_x) as Time
    }

    /// Scroll so that the window starts at time `new_val`, where `last_t` is
    /// the time of the latest sample. A full redraw is due.
    pub fn scroll(&mut self, c: &Config, new_val: Time, last_t: Time)
        requires
            c.wf(),
            old(self).wf(*c),
        ensures
            *final(self) == (View {
                mode: Self::scroll_mode(new_val, last_t),
                last_drawn_t: old(self).scroll_t(*c, new_val, last_t),
                last_drawn_x: 0,
                ..*old(self)
            }),
            final(self).last_drawn_t <= last_t,
            final(self).last_drawn_t % final(self).zoom_x == 0,
            final(self).wf(*c),
    {
        self.mode = if new_val as u64 + 1 >= last_t as u64 {
            ViewMode::Following
        } else {
            ViewMode::Scrolled
        };
        let span: u64 = product(c.graph_width, self.zoom_x);
        let end: u64 = if new_val as u64 + span <= last_t as u64 {
            new_val as u64 + span
        } else {
            last_t as u64
        };
        let zoom: u64 = self.zoom_x as u64;
        let pixels: u64 = end / zoom;
        proof {
            lemma_snap(end as int, zoom as int);
        }
        self.last_drawn_t = (pixels * zoom) as u32;
        self.last_drawn_x = 0;
    }

    /// The time shown in pixel column `x`: `zoom_x` units of time before
    /// `last_drawn_t` for each pixel that `x` lies left of `last_drawn_x`,
    /// but neither before the start of time nor after `last_drawn_t`.
    pub open spec fn spec_time_at(&self, x: u32) -> Time {
        if x >= self.last_drawn_x {
            self.last_drawn_t
        } else if (self.last_drawn_x - x) * self.zoom_x >= self.last_drawn_t {
            0
        } else {
            (self.last_drawn_t - (self.last_drawn_x - x) * self.zoom_x) as Time
        }
    }

    /// The time shown in pixel column `x`.
    #[verifier::when_used_as_spec(spec_time_at)]
    pub fn time_at(&self, x: u32) -> (t: Time)
        ensures
            t == self.time_at(x),
            t <= self.last_drawn_t,
    {
        if x >= self.last_drawn_x {
            self.last_drawn_t
        } else {
            let back: u64 = product(self.last_drawn_x - x, self.zoom_x);
            if back >= self.last_drawn_t as u64 {
                0
            } else {
                (self.last_drawn_t as u64 - back) as u32
            }
        }
    }

    /// What the controls beside the graph show for this view.
    pub open spec fn spec_controls(&self, c: &Config) -> Controls {
        Controls {
            lower: self.min_t,
            upper: self.max_t,
            page_size: self.window(*c) as u64,
            value: match self.mode {
                ViewMode::Following => self.max_t as i128,
                ViewMode::Scrolled => (self.last_drawn_t - self.window(*c)) as i128,
            },
            zoom_in: self.zoom_x > c.max_zoom_x,
            zoom_out: self.zoom_x < c.base_zoom_x,
            follow: self.mode == ViewMode::Scrolled,
        }
    }

    /// What the controls beside the graph show for this view: the scrollbar
    /// spans the samples at hand, a page of it is one window, and it stands
    /// at the latest sample when following, at the start of the window when
    /// scrolled. Zooming in and out is on offer until the limit is reached,
    /// following when the view does not follow already.
    #[verifier::when_used_as_spec(spec_controls)]
    pub fn controls(&self, c: &Config) -> (k: Controls)
        ensures
            k == self.controls(c),
            k.page_size == c.graph_width * self.zoom_x,
            self.mode == ViewMode::Scrolled ==> k.value == self.last_drawn_t - c.graph_width
                * self.zoom_x,
    {
        let window: u64 = product(c.graph_width, self.zoom_x);
        let value: i128 = match self.mode {
            ViewMode::Following => self.max_t as i128,
            ViewMode::Scrolled => self.last_drawn_t as i128 - window as i128,
        };
        Controls {
            lower: self.min_t,
            upper: self.max_t,
            page_size: window,
            value,
            zoom_in: self.zoom_x > c.max_zoom_x,
            zoom_out: self.zoom_x < c.base_zoom_x,
            follow: self.mode == ViewMode::Scrolled,
        }
    }

    /// Whether the view draws when new samples have come in: always when
    /// following; when scrolled, as long as it has not reached the right edge.
    pub open spec fn draws(&self, c: Config) -> bool {
        self.mode == ViewMode::Following || self.last_drawn_x < c.graph_width
    }

    /// The width in pixels of the patch that brings the view up to
    /// `t_latest`: one pixel for each `zoom_x` units of time since
    /// `last_drawn_t`, and no more than the graph is wide.
    pub open spec fn advance_width(&self, c: Config, t_latest: Time) -> int {
        if t_latest >= self.last_drawn_t {
            least((t_latest - self.last_drawn_t) / (self.zoom_x as int), c.graph_width as int)
        } else {
            0
        }
    }

    /// Where a new patch of `width` pixels starts: against the right edge when
    /// following, where drawing left off when scrolled.
    pub open spec fn advance_x(&self, c: Config, width: int) -> int {
        match self.mode {
            ViewMode::Following => c.graph_width - width,
            ViewMode::Scrolled => self.last_drawn_x as int,
        }
    }

    /// The patch to draw when the latest sample has time `t_latest`, if new
    /// samples have come in, the view draws, and at least one pixel of time
    /// has passed since `last_drawn_t`. When following, the image drawn so far
    /// moves left by the width of the patch.
    pub open spec fn advance_patch(&self, c: Config, t_latest: Time, has_new: bool) -> Option<
        Patch,
    > {
        let width = self.advance_width(c, t_latest);
        if has_new && self.draws(c) && width > 0 {
            Some(
                Patch {
                    t0: self.last_drawn_t,
                    t1: (self.last_drawn_t + width * self.zoom_x) as Time,
                    width: width as u32,
                    height: c.graph_height,
                    x: self.advance_x(c, width) as u32,
                    shift: match self.mode {
                        ViewMode::Following => width as u32,
                        ViewMode::Scrolled => 0,
                    },
                },
            )
        } else {
            None
        }
    }

    /// The view after a tick: the span of the samples at hand is `first_t` to
    /// `t_latest`, and if there was a patch the view is drawn up to its end.
    pub open spec fn advanced(
        &self,
        c: Config,
        first_t: Time,
        t_latest: Time,
        has_new: bool,
    ) -> View {
        let v = View { min_t: first_t, max_t: t_latest, ..*self };
        match self.advance_patch(c, t_latest, has_new) {
            Some(p) => View {
                last_drawn_t: p.t1,
                last_drawn_x: least(p.x + p.width, c.graph_width as int) as u32,
                ..v
            },
            None => v,
        }
    }

    /// Take the view one tick further: `first_t` and `t_latest` are the times
    /// of the earliest sample at hand and of the latest sample, and `has_new`
    /// says whether samples have come in since the tick before. Returns the
    /// patch to draw, if any.
    pub fn advance(&mut self, c: &Config, first_t: Time, t_latest: Time, has_new: bool) -> (p:
        Option<Patch>)
        requires
            c.wf(),
            old(self).wf(*c),
        ensures
            p == old(self).advance_patch(*c, t_latest, has_new),
            *final(self) == old(self).advanced(*c, first_t, t_latest, has_new),
            final(self).wf(*c),
            old(self).last_drawn_t <= t_latest ==> old(self).last_drawn_t
                <= final(self).last_drawn_t <= t_latest,
            p is Some ==> p->Some_0.t0 < p->Some_0.t1 && p->Some_0.width >= 1,
    {
        self.min_t = first_t;
        self.max_t = t_latest;
        if !has_new {
            return None;
        }
        if self.mode == ViewMode::Scrolled && self.last_drawn_x >= c.graph_width {
            return None;
        }
        if t_latest < self.last_drawn_t {
            return None;
        }
        let full = (t_latest - self.last_drawn_t) / self.zoom_x;
        let width = if full <= c.graph_width {
            full
        } else {
            c.graph_width
        };
        if width == 0 {
            return None;
        }
        proof {
            lemma_pixels_fit(
                (t_latest - self.last_drawn_t) as int,
                self.zoom_x as int,
                width as int,
            );
        }
        let t0 = self.last_drawn_t;
        let t1 = t0 + width * self.zoom_x;
        let (x, shift) = match self.mode {
            ViewMode::Following => (c.graph_width - width, width),
            ViewMode::Scrolled => (self.last_drawn_x, 0),
        };
        self.last_drawn_t = t1;
        self.last_drawn_x = if x as u64 + width as u64 <= c.graph_width as u64 {
            x + width
        } else {
            c.graph_width
        };
        Some(Patch { t0, t1, width, height: c.graph_height, x, shift })
    }
}

/// `floor(a / d) * d` lies between `a - d` and `a`, and is a multiple of `d`.
pub proof fn lemma_snap(a: int, d: int)
    requires
        0 <= a,
        0 < d,
    ensures
        0 <= (a / d) * d <= a,
        a - d < (a / d) * d,
        ((a / d) * d) % d == 0,
{
    vstd::arithmetic::div_mod::lemma_fundamental_div_mod(a, d);
    vstd::arithmetic::div_mod::lemma_mod_bound(a, d);
    vstd::arithmetic::div_mod::lemma_div_pos_is_pos(a, d);
    assert((a / d) * d == d * (a / d)) by (nonlinear_arith);
    vstd::arithmetic::div_mod::lemma_mod_multiples_basic(a / d, d);
}

/// `w` pixels of `d` units each, where `w` is at least 1 and no more than
/// the whole pixels in a span of `a` units, take between `d` and `a` units.
pub proof fn lemma_pixels_fit(a: int, d: int, w: int)
    requires
        0 <= a,
        0 < d,
        1 <= w <= a / d,
    ensures
        d <= w * d <= a,
{
    lemma_snap(a, d);
    assert(d <= w * d <= (a / d) * d) by (nonlinear_arith)
        requires
            1 <= w <= a / d,
            0 < d,
    ;
}

/// Once a full window of time lies behind `last_drawn_t`, a full redraw
/// covers exactly that window, `[last_drawn_t - graph_width * zoom_x,
/// last_drawn_t)`, over the whole width of the graph: at half the zoom it
/// covers half the span of time.
pub proof fn lemma_redraw_full_window(v: View, c: Config)
    requires
        c.wf(),
        v.wf(c),
        c.graph_width >= 1,
        v.last_drawn_t >= v.window(c),
    ensures
        v.redraw_patch(c) == Some(
            Patch {
                t0: (v.last_drawn_t - c.graph_width * v.zoom_x) as Time,
                t1: v.last_drawn_t,
                width: c.graph_width,
                height: c.graph_height,
                x: 0,
                shift: 0,
            },
        ),
        v.redrawn(c) == (View { last_drawn_x: c.graph_width, ..v }),
{
    let w = c.graph_width as int;
    let z = v.zoom_x as int;
    assert(v.last_drawn_t - v.redraw_t0(c) == w * z);
    assert((w * z) / z == w) by (nonlinear_arith)
        requires
            z >= 1,
            w >= 0,
    ;
}

} // verus!
