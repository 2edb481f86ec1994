//! The drawn watermark of a window that sweeps: it fills from left to right
//! and starts again at the left edge.

use vstd::prelude::*;
use crate::view::{product, Patch};
use crate::Time;

verus! {

/// How far a sweeping window has been drawn.
#[derive(Clone, Copy, Debug, PartialEq, Eq, Structural)]
pub struct Sweep {
    /// Zoom level, in units of t per x pixel.
    pub zoom_x: u32,
    /// The width of the window in pixels.
    pub width: u32,
    /// The height of the window in pixels.
    pub height: u32,
    /// The time up to which the window has been drawn.
    pub last_t_drawn: Time,
    /// The pixel column at which the next patch starts.
    pub last_x_drawn: u32,
}

impl Sweep {
    /// Each pixel stands for at least one unit of time, the window is at
    /// least one pixel wide, and the next patch starts inside it.
    pub open spec fn wf(&self) -> bool {
        &&& self.zoom_x >= 1
        &&& self.width >= 1
        &&& self.last_x_drawn < self.width
    }

    /// A window of the given zoom and size with nothing drawn, unless the
    /// zoom or the width is 0.
    pub fn new(zoom_x: u32, width: u32, height: u32) -> (r: Option<Sweep>)
        ensures
            r is Some <==> zoom_x >= 1 && width >= 1,
            r is Some ==> r->Some_0 == (Sweep {
                zoom_x,
                width,
                height,
                last_t_drawn: 0,
                last_x_drawn: 0,
            }) && r->Some_0.wf(),
    {
        if zoom_x >= 1 && width >= 1 {
            Some(Sweep { zoom_x, width, height, last_t_drawn: 0, last_x_drawn: 0 })
        } else {
            None
        }
    }

    /// The span of time that the window shows.
    pub open spec fn window(&self) -> int {
        self.width * self.zoom_x
    }

    /// The time before which samples are discarded once the latest sample has
    /// time `t_latest`: one window before it, or 0 if that is before the
    /// start of time.
    pub open spec fn spec_discard_start(&self, t_latest: Time) -> Time {
        if t_latest >= self.window() {
            (t_latest - self.window()) as Time
        } else {
            0
        }
    }

    /// The time before which samples are discarded once the latest sample has
    /// time `t_latest`.
    #[verifier::when_used_as_spec(spec_discard_start)]
    pub fn discard_start(&self, t_latest: Time) -> (t: Time)
        ensures
            t == self.discard_start(t_latest),
            t <= t_latest,
    {
        let window: u64 = product(self.width, self.zoom_x);
        if t_latest as u64 >= window {
            (t_latest as u64 - window) as u32
        } else {
            0
        }
    }

    /// The width in pixels of the patch that brings the window up to
    /// `t_latest`: one pixel for each `zoom_x` units of time since
    /// `last_t_drawn`.
    pub open spec fn advance_width(&self, t_latest: Time) -> int {
        if t_latest >= self.last_t_drawn {
            (t_latest - self.last_t_drawn) / (self.zoom_x as int)
        } else {
            0
        }
    }

    /// The patch to draw when the latest sample has time `t_latest`, if at
    /// least one pixel of time has passed since `last_t_drawn`. It starts
    /// where the patch before it ended; what reaches past the right edge of
    /// the window is not shown.
    pub open spec fn advance_patch(&self, t_latest: Time) -> Option<Patch> {
        let width = self.advance_width(t_latest);
        if width >= 1 {
            Some(
                Patch {
                    t0: self.last_t_drawn,
                    t1: (self.last_t_drawn + width * self.zoom_x) as Time,
                    width: width as u32,
                    height: self.height,
                    x: self.last_x_drawn,
                    shift: 0,
                },
            )
        } else {
            None
        }
    }

    /// The window after the patch for `t_latest` has been drawn: the next
    /// patch starts where this one ends, counted round the width of the window.
    pub open spec fn advanced(&self, t_latest: Time) -> Sweep {
        match self.advance_patch(t_latest) {
            Some(p) => Sweep {
                last_t_drawn: p.t1,
                last_x_drawn: ((self.last_x_drawn + p.width) % (self.width as int)) as u32,
                ..*self
            },
            None => *self,
        }
    }

    /// Take the window up to `t_latest`, the time of the latest sample.
    /// Returns the patch to draw, if any.
    pub fn advance(&mut self, t_latest: Time) -> (p: Option<Patch>)
        requires
            old(self).wf(),
        ensures
            p == old(self).advance_patch(t_latest),
            *final(self) == old(self).advanced(t_latest),
            final(self).wf(),
            old(self).last_t_drawn <= t_latest ==> old(self).last_t_drawn
                <= final(self).last_t_drawn <= t_latest,
            p is Some ==> p->Some_0.t0 < p->Some_0.t1 && p->Some_0.width >= 1,
    {
        if t_latest < self.last_t_drawn {
            return None;
        }
        let width = (t_latest - self.last_t_drawn) / self.zoom_x;
        if width == 0 {
            return None;
        }
        proof {
            crate::view::lemma_pixels_fit(
                (t_latest - self.last_t_drawn) as int,
                self.zoom_x as int,
                width as int,
            );
        }
        let t0 = self.last_t_drawn;
        let t1 = t0 + width * self.zoom_x;
        let x = self.last_x_drawn;
        self.last_t_drawn = t1;
        self.last_x_drawn = ((x as u64 + width as u64) % (self.width as u64)) as u32;
        Some(Patch { t0, t1, width, height: self.height, x, shift: 0 })
    }
}

} // verus!
