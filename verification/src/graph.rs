//! The graph: a store of samples, the view onto it, and what to draw when
//! samples come in or the user zooms and scrolls.

use vstd::prelude::*;
use crate::{Color, Error, Point, Time, Value};
use crate::render::{frame_of, filled, render_patch, rendered, BYTES_PER_PIXEL};
use crate::store::{accepted_len, earliest_or_zero, is_first_from, time_range, with_points, Store};
use crate::observable_value::ObservableValue;
use crate::signal::{without, Subscription, SubscriptionId};
use crate::view::{Config, Controls, Patch, View, ViewMode};
use vstd::view::View as _;

verus! {

/// The time of the latest sample once the batch `ps` has been taken in whole
/// by a store whose latest sample had time `last_t`.
pub open spec fn latest_after(last_t: Time, ps: Seq<Point>) -> Time {
    if ps.len() == 0 {
        last_t
    } else {
        ps.last().t
    }
}

/// A scrolling graph of samples: it owns the samples, the view and the
/// parameters, and every change goes through it. Whoever wants to mirror the
/// view subscribes with a callback of type `F`, and is called with the view
/// whenever the graph has changed it.
pub struct Graph<F> {
    store: Store,
    view: ObservableValue<View, F>,
    config: Config,
}

impl<F: Fn(&View)> Graph<F> {
    /// The samples of the graph.
    pub closed spec fn spec_store(&self) -> &Store {
        &self.store
    }

    /// What is on screen.
    pub closed spec fn spec_view(&self) -> View {
        self.view.value()
    }

    /// The channel through which the view is published: the view and its
    /// subscribers.
    pub closed spec fn channel(&self) -> ObservableValue<View, F> {
        self.view
    }

    /// The channel holds the view.
    pub proof fn lemma_channel_holds_view(&self)
        ensures
            self.channel().value() == self.view(),
    {
    }

    /// The graph has told its subscribers of its view, and has the
    /// subscribers that it had in `before`.
    pub open spec fn published(&self, before: &Self) -> bool {
        &&& self.channel().subs() == before.channel().subs()
        &&& self.channel().next_id() == before.channel().next_id()
        &&& self.channel().notified(self.view())
    }

    /// The parameters of the graph.
    pub closed spec fn spec_config(&self) -> Config {
        self.config
    }

    /// The graph is well formed: its parameters and its store are, its view
    /// fits its parameters, and it has not drawn past the latest sample.
    pub open spec fn wf(&self) -> bool {
        &&& self.config().wf()
        &&& self.store().wf()
        &&& self.view().wf(self.config())
        &&& self.view().last_drawn_t <= self.store().last_t()
        &&& self.channel().wf()
        &&& forall|v: View| #[trigger] self.channel().callable(v)
    }

    /// A graph with the parameters `config` for samples of `val_len` values:
    /// no samples yet, zoomed out, following, no subscribers. Parameters
    /// whose zoom limits are out of order are refused.
    pub fn new(config: Config, val_len: u8) -> (r: Result<Graph<F>, Error>)
        ensures
            r is Ok <==> config.wf(),
            r is Ok ==> {
                let g = r->Ok_0;
                &&& g.wf()
                &&& g.config() == config
                &&& g.view() == View::initial(config)
                &&& g.store()@ == Map::<Time, Seq<Value>>::empty()
                &&& g.store().last_t() == 0
                &&& g.store().val_len() == val_len
                &&& g.channel().subs() == Seq::<Subscription<F>>::empty()
                &&& g.channel().next_id() == 0
            },
    {
        if !config.is_valid() {
            return Err(Error::String("zoom limits out of order".to_owned()));
        }
        let view = ObservableValue::new(View::default_from_config(&config));
        Ok(Graph { store: Store::new(val_len), view, config })
    }

    /// The samples of the graph.
    #[verifier::when_used_as_spec(spec_store)]
    pub fn store(&self) -> (s: &Store)
        ensures
            s == self.store(),
    {
        &self.store
    }

    /// What is on screen.
    #[verifier::when_used_as_spec(spec_view)]
    pub fn view(&self) -> (v: View)
        ensures
            v == self.view(),
    {
        *self.view.get()
    }

    /// The parameters of the graph.
    #[verifier::when_used_as_spec(spec_config)]
    pub fn config(&self) -> (c: Config)
        ensures
            c == self.config(),
    {
        self.config
    }

    /// The width of the graph in pixels.
    pub fn width(&self) -> (w: u32)
        ensures
            w == self.config().graph_width,
    {
        self.config.graph_width
    }

    /// The height of the graph in pixels.
    pub fn height(&self) -> (h: u32)
        ensures
            h == self.config().graph_height,
    {
        self.config.graph_height
    }

    /// Maximum zoom out, in units of t per x pixel.
    pub fn base_zoom_x(&self) -> (z: u32)
        ensures
            z == self.config().base_zoom_x,
    {
        self.config.base_zoom_x
    }

    /// Maximum zoom in, in units of t per x pixel.
    pub fn max_zoom_x(&self) -> (z: u32)
        ensures
            z == self.config().max_zoom_x,
    {
        self.config.max_zoom_x
    }

    /// The time of the latest sample ever taken in.
    pub fn last_t(&self) -> (t: Time)
        ensures
            t == self.store().last_t(),
    {
        self.store.last_t()
    }

    /// The time of the earliest sample at hand, or 0 if there is none.
    pub fn first_t(&self) -> (t: Time)
        requires
            self.wf(),
        ensures
            t == earliest_or_zero(self.store()@),
    {
        self.store.first_t()
    }

    /// Set the zoom to `new_zoom_x` units of time per pixel, held to the
    /// limits of the graph, and plan the full redraw that follows.
    pub fn set_zoom_x(&mut self, new_zoom_x: u32) -> (p: Option<Patch>)
        requires
            old(self).wf(),
        ensures
            final(self).wf(),
            final(self).config() == old(self).config(),
            final(self).store() == old(self).store(),
            ({
                let c = old(self).config();
                let zoomed = View {
                    zoom_x: View::clamp_zoom(c, new_zoom_x),
                    ..old(self).view()
                };
                &&& p == zoomed.redraw_patch(c)
                &&& final(self).view() == zoomed.redrawn(c)
            }),
            final(self).published(old(self)),
    {
        let mut v = *self.view.get();
        v.set_zoom_x(&self.config, new_zoom_x);
        let p = v.redraw(&self.config);
        self.view.set(&v);
        proof {
            old(self).view.lemma_callable_by_subs(&self.view);
        }
        p
    }

    /// Follow the data: the view is drawn up to the latest sample. Plans the
    /// full redraw that follows.
    pub fn set_follow(&mut self) -> (p: Option<Patch>)
        requires
            old(self).wf(),
        ensures
            final(self).wf(),
            final(self).config() == old(self).config(),
            final(self).store() == old(self).store(),
            ({
                let c = old(self).config();
                let followed = View {
                    mode: ViewMode::Following,
                    last_drawn_t: old(self).store().last_t(),
                    ..old(self).view()
                };
                &&& p == followed.redraw_patch(c)
                &&& final(self).view() == followed.redrawn(c)
            }),
            final(self).published(old(self)),
    {
        let mut v = *self.view.get();
        v.set_follow(self.store.last_t());
        let p = v.redraw(&self.config);
        self.view.set(&v);
        proof {
            old(self).view.lemma_callable_by_subs(&self.view);
        }
        p
    }

    /// Scroll so that the window starts at time `new_val`. Plans the full
    /// redraw that follows.
    pub fn scroll(&mut self, new_val: Time) -> (p: Option<Patch>)
        requires
            old(self).wf(),
        ensures
            final(self).wf(),
            final(self).config() == old(self).config(),
            final(self).store() == old(self).store(),
            ({
                let c = old(self).config();
                let last_t = old(self).store().last_t();
                let scrolled = View {
                    mode: View::scroll_mode(new_val, last_t),
                    last_drawn_t: old(self).view().scroll_t(c, new_val, last_t),
                    last_drawn_x: 0,
                    ..old(self).view()
                };
                &&& p == scrolled.redraw_patch(c)
                &&& final(self).view() == scrolled.redrawn(c)
            }),
            final(self).published(old(self)),
    {
        let mut v = *self.view.get();
        v.scroll(&self.config, new_val, self.store.last_t());
        let p = v.redraw(&self.config);
        self.view.set(&v);
        proof {
            old(self).view.lemma_callable_by_subs(&self.view);
        }
        p
    }

    /// Redraw the whole graph: plans the patch that shows the window which
    /// ends where the view has been drawn up to.
    pub fn redraw_graph(&mut self) -> (p: Option<Patch>)
        requires
            old(self).wf(),
        ensures
            final(self).wf(),
            final(self).config() == old(self).config(),
            final(self).store() == old(self).store(),
            p == old(self).view().redraw_patch(old(self).config()),
            final(self).view() == old(self).view().redrawn(old(self).config()),
            final(self).published(old(self)),
    {
        let mut v = *self.view.get();
        let p = v.redraw(&self.config);
        self.view.set(&v);
        proof {
            old(self).view.lemma_callable_by_subs(&self.view);
        }
        p
    }

    /// One frame: take in the samples `new_data`, discard the samples that
    /// are older than the graph keeps, and plan the patch that brings the
    /// view up to the latest sample.
    ///
    /// If a sample of `new_data` is refused, the samples before it stay in
    /// the store; nothing is discarded, the view stays as it is and no
    /// subscriber is called. Else the subscribers are called with the view.
    pub fn tick(&mut self, new_data: &[Point]) -> (r: Result<Option<Patch>, Error>)
        requires
            old(self).wf(),
        ensures
            final(self).wf(),
            final(self).config() == old(self).config(),
            final(self).store().val_len() == old(self).store().val_len(),
            ({
                let c = old(self).config();
                let s = old(self).store();
                let k = accepted_len(s.last_t(), s.val_len(), new_data@);
                let t_latest = latest_after(s.last_t(), new_data@);
                let has_new = new_data@.len() > 0;
                &&& r is Ok <==> k == new_data@.len()
                &&& r is Ok ==> {
                    &&& final(self).store()@ == with_points(s@, new_data@).remove_keys(
                        time_range(0, c.discard_start(t_latest)),
                    )
                    &&& final(self).store().last_t() == t_latest
                    &&& final(self).view() == old(self).view().advanced(
                        c,
                        earliest_or_zero(final(self).store()@),
                        t_latest,
                        has_new,
                    )
                    &&& r->Ok_0 == old(self).view().advance_patch(c, t_latest, has_new)
                    &&& final(self).published(old(self))
                }
                &&& r is Err ==> {
                    &&& final(self).store()@ == with_points(s@, new_data@.take(k))
                    &&& final(self).store().last_t() == (if k == 0 {
                        s.last_t()
                    } else {
                        new_data@[k - 1].t
                    })
                    &&& final(self).view() == old(self).view()
                    &&& final(self).channel() == old(self).channel()
                    &&& r->Err_0 == (if new_data@[k].t <= final(self).store().last_t() {
                        Error::InvalidOrder
                    } else {
                        Error::ChannelMismatch
                    })
                }
            }),
    {
        match self.store.ingest(new_data) {
            Ok(()) => {},
            Err(e) => {
                return Err(e);
            },
        }
        proof {
            assert(new_data@.take(new_data@.len() as int) =~= new_data@);
        }
        let t_latest = self.store.last_t();
        let discard_start = self.config.discard_start(t_latest);
        match self.store.discard(0, discard_start) {
            Ok(()) => {},
            Err(e) => {
                return Err(e);
            },
        }
        let first_t = self.store.first_t();
        let mut v = *self.view.get();
        let p = v.advance(&self.config, first_t, t_latest, new_data.len() > 0);
        self.view.set(&v);
        proof {
            old(self).view.lemma_callable_by_subs(&self.view);
        }
        Ok(p)
    }

    /// The bytes of `patch`: the samples of the graph with a time in the
    /// range of the patch, drawn in the colors `cols` on `background`, over
    /// the whole range of values.
    pub fn render(&self, patch: &Patch, cols: &[Color], background: Color) -> (r: Result<
        Vec<u8>,
        Error,
    >)
        requires
            self.wf(),
        ensures
            r is Ok <==> patch.width >= 1 && cols@.len() >= 1 && BYTES_PER_PIXEL * patch.width
                * patch.height <= usize::MAX,
            r is Ok ==> r->Ok_0@ == rendered(
                frame_of(
                    cols@,
                    patch.width as usize,
                    patch.height as usize,
                    patch.t0,
                    patch.t1,
                    0,
                    Value::MAX,
                    self.config().point_style,
                ),
                filled(patch.width * patch.height, background),
                self.store()@,
            ),
            r is Err ==> r == Err::<Vec<u8>, Error>(Error::RenderInvariantViolation),
    {
        render_patch(
            &self.store,
            cols,
            patch.width as usize,
            patch.height as usize,
            patch.t0,
            patch.t1,
            0,
            Value::MAX,
            self.config.point_style,
            background,
        )
    }

    /// The sample shown at pixel column `x` of the graph: the first sample at
    /// or after the time of that column, unless it lies ten pixels or more
    /// to the right, as happens where old samples are still on screen after
    /// they have been discarded.
    pub fn drawing_area_pos_to_point(&self, x: u32, _y: u32) -> (r: Option<Point>)
        requires
            self.wf(),
        ensures
            ({
                let t = self.view().time_at(x);
                match r {
                    Some(p) => is_first_from(Some(p), self.store()@, t) && p.t - t < 10
                        * self.view().zoom_x,
                    None => forall|p: Point| #[trigger]
                        is_first_from(Some(p), self.store()@, t) ==> p.t - t >= 10
                            * self.view().zoom_x,
                }
            }),
    {
        let v = *self.view.get();
        let t = v.time_at(x);
        match self.store.query_point(t) {
            Ok(Some(p)) => {
                if (p.t - t) as u64 >= 10 * (v.zoom_x as u64) {
                    proof {
                        assert forall|q: Point| #[trigger]
                            is_first_from(Some(q), self.store@, t) implies q.t - t >= 10
                            * v.zoom_x by {
                            assert(q.t == p.t);
                        }
                    }
                    None
                } else {
                    Some(p)
                }
            },
            _ => None,
        }
    }

    /// What the controls beside the graph show: the range and the position of
    /// the scrollbar, and which of the buttons can be pressed.
    pub fn controls(&self) -> (k: Controls)
        requires
            self.wf(),
        ensures
            k == self.view().controls(&self.config()),
    {
        self.view.get().controls(&self.config)
    }

    /// Whether one more subscriber can be connected: identifiers are left.
    pub fn can_connect(&self) -> (b: bool)
        ensures
            b == (self.channel().next_id() < usize::MAX),
    {
        self.view.can_connect()
    }

    /// Subscribe to the view: `callback` is called with the view whenever
    /// the graph has changed it. Returns the identifier by which to
    /// disconnect it.
    pub fn connect(&mut self, callback: F) -> (id: SubscriptionId)
        requires
            old(self).wf(),
            old(self).channel().next_id() < usize::MAX,
            forall|v: View| call_requires(callback, (&v,)),
        ensures
            final(self).wf(),
            final(self).config() == old(self).config(),
            final(self).store() == old(self).store(),
            final(self).view() == old(self).view(),
            id == SubscriptionId(old(self).channel().next_id()),
            final(self).channel().next_id() == old(self).channel().next_id() + 1,
            final(self).channel().subs() == old(self).channel().subs().push(
                Subscription { id, callback },
            ),
    {
        let id = self.view.connect(callback);
        proof {
            assert forall|v: View| #[trigger] self.channel().callable(v) by {
                assert(old(self).channel().callable(v));
                assert forall|i: int| 0 <= i < self.channel().subs().len() implies call_requires(
                    #[trigger] self.channel().subs()[i].callback,
                    (&v,),
                ) by {
                    if i < old(self).channel().subs().len() {
                        assert(self.channel().subs()[i] == old(self).channel().subs()[i]);
                    }
                }
            }
        }
        id
    }

    /// End a subscription to the view. Ending one that is not connected
    /// changes nothing.
    pub fn disconnect(&mut self, id: SubscriptionId)
        requires
            old(self).wf(),
        ensures
            final(self).wf(),
            final(self).config() == old(self).config(),
            final(self).store() == old(self).store(),
            final(self).view() == old(self).view(),
            final(self).channel().next_id() == old(self).channel().next_id(),
            final(self).channel().subs() == without(old(self).channel().subs(), id),
    {
        self.view.disconnect(id);
        proof {
            crate::signal::lemma_without_keeps(old(self).channel().subs(), id);
            assert forall|v: View| #[trigger] self.channel().callable(v) by {
                assert(old(self).channel().callable(v));
            }
        }
    }
}

} // verus!
