//! The time-series store: the retained samples, ordered by time.

use vstd::prelude::*;
use crate::{Error, Point, Time, Value};

verus! {

/// The times of `s` rise strictly from one point to the next.
pub open spec fn times_increasing(s: Seq<Point>) -> bool {
    forall|i: int, j: int| 0 <= i < j < s.len() ==> s[i].t < s[j].t
}

/// The samples of `s` as a map from time to values.
pub open spec fn contents(s: Seq<Point>) -> Map<Time, Seq<Value>> {
    Map::new(
        |t: Time| exists|i: int| 0 <= i < s.len() && s[i].t == t,
        |t: Time| s[choose|i: int| 0 <= i < s.len() && s[i].t == t].vs@,
    )
}

/// The half-open range of times `[t0, t1)`.
pub open spec fn time_range(t0: Time, t1: Time) -> Set<Time> {
    Set::new(|t: Time| t0 <= t < t1)
}

/// `r` lists exactly the samples of `m` with a time in `[t0, t1)`, earliest first.
pub open spec fn is_range_of(r: Seq<Point>, m: Map<Time, Seq<Value>>, t0: Time, t1: Time) -> bool {
    &&& times_increasing(r)
    &&& forall|i: int|
        0 <= i < r.len() ==> t0 <= (#[trigger] r[i]).t < t1 && m.contains_key(r[i].t) && m[r[i].t]
            == r[i].vs@
    &&& forall|t: Time|
        #[trigger] m.contains_key(t) && t0 <= t < t1 ==> exists|i: int|
            0 <= i < r.len() && r[i].t == t
}

/// `p` is the earliest sample of `m` at or after `t`, if `m` has one.
pub open spec fn is_first_from(p: Option<Point>, m: Map<Time, Seq<Value>>, t: Time) -> bool {
    match p {
        Some(p) => {
            &&& t <= p.t
            &&& m.contains_key(p.t)
            &&& m[p.t] == p.vs@
            &&& forall|u: Time| #[trigger] m.contains_key(u) && t <= u ==> p.t <= u
        },
        None => forall|u: Time| #[trigger] m.contains_key(u) ==> u < t,
    }
}

/// `t` is the least time that `m` holds a sample for.
pub open spec fn is_earliest(t: Time, m: Map<Time, Seq<Value>>) -> bool {
    m.contains_key(t) && forall|u: Time| #[trigger] m.contains_key(u) ==> t <= u
}

/// The least time that `m` holds a sample for, or 0 if it holds none.
pub open spec fn earliest_or_zero(m: Map<Time, Seq<Value>>) -> Time {
    if exists|t: Time| is_earliest(t, m) {
        choose|t: Time| is_earliest(t, m)
    } else {
        0
    }
}

/// Point `i` of `ps` may follow the points before it: its time exceeds the
/// time before it (`last_t` for the first point) and it has `val_len` values.
pub open spec fn follows(last_t: Time, val_len: u8, ps: Seq<Point>, i: int) -> bool {
    &&& ps[i].t > (if i == 0 { last_t } else { ps[i - 1].t })
    &&& ps[i].vs@.len() == val_len
}

/// The number of points at the head of `ps` that a store with `last_t` and
/// `val_len` takes in before it meets one that may not follow.
pub open spec fn accepted_len(last_t: Time, val_len: u8, ps: Seq<Point>) -> int {
    accepted_from(last_t, val_len, ps, 0)
}

/// The index of the first point of `ps` at or after `i` that may not follow
/// the points before it, or the length of `ps`.
pub open spec fn accepted_from(last_t: Time, val_len: u8, ps: Seq<Point>, i: int) -> int
    decreases ps.len() - i,
{
    if 0 <= i < ps.len() && follows(last_t, val_len, ps, i) {
        accepted_from(last_t, val_len, ps, i + 1)
    } else {
        i
    }
}

/// `m` with the points of `ps` put in, one after the other.
pub open spec fn with_points(m: Map<Time, Seq<Value>>, ps: Seq<Point>) -> Map<Time, Seq<Value>>
    decreases ps.len(),
{
    if ps.len() == 0 {
        m
    } else {
        with_points(m, ps.drop_last()).insert(ps.last().t, ps.last().vs@)
    }
}

/// An ordered, time-keyed buffer of multi-channel samples.
pub struct Store {
    last_t: Time,
    val_len: u8,
    all: Vec<Point>,
}

impl View for Store {
    type V = Map<Time, Seq<Value>>;

    /// The retained samples, as a map from time to values.
    closed spec fn view(&self) -> Map<Time, Seq<Value>> {
        contents(self.all@)
    }
}

impl Store {
    /// The store is well formed: its samples are held in order of time, none
    /// is later than `last_t()`, and each has `val_len()` values. Every
    /// function of the store keeps it so.
    pub closed spec fn wf(&self) -> bool {
        &&& times_increasing(self.all@)
        &&& forall|i: int| 0 <= i < self.all@.len() ==> (#[trigger] self.all@[i]).t <= self.last_t
        &&& forall|i: int|
            0 <= i < self.all@.len() ==> (#[trigger] self.all@[i]).vs@.len() == self.val_len
    }

    /// The highest time ever taken in, or 0.
    pub closed spec fn spec_last_t(&self) -> Time {
        self.last_t
    }

    /// The number of values that each sample holds.
    pub closed spec fn spec_val_len(&self) -> u8 {
        self.val_len
    }

    /// An empty store for samples of `val_len` values.
    pub fn new(val_len: u8) -> (s: Store)
        ensures
            s.wf(),
            s@ == Map::<Time, Seq<Value>>::empty(),
            s.last_t() == 0,
            s.val_len() == val_len,
    {
        let s = Store { last_t: 0, val_len, all: Vec::new() };
        assert(s@ =~= Map::<Time, Seq<Value>>::empty());
        s
    }

    /// Take in the points of `ps`, one after the other.
    ///
    /// Each point must come later than every point taken in before, and hold
    /// one value per channel. The first point that does not stops the call:
    /// the points before it stay in the store, it and the points after it are
    /// left out, and the error says what was wrong with it, the order first.
    pub fn ingest(&mut self, ps: &[Point]) -> (r: Result<(), Error>)
        requires
            old(self).wf(),
        ensures
            final(self).wf(),
            final(self).val_len() == old(self).val_len(),
            final(self).last_t() >= old(self).last_t(),
            ({
                let k = accepted_len(old(self).last_t(), old(self).val_len(), ps@);
                &&& 0 <= k <= ps@.len()
                &&& final(self)@ == with_points(old(self)@, ps@.take(k))
                &&& final(self).last_t() == (if k == 0 {
                    old(self).last_t()
                } else {
                    ps@[k - 1].t
                })
                &&& r is Ok <==> k == ps@.len()
                &&& r == Err::<(), Error>(Error::InvalidOrder) <==> k < ps@.len() && ps@[k].t
                    <= final(self).last_t()
                &&& r == Err::<(), Error>(Error::ChannelMismatch) <==> k < ps@.len() && ps@[k].t
                    > final(self).last_t()
            }),
            ps@.len() > 0 && ps@[0].t <= old(self).last_t() ==> r == Err::<(), Error>(
                Error::InvalidOrder,
            ) && final(self)@ == old(self)@ && final(self).last_t() == old(self).last_t(),
    {
        let ghost l0 = self.last_t;
        let ghost vl = self.val_len;
        let ghost m0 = self@;
        let mut i: usize = 0;
        assert(ps@.take(0) =~= Seq::<Point>::empty());
        proof {
            if ps@.len() > 0 && ps@[0].t <= l0 {
                lemma_unfit_point_stops(l0, vl, ps@, 0);
            }
        }
        while i < ps.len()
            invariant
                i <= ps@.len(),
                self.wf(),
                l0 == old(self).last_t,
                vl == old(self).val_len,
                m0 == old(self)@,
                self.val_len == vl,
                self.last_t >= l0,
                accepted_len(l0, vl, ps@) == accepted_from(l0, vl, ps@, i as int),
                self.last_t == (if i == 0 {
                    l0
                } else {
                    ps@[i - 1].t
                }),
                self@ == with_points(m0, ps@.take(i as int)),
            decreases ps@.len() - i,
        {
            let p = &ps[i];
            if p.t <= self.last_t {
                return Err(Error::InvalidOrder);
            }
            if p.vs.len() != self.val_len as usize {
                return Err(Error::ChannelMismatch);
            }
            let taken = Point { t: p.t, vs: copy_values(&p.vs) };
            proof {
                lemma_contents_push(self.all@, taken);
                assert(ps@.take(i + 1).drop_last() =~= ps@.take(i as int));
                assert(ps@.take(i + 1).last() == ps@[i as int]);
            }
            self.last_t = p.t;
            self.all.push(taken);
            i += 1;
        }
        Ok(())
    }

    /// The index of the first retained sample at or after time `t`.
    fn lower_bound(&self, t: Time) -> (r: usize)
        requires
            self.wf(),
        ensures
            r <= self.all@.len(),
            forall|i: int| 0 <= i < r ==> (#[trigger] self.all@[i]).t < t,
            forall|i: int| r <= i < self.all@.len() ==> (#[trigger] self.all@[i]).t >= t,
    {
        let mut lo: usize = 0;
        let mut hi: usize = self.all.len();
        while lo < hi
            invariant
                lo <= hi <= self.all@.len(),
                times_increasing(self.all@),
                forall|i: int| 0 <= i < lo ==> (#[trigger] self.all@[i]).t < t,
                forall|i: int| hi <= i < self.all@.len() ==> (#[trigger] self.all@[i]).t >= t,
            decreases hi - lo,
        {
            let mid = lo + (hi - lo) / 2;
            if self.all[mid].t < t {
                lo = mid + 1;
            } else {
                hi = mid;
            }
        }
        lo
    }

    /// The samples with a time in `[t0, t1)`, earliest first.
    pub fn query_range(&self, t0: Time, t1: Time) -> (r: Result<Vec<Point>, Error>)
        requires
            self.wf(),
        ensures
            r is Ok,
            is_range_of(r->Ok_0@, self@, t0, t1),
            forall|i: int|
                0 <= i < r->Ok_0@.len() ==> (#[trigger] r->Ok_0@[i]).vs@.len() == self.val_len(),
    {
        let lo = self.lower_bound(t0);
        let mut out: Vec<Point> = Vec::new();
        let mut i: usize = lo;
        while i < self.all.len() && self.all[i].t < t1
            invariant
                lo <= i <= self.all@.len(),
                self.wf(),
                out@.len() == i - lo,
                forall|k: int|
                    0 <= k < out@.len() ==> (#[trigger] out@[k]).t == self.all@[lo + k].t
                        && out@[k].vs@ == self.all@[lo + k].vs@,
                forall|j: int| lo <= j < i ==> (#[trigger] self.all@[j]).t < t1,
            decreases self.all@.len() - i,
        {
            let p = &self.all[i];
            out.push(Point { t: p.t, vs: copy_values(&p.vs) });
            i += 1;
        }
        proof {
            lemma_slice_is_range(self.all@, out@, lo as int, i as int, t0, t1);
        }
        Ok(out)
    }

    /// The first sample with a time at or after `t`, if there is one.
    pub fn query_point(&self, t: Time) -> (r: Result<Option<Point>, Error>)
        requires
            self.wf(),
        ensures
            r is Ok,
            is_first_from(r->Ok_0, self@, t),
            r->Ok_0 is Some ==> r->Ok_0->Some_0.vs@.len() == self.val_len(),
    {
        let lo = self.lower_bound(t);
        if lo < self.all.len() {
            let p = &self.all[lo];
            let found = Point { t: p.t, vs: copy_values(&p.vs) };
            proof {
                lemma_contents_at(self.all@, lo as int);
                assert forall|u: Time| #[trigger] self@.contains_key(u) && t <= u implies found.t
                    <= u by {
                    let j = choose|j: int| 0 <= j < self.all@.len() && self.all@[j].t == u;
                    if j < lo {
                        assert(self.all@[j].t < t);
                    } else if j > lo {
                        assert(self.all@[lo as int].t < self.all@[j].t);
                    }
                }
            }
            Ok(Some(found))
        } else {
            proof {
                assert forall|u: Time| #[trigger] self@.contains_key(u) implies u < t by {
                    let j = choose|j: int| 0 <= j < self.all@.len() && self.all@[j].t == u;
                    assert(self.all@[j].t < t);
                }
            }
            Ok(None)
        }
    }

    /// The time of the earliest retained sample, or 0 if the store is empty.
    ///
    /// A result of 0 does not tell an empty store from one that starts at 0.
    pub fn first_t(&self) -> (t: Time)
        requires
            self.wf(),
        ensures
            t == earliest_or_zero(self@),
            self@.contains_key(t) || (t == 0 && forall|u: Time| !self@.contains_key(u)),
            forall|u: Time| #[trigger] self@.contains_key(u) ==> t <= u,
    {
        if self.all.len() == 0 {
            proof {
                assert forall|u: Time| !self@.contains_key(u) by {}
            }
            0
        } else {
            let t = self.all[0].t;
            proof {
                lemma_contents_at(self.all@, 0);
                assert forall|u: Time| #[trigger] self@.contains_key(u) implies t <= u by {
                    let j = choose|j: int| 0 <= j < self.all@.len() && self.all@[j].t == u;
                    if j > 0 {
                        assert(self.all@[0].t < self.all@[j].t);
                    }
                }
                lemma_earliest_unique(self@, t);
            }
            t
        }
    }

    /// Remove the samples with a time in `[t0, t1)`. The others stay, and so
    /// does `last_t()`.
    pub fn discard(&mut self, t0: Time, t1: Time) -> (r: Result<(), Error>)
        requires
            old(self).wf(),
        ensures
            r is Ok,
            final(self).wf(),
            final(self)@ == old(self)@.remove_keys(time_range(t0, t1)),
            final(self).last_t() == old(self).last_t(),
            final(self).val_len() == old(self).val_len(),
    {
        let lo = self.lower_bound(t0);
        let hi = self.lower_bound(t1);
        let ghost s = self.all@;
        if lo < hi {
            let mut tail = self.all.split_off(hi);
            self.all.truncate(lo);
            self.all.append(&mut tail);
            proof {
                lemma_cut_removes(s, lo as int, hi as int, t0, t1);
                assert(s.subrange(0, hi as int).subrange(0, lo as int) =~= s.subrange(
                    0,
                    lo as int,
                ));
            }
        } else {
            proof {
                lemma_cut_removes(s, lo as int, lo as int, t0, t1);
                assert(s.subrange(0, lo as int) + s.subrange(lo as int, s.len() as int) =~= s);
            }
        }
        proof {
            assert forall|i: int| 0 <= i < self.all@.len() implies (#[trigger] self.all@[i]).t
                <= self.last_t && self.all@[i].vs@.len() == self.val_len by {
                if lo < hi {
                    assert(self.all@[i] == s[before_cut(lo as int, hi as int, i)]);
                }
            }
        }
        Ok(())
    }

    /// What a well-formed store holds: no sample later than `last_t()`, and
    /// `val_len()` values in each.
    pub proof fn lemma_wf(&self)
        requires
            self.wf(),
        ensures
            forall|t: Time| #[trigger]
                self@.contains_key(t) ==> t <= self.last_t() && self@[t].len() == self.val_len(),
    {
        assert forall|t: Time| #[trigger] self@.contains_key(t) implies t <= self.last_t()
            && self@[t].len() == self.val_len() by {
            let j = choose|j: int| 0 <= j < self.all@.len() && self.all@[j].t == t;
            lemma_contents_at(self.all@, j);
        }
    }

    /// The highest time ever taken in: discarding samples does not lower it.
    #[verifier::when_used_as_spec(spec_last_t)]
    pub fn last_t(&self) -> (t: Time)
        ensures
            t == self.last_t(),
    {
        self.last_t
    }

    /// The number of values that each sample holds.
    #[verifier::when_used_as_spec(spec_val_len)]
    pub fn val_len(&self) -> (n: u8)
        ensures
            n == self.val_len(),
    {
        self.val_len
    }
}

/// The result of a query for a range is in strictly rising order of time,
/// and each of its points lies in the range.
pub proof fn lemma_range_is_ordered(r: Seq<Point>, m: Map<Time, Seq<Value>>, t0: Time, t1: Time)
    requires
        is_range_of(r, m, t0, t1),
    ensures
        forall|i: int, j: int| 0 <= i < j < r.len() ==> r[i].t < r[j].t,
        forall|i: int| 0 <= i < r.len() ==> t0 <= (#[trigger] r[i]).t < t1,
{
}

/// A point that may not follow the points before it ends the batch: the
/// points before it are taken in, it and the points after it are not.
pub proof fn lemma_unfit_point_stops(last_t: Time, val_len: u8, ps: Seq<Point>, k: int)
    requires
        0 <= k < ps.len(),
        forall|i: int| 0 <= i < k ==> follows(last_t, val_len, ps, i),
        !follows(last_t, val_len, ps, k),
    ensures
        accepted_len(last_t, val_len, ps) == k,
{
    lemma_accepted_from(last_t, val_len, ps, k, 0);
}

/// A batch whose every point may follow the one before it is taken in whole.
pub proof fn lemma_fit_batch_accepted(last_t: Time, val_len: u8, ps: Seq<Point>)
    requires
        forall|i: int| 0 <= i < ps.len() ==> follows(last_t, val_len, ps, i),
    ensures
        accepted_len(last_t, val_len, ps) == ps.len(),
{
    lemma_accepted_from(last_t, val_len, ps, ps.len() as int, 0);
}

/// The times of a batch whose every point may follow the one before it rise
/// strictly, and all exceed `last_t`.
pub proof fn lemma_fit_batch_rises(last_t: Time, val_len: u8, ps: Seq<Point>)
    requires
        forall|i: int| 0 <= i < ps.len() ==> follows(last_t, val_len, ps, i),
    ensures
        times_increasing(ps),
        forall|i: int| 0 <= i < ps.len() ==> last_t < (#[trigger] ps[i]).t,
{
    assert forall|i: int, j: int| 0 <= i < j < ps.len() implies ps[i].t < ps[j].t by {
        lemma_rises_between(last_t, val_len, ps, i, j);
    }
    assert forall|i: int| 0 <= i < ps.len() implies last_t < (#[trigger] ps[i]).t by {
        assert(follows(last_t, val_len, ps, 0));
        if i > 0 {
            lemma_rises_between(last_t, val_len, ps, 0, i);
        }
    }
}

/// Every point of a batch with rising times is in the contents once the batch
/// has been put in, with its own values.
pub proof fn lemma_with_points_holds(m: Map<Time, Seq<Value>>, ps: Seq<Point>, i: int)
    requires
        times_increasing(ps),
        0 <= i < ps.len(),
    ensures
        with_points(m, ps).contains_key(ps[i].t),
        with_points(m, ps)[ps[i].t] == ps[i].vs@,
    decreases ps.len(),
{
    if i < ps.len() - 1 {
        assert(times_increasing(ps.drop_last()));
        lemma_with_points_holds(m, ps.drop_last(), i);
        assert(ps[i].t < ps.last().t);
    }
}

/// Putting a batch in leaves alone every sample at a time that the batch
/// does not name.
pub proof fn lemma_with_points_keeps(m: Map<Time, Seq<Value>>, ps: Seq<Point>, t: Time)
    requires
        forall|i: int| 0 <= i < ps.len() ==> ps[i].t != t,
    ensures
        with_points(m, ps).contains_key(t) == m.contains_key(t),
        m.contains_key(t) ==> with_points(m, ps)[t] == m[t],
    decreases ps.len(),
{
    if ps.len() > 0 {
        lemma_with_points_keeps(m, ps.drop_last(), t);
    }
}

/// Asking for the first sample at or after the time of a sample that the
/// store holds gives that sample back.
pub proof fn lemma_query_point_round_trip(m: Map<Time, Seq<Value>>, t: Time, p: Option<Point>)
    requires
        m.contains_key(t),
        is_first_from(p, m, t),
    ensures
        p is Some,
        p->Some_0.t == t,
        p->Some_0.vs@ == m[t],
{
}

/// Once a batch has been taken in whole, asking for the first sample at or
/// after the time of any of its points gives that point back.
pub proof fn lemma_ingested_point_round_trip(
    last_t: Time,
    val_len: u8,
    m: Map<Time, Seq<Value>>,
    ps: Seq<Point>,
    i: int,
    p: Option<Point>,
)
    requires
        forall|k: int| 0 <= k < ps.len() ==> follows(last_t, val_len, ps, k),
        0 <= i < ps.len(),
        is_first_from(p, with_points(m, ps), ps[i].t),
    ensures
        accepted_len(last_t, val_len, ps) == ps.len(),
        p is Some,
        p->Some_0.t == ps[i].t,
        p->Some_0.vs@ == ps[i].vs@,
{
    lemma_fit_batch_accepted(last_t, val_len, ps);
    lemma_fit_batch_rises(last_t, val_len, ps);
    lemma_with_points_holds(m, ps, i);
    lemma_query_point_round_trip(with_points(m, ps), ps[i].t, p);
}

/// After the samples in `[t0, t1)` have been discarded, a query for that
/// range finds nothing.
pub proof fn lemma_discarded_range_is_empty(
    m: Map<Time, Seq<Value>>,
    t0: Time,
    t1: Time,
    r: Seq<Point>,
)
    requires
        is_range_of(r, m.remove_keys(time_range(t0, t1)), t0, t1),
    ensures
        r.len() == 0,
{
    if r.len() > 0 {
        assert(time_range(t0, t1).contains(r[0].t));
        assert(m.remove_keys(time_range(t0, t1)).contains_key(r[0].t));
    }
}

/// Discarding `[t0, t1)` keeps every sample at a time outside that range, so
/// that a query for the first sample at or after its time still finds it.
pub proof fn lemma_discard_keeps_outside(
    m: Map<Time, Seq<Value>>,
    t0: Time,
    t1: Time,
    t: Time,
    p: Option<Point>,
)
    requires
        m.contains_key(t),
        !(t0 <= t < t1),
        is_first_from(p, m.remove_keys(time_range(t0, t1)), t),
    ensures
        m.remove_keys(time_range(t0, t1)).contains_key(t),
        m.remove_keys(time_range(t0, t1))[t] == m[t],
        p is Some,
        p->Some_0.t == t,
        p->Some_0.vs@ == m[t],
{
    assert(!time_range(t0, t1).contains(t));
    assert(m.remove_keys(time_range(t0, t1)).contains_key(t));
}

/// A map has at most one earliest time.
pub proof fn lemma_earliest_unique(m: Map<Time, Seq<Value>>, t: Time)
    requires
        is_earliest(t, m),
    ensures
        earliest_or_zero(m) == t,
{
    let c = choose|c: Time| is_earliest(c, m);
    assert(is_earliest(c, m));
    assert(c <= t && t <= c);
}

proof fn lemma_accepted_from(last_t: Time, val_len: u8, ps: Seq<Point>, k: int, i: int)
    requires
        0 <= i <= k <= ps.len(),
        forall|j: int| 0 <= j < k ==> follows(last_t, val_len, ps, j),
        k < ps.len() ==> !follows(last_t, val_len, ps, k),
    ensures
        accepted_from(last_t, val_len, ps, i) == k,
    decreases k - i,
{
    if i < k {
        lemma_accepted_from(last_t, val_len, ps, k, i + 1);
    }
}

proof fn lemma_rises_between(last_t: Time, val_len: u8, ps: Seq<Point>, i: int, j: int)
    requires
        forall|k: int| 0 <= k < ps.len() ==> follows(last_t, val_len, ps, k),
        0 <= i < j < ps.len(),
    ensures
        ps[i].t < ps[j].t,
    decreases j - i,
{
    assert(follows(last_t, val_len, ps, j));
    if i < j - 1 {
        lemma_rises_between(last_t, val_len, ps, i, j - 1);
    }
}

/// With rising times, each point of `s` is the sample that `contents(s)`
/// holds at its time.
proof fn lemma_contents_at(s: Seq<Point>, i: int)
    requires
        times_increasing(s),
        0 <= i < s.len(),
    ensures
        contents(s).contains_key(s[i].t),
        contents(s)[s[i].t] == s[i].vs@,
{
    let j = choose|j: int| 0 <= j < s.len() && s[j].t == s[i].t;
    assert(j == i) by {
        if j < i {
            assert(s[j].t < s[i].t);
        }
        if i < j {
            assert(s[i].t < s[j].t);
        }
    }
}

/// Putting a later point at the end of `s` puts its sample into the contents.
proof fn lemma_contents_push(s: Seq<Point>, p: Point)
    requires
        times_increasing(s),
        forall|i: int| 0 <= i < s.len() ==> s[i].t < p.t,
    ensures
        times_increasing(s.push(p)),
        contents(s.push(p)) == contents(s).insert(p.t, p.vs@),
{
    let s2 = s.push(p);
    assert(times_increasing(s2));
    assert forall|t: Time| contents(s2).contains_key(t) <==> contents(s).insert(
        p.t,
        p.vs@,
    ).contains_key(t) by {
        if contents(s2).contains_key(t) {
            let i = choose|i: int| 0 <= i < s2.len() && s2[i].t == t;
            if i < s.len() {
                assert(s[i].t == t);
            }
        }
        if contents(s).contains_key(t) {
            let i = choose|i: int| 0 <= i < s.len() && s[i].t == t;
            assert(s2[i].t == t);
        }
        if t == p.t {
            assert(s2[s.len() as int].t == t);
        }
    }
    assert forall|t: Time| contents(s2).contains_key(t) implies contents(s2)[t] == contents(
        s,
    ).insert(p.t, p.vs@)[t] by {
        let i = choose|i: int| 0 <= i < s2.len() && s2[i].t == t;
        lemma_contents_at(s2, i);
        if i < s.len() {
            assert(s[i] == s2[i]);
            lemma_contents_at(s, i);
        }
    }
    assert(contents(s2) =~= contents(s).insert(p.t, p.vs@));
}

/// Copies of the points `lo..hi` of a rising sequence `s`, where those before
/// `lo` come before `t0`, those in `lo..hi` before `t1`, and those from `hi`
/// on do not, list the samples in `[t0, t1)`.
proof fn lemma_slice_is_range(s: Seq<Point>, r: Seq<Point>, lo: int, hi: int, t0: Time, t1: Time)
    requires
        times_increasing(s),
        0 <= lo <= hi <= s.len(),
        r.len() == hi - lo,
        forall|k: int|
            0 <= k < r.len() ==> (#[trigger] r[k]).t == s[lo + k].t && r[k].vs@ == s[lo + k].vs@,
        forall|i: int| 0 <= i < lo ==> (#[trigger] s[i]).t < t0,
        forall|i: int| lo <= i < s.len() ==> (#[trigger] s[i]).t >= t0,
        forall|i: int| lo <= i < hi ==> (#[trigger] s[i]).t < t1,
        hi < s.len() ==> s[hi].t >= t1,
    ensures
        is_range_of(r, contents(s), t0, t1),
{
    let m = contents(s);
    assert(times_increasing(r)) by {
        assert forall|i: int, j: int| 0 <= i < j < r.len() implies r[i].t < r[j].t by {
            assert(s[lo + i].t < s[lo + j].t);
        }
    }
    assert forall|i: int| 0 <= i < r.len() implies t0 <= (#[trigger] r[i]).t < t1 && m.contains_key(
        r[i].t,
    ) && m[r[i].t] == r[i].vs@ by {
        lemma_contents_at(s, lo + i);
        assert(s[lo + i].t >= t0);
        assert(s[lo + i].t < t1);
    }
    assert forall|t: Time| #[trigger] m.contains_key(t) && t0 <= t < t1 implies exists|i: int|
        0 <= i < r.len() && r[i].t == t by {
        let j = choose|j: int| 0 <= j < s.len() && s[j].t == t;
        if j < lo {
            assert(s[j].t < t0);
        }
        if j >= hi {
            if j > hi {
                assert(s[hi].t < s[j].t);
            }
            assert(false);
        }
        assert(r[j - lo].t == t);
    }
}

/// Where point `i` of a sequence stood before the points `lo..hi` were cut out.
spec fn before_cut(lo: int, hi: int, i: int) -> int {
    if i < lo {
        i
    } else {
        i + (hi - lo)
    }
}

/// Cutting the points `lo..hi` out of a rising sequence `s`, where the points
/// `lo..hi` are those with a time in `[t0, t1)`, removes the samples in
/// `[t0, t1)` and no others.
proof fn lemma_cut_removes(s: Seq<Point>, lo: int, hi: int, t0: Time, t1: Time)
    requires
        times_increasing(s),
        0 <= lo <= hi <= s.len(),
        forall|i: int| 0 <= i < s.len() ==> (lo <= i < hi <==> t0 <= (#[trigger] s[i]).t < t1),
    ensures
        times_increasing(s.subrange(0, lo) + s.subrange(hi, s.len() as int)),
        contents(s.subrange(0, lo) + s.subrange(hi, s.len() as int)) == contents(s).remove_keys(
            time_range(t0, t1),
        ),
{
    let r = s.subrange(0, lo) + s.subrange(hi, s.len() as int);
    let m = contents(s).remove_keys(time_range(t0, t1));
    assert(r.len() == s.len() - (hi - lo));
    assert forall|i: int| 0 <= i < r.len() implies #[trigger] r[i] == s[before_cut(lo, hi, i)] by {}
    assert forall|i: int, j: int| 0 <= i < j < r.len() implies r[i].t < r[j].t by {
        assert(r[i] == s[before_cut(lo, hi, i)]);
        assert(r[j] == s[before_cut(lo, hi, j)]);
    }
    assert forall|t: Time| contents(r).contains_key(t) implies m.contains_key(t) by {
        let i = choose|i: int| 0 <= i < r.len() && r[i].t == t;
        let j = before_cut(lo, hi, i);
        assert(r[i] == s[j]);
        assert(s[j].t == t);
        assert(!(lo <= j < hi));
    }
    assert forall|t: Time| m.contains_key(t) implies contents(r).contains_key(t) by {
        let j = choose|j: int| 0 <= j < s.len() && s[j].t == t;
        assert(!(t0 <= s[j].t < t1));
        assert(!(lo <= j < hi));
        let i = if j < lo { j } else { j - (hi - lo) };
        assert(before_cut(lo, hi, i) == j);
        assert(r[i] == s[before_cut(lo, hi, i)]);
        assert(r[i].t == t);
    }
    assert forall|t: Time| contents(r).contains_key(t) implies contents(r)[t] == m[t] by {
        let i = choose|i: int| 0 <= i < r.len() && r[i].t == t;
        lemma_contents_at(r, i);
        assert(r[i] == s[before_cut(lo, hi, i)]);
        lemma_contents_at(s, before_cut(lo, hi, i));
    }
    assert(contents(r) =~= m);
}

/// A fresh vector with the values of `vs`.
fn copy_values(vs: &Vec<Value>) -> (r: Vec<Value>)
    ensures
        r@ == vs@,
{
    let mut r: Vec<Value> = Vec::with_capacity(vs.len());
    let mut i: usize = 0;
    while i < vs.len()
        invariant
            i <= vs@.len(),
            r@ == vs@.take(i as int),
        decreases vs@.len() - i,
    {
        r.push(vs[i]);
        assert(vs@.take(i + 1) =~= vs@.take(i as int).push(vs@[i as int]));
        i += 1;
    }
    assert(vs@.take(vs@.len() as int) =~= vs@);
    r
}

} // verus!
