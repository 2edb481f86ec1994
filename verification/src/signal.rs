//! A list of subscribers that are called back when a signal is raised.

use vstd::prelude::*;

verus! {

/// The identifier for a subscription, used to disconnect it when no longer required.
#[derive(Clone, Copy, Debug, PartialEq, Eq, Structural)]
pub struct SubscriptionId(pub usize);

/// One subscriber: its identifier and the function to call.
pub struct Subscription<F> {
    /// The identifier that `connect` gave out.
    pub id: SubscriptionId,
    /// The function to call.
    pub callback: F,
}

/// The identifiers of `subs` rise strictly from one to the next and lie
/// below `new_id`, so that none occurs twice and none is given out again.
pub open spec fn ids_in_order<F>(subs: Seq<Subscription<F>>, new_id: usize) -> bool {
    &&& forall|i: int, j: int| 0 <= i < j < subs.len() ==> subs[i].id.0 < subs[j].id.0
    &&& forall|i: int| 0 <= i < subs.len() ==> (#[trigger] subs[i]).id.0 < new_id
}

/// The place of the subscription `id` in `subs`, or the length of `subs` if
/// there is none.
pub open spec fn position_of<F>(subs: Seq<Subscription<F>>, id: SubscriptionId) -> int
    decreases subs.len(),
{
    if subs.len() == 0 {
        0
    } else if subs[0].id == id {
        0
    } else {
        1 + position_of(subs.drop_first(), id)
    }
}

/// `subs` without the subscription `id`; the others keep their order.
pub open spec fn without<F>(subs: Seq<Subscription<F>>, id: SubscriptionId) -> Seq<
    Subscription<F>,
> {
    let i = position_of(subs, id);
    if 0 <= i < subs.len() {
        subs.remove(i)
    } else {
        subs
    }
}

/// The subscriber `f` has been called with a clone of `value`, and has returned.
pub open spec fn notified<T: Clone, F: Fn(T)>(f: F, value: T) -> bool {
    exists|v: T| #[trigger] cloned(value, v) && call_ensures(f, (v,), ())
}

/// Implements a broadcast-listener / callback / observable pattern.
///
/// `Signal` holds a list of subscriptions, each with a callback to run on the
/// next broadcast. All callbacks of one signal have one type `F`; a signal
/// whose callbacks differ holds them boxed.
pub struct Signal<T, F> {
    subs: Vec<Subscription<F>>,
    new_id: usize,
    marker: core::marker::PhantomData<T>,
}

impl<T: Clone, F: Fn(T)> Signal<T, F> {
    /// The subscriptions, in the order in which they were connected.
    pub closed spec fn subs(&self) -> Seq<Subscription<F>> {
        self.subs@
    }

    /// The identifier that the next subscription will get.
    pub closed spec fn next_id(&self) -> usize {
        self.new_id
    }

    /// No identifier occurs twice among the subscriptions, and none will be
    /// given out again.
    pub open spec fn wf(&self) -> bool {
        ids_in_order(self.subs(), self.next_id())
    }

    /// Every subscriber can be called with every clone of `value`.
    pub open spec fn callable(&self, value: T) -> bool {
        forall|i: int, v: T|
            0 <= i < self.subs().len() && cloned(value, v) ==> #[trigger] call_requires(
                self.subs()[i].callback,
                (v,),
            )
    }

    /// Construct a new `Signal`, with no subscribers.
    pub fn new() -> (s: Signal<T, F>)
        ensures
            s.wf(),
            s.subs() == Seq::<Subscription<F>>::empty(),
            s.next_id() == 0,
    {
        Signal { subs: Vec::new(), new_id: 0, marker: core::marker::PhantomData }
    }

    /// Whether one more subscriber can be connected: identifiers are left.
    pub fn can_connect(&self) -> (b: bool)
        ensures
            b == (self.next_id() < usize::MAX),
    {
        self.new_id < usize::MAX
    }

    /// Connect a new subscriber that will receive callbacks when the
    /// signal is raised.
    ///
    /// Returns a SubscriptionId to disconnect the subscription when
    /// no longer required.
    pub fn connect(&mut self, callback: F) -> (id: SubscriptionId)
        requires
            old(self).wf(),
            old(self).next_id() < usize::MAX,
        ensures
            final(self).wf(),
            id == SubscriptionId(old(self).next_id()),
            final(self).next_id() == old(self).next_id() + 1,
            final(self).subs() == old(self).subs().push(Subscription { id, callback }),
    {
        let id = SubscriptionId(self.new_id);
        self.new_id = self.new_id + 1;
        self.subs.push(Subscription { id, callback });
        id
    }

    /// Notify existing subscribers: each is called once with a clone of
    /// `value`, in the order in which they were connected.
    pub fn raise(&self, value: T)
        requires
            self.callable(value),
        ensures
            forall|i: int|
                0 <= i < self.subs().len() ==> #[trigger] notified(self.subs()[i].callback, value),
    {
        let mut i: usize = 0;
        while i < self.subs.len()
            invariant
                i <= self.subs@.len(),
                self.callable(value),
                forall|j: int| 0 <= j < i ==> #[trigger] notified(self.subs@[j].callback, value),
            decreases self.subs@.len() - i,
        {
            let v = value.clone();
            assert(call_requires(self.subs()[i as int].callback, (v,)));
            (self.subs[i].callback)(v);
            assert(cloned(value, v) && call_ensures(self.subs@[i as int].callback, (v,), ()));
            i += 1;
        }
    }

    /// Disconnect an existing subscription. Disconnecting one that is not
    /// connected changes nothing.
    pub fn disconnect(&mut self, id: SubscriptionId)
        requires
            old(self).wf(),
        ensures
            final(self).wf(),
            final(self).next_id() == old(self).next_id(),
            final(self).subs() == without(old(self).subs(), id),
    {
        let mut i: usize = 0;
        while i < self.subs.len()
            invariant
                i <= self.subs@.len(),
                self.subs@ == old(self).subs@,
                self.new_id == old(self).new_id,
                ids_in_order(self.subs@, self.new_id),
                forall|j: int| 0 <= j < i ==> (#[trigger] self.subs@[j]).id != id,
            decreases self.subs@.len() - i,
        {
            if self.subs[i].id == id {
                proof {
                    lemma_position_is(self.subs@, id, i as int);
                    lemma_without(self.subs@, self.new_id, id);
                }
                self.subs.remove(i);
                return ;
            }
            i += 1;
        }
        proof {
            lemma_position_is(self.subs@, id, i as int);
        }
    }
}

/// Where no identifier occurs twice, a subscription that has been taken out
/// is gone, and every other one is still there.
pub proof fn lemma_without<F>(subs: Seq<Subscription<F>>, new_id: usize, id: SubscriptionId)
    requires
        ids_in_order(subs, new_id),
    ensures
        ids_in_order(without(subs, id), new_id),
        forall|i: int|
            0 <= i < without(subs, id).len() ==> (#[trigger] without(subs, id)[i]).id != id,
        forall|i: int|
            0 <= i < subs.len() && (#[trigger] subs[i]).id != id ==> without(subs, id).contains(
                subs[i],
            ),
{
    lemma_position_of(subs, id);
    let k = position_of(subs, id);
    let r = without(subs, id);
    if k < subs.len() {
        assert forall|i: int| 0 <= i < r.len() implies (#[trigger] r[i]).id != id by {
            if i < k {
                assert(r[i] == subs[i]);
            } else {
                assert(r[i] == subs[i + 1]);
                assert(subs[k].id.0 < subs[i + 1].id.0);
            }
        }
        assert forall|i: int|
            0 <= i < subs.len() && (#[trigger] subs[i]).id != id implies r.contains(subs[i]) by {
            if i < k {
                assert(r[i] == subs[i]);
            } else {
                assert(r[i - 1] == subs[i]);
            }
        }
        assert forall|i: int, j: int| 0 <= i < j < r.len() implies r[i].id.0 < r[j].id.0 by {
            let a = if i < k { i } else { i + 1 };
            let b = if j < k { j } else { j + 1 };
            assert(r[i] == subs[a]);
            assert(r[j] == subs[b]);
        }
        assert forall|i: int| 0 <= i < r.len() implies (#[trigger] r[i]).id.0 < new_id by {
            let a = if i < k { i } else { i + 1 };
            assert(r[i] == subs[a]);
        }
    } else {
        assert forall|i: int|
            0 <= i < subs.len() && (#[trigger] subs[i]).id != id implies r.contains(subs[i]) by {
            assert(r[i] == subs[i]);
        }
    }
}

/// Every subscription that is left once `id` has been taken out was there before.
pub proof fn lemma_without_keeps<F>(subs: Seq<Subscription<F>>, id: SubscriptionId)
    ensures
        forall|i: int|
            0 <= i < without(subs, id).len() ==> subs.contains(#[trigger] without(subs, id)[i]),
{
    lemma_position_of(subs, id);
    let k = position_of(subs, id);
    let r = without(subs, id);
    assert forall|i: int| 0 <= i < r.len() implies subs.contains(#[trigger] r[i]) by {
        if k < subs.len() {
            if i < k {
                assert(r[i] == subs[i]);
            } else {
                assert(r[i] == subs[i + 1]);
            }
        } else {
            assert(r[i] == subs[i]);
        }
    }
}

/// `position_of` finds the first subscription with the identifier `id`.
pub proof fn lemma_position_of<F>(subs: Seq<Subscription<F>>, id: SubscriptionId)
    ensures
        0 <= position_of(subs, id) <= subs.len(),
        position_of(subs, id) < subs.len() ==> subs[position_of(subs, id)].id == id,
        forall|i: int| 0 <= i < position_of(subs, id) ==> (#[trigger] subs[i]).id != id,
    decreases subs.len(),
{
    if subs.len() > 0 && subs[0].id != id {
        let rest = subs.drop_first();
        lemma_position_of(rest, id);
        assert forall|i: int| 0 <= i < position_of(subs, id) implies (#[trigger] subs[i]).id
            != id by {
            if i > 0 {
                assert(subs[i] == rest[i - 1]);
            }
        }
    }
}

/// The first place at which `id` occurs, or the length where it does not
/// occur, is what `position_of` gives.
pub proof fn lemma_position_is<F>(subs: Seq<Subscription<F>>, id: SubscriptionId, k: int)
    requires
        0 <= k <= subs.len(),
        forall|j: int| 0 <= j < k ==> (#[trigger] subs[j]).id != id,
        k < subs.len() ==> subs[k].id == id,
    ensures
        position_of(subs, id) == k,
{
    lemma_position_of(subs, id);
    let p = position_of(subs, id);
    if p < k {
        assert(subs[p].id == id);
    } else if p > k {
        assert(subs[k].id != id);
    }
}

} // verus!
