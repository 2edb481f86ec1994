//! A value that tells its subscribers when it changes.

use std::rc::Rc;
use vstd::cell::invcell::InvCell;
use vstd::predicate::Predicate;
use vstd::prelude::*;
use crate::signal::{
    ids_in_order, lemma_position_is, lemma_without, without, Subscription,
};

pub use crate::signal::SubscriptionId;

verus! {

/// A value that implements the Observer pattern.
///
/// Consumers can connect to receive callbacks when the value changes. All
/// callbacks of one value have one type `F`; a value whose callbacks differ
/// holds them boxed.
pub struct ObservableValue<T, F> {
    value: T,
    subs: Vec<Subscription<F>>,
    new_id: usize,
}

impl<T: Clone, F: Fn(&T)> ObservableValue<T, F> {
    /// The value held.
    pub closed spec fn value(&self) -> T {
        self.value
    }

    /// The subscriptions, in the order in which they were connected.
    pub closed spec fn subs(&self) -> Seq<Subscription<F>> {
        self.subs@
    }

    /// The identifier that the next subscription will get.
    pub closed spec fn next_id(&self) -> usize {
        self.new_id
    }

    /// No identifier occurs twice among the subscriptions, and none will be
    /// given out again.
    pub open spec fn wf(&self) -> bool {
        ids_in_order(self.subs(), self.next_id())
    }

    /// Every subscriber can be called with `value`. The value held plays no part in this.
    pub open spec fn callable(&self, value: T) -> bool {
        forall|i: int|
            0 <= i < self.subs().len() ==> call_requires(
                #[trigger] self.subs()[i].callback,
                (&value,),
            )
    }

    /// Every subscriber has been called with `value`, and has returned.
    pub open spec fn notified(&self, value: T) -> bool {
        forall|i: int|
            0 <= i < self.subs().len() ==> call_ensures(
                #[trigger] self.subs()[i].callback,
                (&value,),
                (),
            )
    }

    /// Whether the subscribers can be called depends on the subscribers
    /// alone, not on the value held.
    pub proof fn lemma_callable_by_subs(&self, other: &Self)
        requires
            self.subs() == other.subs(),
            forall|v: T| #[trigger] self.callable(v),
        ensures
            forall|v: T| #[trigger] other.callable(v),
    {
        assert forall|v: T| #[trigger] other.callable(v) by {
            assert(self.callable(v));
        }
    }

    /// A value with no subscribers.
    pub fn new(initial_value: T) -> (ov: ObservableValue<T, F>)
        ensures
            ov.wf(),
            ov.value() == initial_value,
            ov.subs() == Seq::<Subscription<F>>::empty(),
            ov.next_id() == 0,
    {
        ObservableValue { value: initial_value, new_id: 0, subs: Vec::new() }
    }

    /// The value held.
    pub fn get(&self) -> (v: &T)
        ensures
            *v == self.value(),
    {
        &self.value
    }

    /// Hold a clone of `new_value` from now on, then call every subscriber
    /// with the value held, in the order in which they were connected.
    pub fn set(&mut self, new_value: &T)
        requires
            forall|v: T| cloned(*new_value, v) ==> #[trigger] old(self).callable(v),
        ensures
            cloned(*new_value, final(self).value()),
            final(self).subs() == old(self).subs(),
            final(self).next_id() == old(self).next_id(),
            final(self).notified(final(self).value()),
    {
        self.value = new_value.clone();
        assert(self.subs() == old(self).subs());
        assert(old(self).callable(self.value));
        self.call_subscribers();
    }

    /// Call every subscriber with the value held, in the order in which they
    /// were connected.
    pub fn call_subscribers(&self)
        requires
            self.callable(self.value()),
        ensures
            self.notified(self.value()),
    {
        let mut i: usize = 0;
        while i < self.subs.len()
            invariant
                i <= self.subs@.len(),
                self.callable(self.value()),
                forall|j: int|
                    0 <= j < i ==> call_ensures(
                        #[trigger] self.subs()[j].callback,
                        (&self.value,),
                        (),
                    ),
            decreases self.subs@.len() - i,
        {
            assert(call_requires(self.subs()[i as int].callback, (&self.value,)));
            (self.subs[i].callback)(&self.value);
            i += 1;
        }
    }

    /// Whether one more subscriber can be connected: identifiers are left.
    pub fn can_connect(&self) -> (b: bool)
        ensures
            b == (self.next_id() < usize::MAX),
    {
        self.new_id < usize::MAX
    }

    /// Connect a new subscriber, which is called back whenever the value is
    /// set. Returns the identifier by which to disconnect it.
    pub fn connect(&mut self, callback: F) -> (id: SubscriptionId)
        requires
            old(self).wf(),
            old(self).next_id() < usize::MAX,
        ensures
            final(self).wf(),
            id == SubscriptionId(old(self).next_id()),
            final(self).next_id() == old(self).next_id() + 1,
            final(self).subs() == old(self).subs().push(Subscription { id, callback }),
            final(self).value() == old(self).value(),
    {
        let id = SubscriptionId(self.new_id);
        self.new_id = self.new_id + 1;
        self.subs.push(Subscription { id, callback });
        id
    }

    /// Disconnect a subscriber. Disconnecting one that is not connected
    /// changes nothing.
    pub fn disconnect(&mut self, sub_id: SubscriptionId)
        requires
            old(self).wf(),
        ensures
            final(self).wf(),
            final(self).next_id() == old(self).next_id(),
            final(self).subs() == without(old(self).subs(), sub_id),
            final(self).value() == old(self).value(),
    {
        let mut i: usize = 0;
        while i < self.subs.len()
            invariant
                i <= self.subs@.len(),
                *self == *old(self),
                ids_in_order(self.subs@, self.new_id),
                forall|j: int| 0 <= j < i ==> (#[trigger] self.subs@[j]).id != sub_id,
            decreases self.subs@.len() - i,
        {
            if self.subs[i].id == sub_id {
                proof {
                    lemma_position_is(self.subs@, sub_id, i as int);
                    lemma_without(self.subs@, self.new_id, sub_id);
                }
                self.subs.remove(i);
                return ;
            }
            i += 1;
        }
        proof {
            lemma_position_is(self.subs@, sub_id, i as int);
        }
    }
}

/// What the cell that two halves share may hold: nothing, while one of the
/// halves is at work on the value; else a well-formed value whose subscribers
/// can be called with any value.
pub struct AtRest;

impl<T: Clone, F: Fn(&T)> Predicate<Option<ObservableValue<T, F>>> for AtRest {
    open spec fn predicate(&self, v: Option<ObservableValue<T, F>>) -> bool {
        ObservableValue::at_rest(v)
    }
}

/// The half of a split value that can read it and listen for updates, but
/// cannot write new values.
pub struct ReadHalf<T, F> {
    inner: Rc<InvCell<Option<ObservableValue<T, F>>, AtRest>>,
}

/// The half of a split value that can write new values.
pub struct WriteHalf<T, F> {
    inner: Rc<InvCell<Option<ObservableValue<T, F>>, AtRest>>,
}

/// A second pointer to the cell that `rc` points to.
///
/// Wraps `Rc::clone`, which makes a new pointer to the same allocation: what
/// the result points to is what `rc` points to.
#[verifier::external_body]
fn share<V>(rc: &Rc<V>) -> (r: Rc<V>)
    ensures
        r == *rc,
{
    rc.clone()
}

impl<T: Clone, F: Fn(&T)> ObservableValue<T, F> {
    /// Divide this instance into a read half (can listen for updates, but cannot
    /// write new values) and a write half (can write new values). Both work
    /// on the one value.
    pub fn split(self) -> (halves: (ReadHalf<T, F>, WriteHalf<T, F>))
        requires
            self.wf(),
            forall|x: T| #[trigger] self.callable(x),
        ensures
            halves.0.shares_with(&halves.1),
    {
        let cell = InvCell::new(Some(self), Ghost(AtRest));
        let inner = Rc::new(cell);
        (ReadHalf { inner: share(&inner) }, WriteHalf { inner })
    }
}

impl<T: Clone, F: Fn(&T)> ReadHalf<T, F> {
    /// This half and `w` work on one cell: they were split from one value.
    pub closed spec fn shares_with(&self, w: &WriteHalf<T, F>) -> bool {
        *self.inner == *w.inner
    }

    /// A clone of the value held, or `None` while the value is being set:
    /// a subscriber that asks during its callback gets `None`.
    pub fn get(&self) -> (v: Option<T>) {
        // What the cell holds is known to the halves alone: `get_held` says
        // what is given for each thing that it can hold.
        let held = self.inner.replace(None);
        let v = ObservableValue::get_held(&held);
        self.inner.replace(held);
        v
    }

    /// Connect a new subscriber, which is called back whenever the value is
    /// set. Returns the identifier by which to disconnect it, or `None` if
    /// the subscriber was not connected: while the value is being set, or
    /// when no identifier is left. `connect_held` says what is done for each
    /// thing that the cell can hold.
    pub fn connect(&mut self, callback: F) -> (id: Option<SubscriptionId>)
        requires
            forall|x: T| call_requires(callback, (&x,)),
        ensures
            *final(self) == *old(self),
    {
        let (id, back) = ObservableValue::connect_held(self.inner.replace(None), callback);
        self.inner.replace(back);
        id
    }

    /// Disconnect a subscriber. Returns whether the subscriptions were at
    /// hand: while the value is being set they are not, and the subscriber
    /// stays connected. `disconnect_held` says what is done for each thing
    /// that the cell can hold.
    pub fn disconnect(&mut self, sub_id: SubscriptionId) -> (done: bool)
        ensures
            *final(self) == *old(self),
    {
        let (done, back) = ObservableValue::disconnect_held(self.inner.replace(None), sub_id);
        self.inner.replace(back);
        done
    }
}

impl<T: Clone, F: Fn(&T)> WriteHalf<T, F> {
    /// Hold a clone of `new_value` from now on and call every subscriber with
    /// it. Returns whether the value was set: a subscriber that sets the
    /// value during its callback gets `false`, and the value stays.
    /// `set_held` says what is done for each thing that the cell can hold.
    pub fn set(&mut self, new_value: &T) -> (done: bool)
        ensures
            *final(self) == *old(self),
    {
        let (done, back) = ObservableValue::set_held(self.inner.replace(None), new_value);
        self.inner.replace(back);
        done
    }
}

impl<T: Clone, F: Fn(&T)> ObservableValue<T, F> {
    /// What the cell that two halves share may hold: nothing, while one of
    /// the halves is at work on the value; else a well-formed value whose
    /// subscribers can be called with any value.
    pub open spec fn at_rest(held: Option<Self>) -> bool {
        held matches Some(ov) ==> ov.wf() && forall|x: T| #[trigger] ov.callable(x)
    }

    /// What a reader gets when the shared cell holds `held`: a clone of the
    /// value, or nothing where the cell holds nothing.
    pub fn get_held(held: &Option<Self>) -> (v: Option<T>)
        ensures
            *held is None ==> v is None,
            *held matches Some(ov) ==> v is Some && cloned(ov.value(), v->Some_0),
    {
        match held {
            Some(ov) => Some(ov.get().clone()),
            None => None,
        }
    }

    /// Set the value of what the shared cell held, `held`, and call its
    /// subscribers. Returns whether there was a value to set, and what goes
    /// back into the cell: the value that holds a clone of `new_value`, with
    /// the subscribers that it had, or nothing where the cell held nothing.
    pub fn set_held(held: Option<Self>, new_value: &T) -> (r: (bool, Option<Self>))
        requires
            Self::at_rest(held),
        ensures
            Self::at_rest(r.1),
            r.0 == held is Some,
            held is None ==> r.1 is None,
            held matches Some(ov) ==> r.1 matches Some(nv) && cloned(*new_value, nv.value())
                && nv.subs() == ov.subs() && nv.next_id() == ov.next_id() && nv.notified(
                nv.value(),
            ),
    {
        match held {
            Some(mut ov) => {
                let ghost before = ov;
                assert forall|v: T| cloned(*new_value, v) implies #[trigger] ov.callable(v) by {}
                ov.set(new_value);
                proof {
                    before.lemma_callable_by_subs(&ov);
                }
                (true, Some(ov))
            },
            None => (false, None),
        }
    }

    /// Connect `callback` to what the shared cell held, `held`. Returns the
    /// identifier of the new subscription and what goes back into the cell.
    /// Where the cell held nothing, or no identifier is left, nobody is
    /// connected and what the cell held goes back as it came.
    pub fn connect_held(held: Option<Self>, callback: F) -> (r: (
        Option<SubscriptionId>,
        Option<Self>,
    ))
        requires
            Self::at_rest(held),
            forall|x: T| call_requires(callback, (&x,)),
        ensures
            Self::at_rest(r.1),
            r.0 is Some <==> held is Some && held->Some_0.next_id() < usize::MAX,
            r.0 is None ==> r.1 == held,
            r.0 matches Some(id) ==> {
                let ov = held->Some_0;
                &&& id == SubscriptionId(ov.next_id())
                &&& r.1 matches Some(nv) && nv.subs() == ov.subs().push(
                    Subscription { id, callback },
                ) && nv.next_id() == ov.next_id() + 1 && nv.value() == ov.value()
            },
    {
        match held {
            Some(mut ov) => {
                if ov.can_connect() {
                    let ghost before = ov;
                    let id = ov.connect(callback);
                    proof {
                        assert forall|x: T| #[trigger] ov.callable(x) by {
                            assert(before.callable(x));
                            assert forall|i: int| 0 <= i < ov.subs().len() implies call_requires(
                                #[trigger] ov.subs()[i].callback,
                                (&x,),
                            ) by {
                                if i < before.subs().len() {
                                    assert(ov.subs()[i] == before.subs()[i]);
                                }
                            }
                        }
                    }
                    (Some(id), Some(ov))
                } else {
                    (None, Some(ov))
                }
            },
            None => (None, None),
        }
    }

    /// Disconnect the subscription `sub_id` from what the shared cell held,
    /// `held`. Returns whether there were subscriptions at hand, and what
    /// goes back into the cell: the value without that subscription, or
    /// nothing where the cell held nothing.
    pub fn disconnect_held(held: Option<Self>, sub_id: SubscriptionId) -> (r: (bool, Option<Self>))
        requires
            Self::at_rest(held),
        ensures
            Self::at_rest(r.1),
            r.0 == held is Some,
            held is None ==> r.1 is None,
            held matches Some(ov) ==> r.1 matches Some(nv) && nv.subs() == without(
                ov.subs(),
                sub_id,
            ) && nv.next_id() == ov.next_id() && nv.value() == ov.value(),
    {
        match held {
            Some(mut ov) => {
                let ghost before = ov;
                ov.disconnect(sub_id);
                proof {
                    crate::signal::lemma_without_keeps(before.subs(), sub_id);
                    assert forall|x: T| #[trigger] ov.callable(x) by {
                        assert(before.callable(x));
                    }
                }
                (true, Some(ov))
            },
            None => (false, None),
        }
    }
}

} // verus!
