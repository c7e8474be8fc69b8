//! Connection status shown by the overlay, and the small publish/subscribe
//! bus that carries it.

use vstd::prelude::*;

use crate::text::{decimal, push_decimal, push_str};

verus! {

broadcast use vstd::seq_lib::group_seq_properties;

/// State of the connection to the server. `C` is the callback that the
/// busy overlay offers to take the session over.
#[derive(Debug, Clone)]
pub enum Status<C> {
    Idle,
    Connecting,
    Connected,
    /// Waiting to reconnect, `remaining` seconds to go.
    Reconnecting { remaining: u32 },
    /// Another tab owns the session; `on_take` takes it over.
    Busy { on_take: C },
    Error { message: String },
}

impl<C> Status<C> {
    /// Whether the overlay is shown: for every state but idle and connected.
    pub fn is_overlay_visible(&self) -> (res: bool)
        ensures
            res == !(self is Idle || self is Connected),
    {
        match self {
            Status::Idle | Status::Connected => false,
            _ => true,
        }
    }
}

impl<C> Default for Status<C> {
    fn default() -> (res: Self)
        ensures
            res is Idle,
    {
        Status::Idle
    }
}

/// The handle returned by a subscription; passing it back unsubscribes.
pub struct Unsubscribe {
    id: u64,
}

impl Unsubscribe {
    pub closed spec fn id_view(&self) -> u64 {
        self.id
    }
}

/// The status bus: the current status and the subscribed listeners, each
/// under the id of its subscription.
pub struct Bus<L, C> {
    current: Status<C>,
    listeners: Vec<(u64, L)>,
    next_id: u64,
}

impl<L, C> Bus<L, C> {
    pub closed spec fn current_view(&self) -> Status<C> {
        self.current
    }

    /// The listeners, in subscription order, with their subscription ids.
    pub closed spec fn listeners_view(&self) -> Seq<(u64, L)> {
        self.listeners@
    }

    /// The id the next subscription gets.
    pub closed spec fn next_id_view(&self) -> u64 {
        self.next_id
    }

    /// Invariant: every listener holds an id below the next one.
    pub open spec fn wf(&self) -> bool {
        forall|i: int|
            0 <= i < self.listeners_view().len() ==> #[trigger] self.listeners_view()[i].0
                < self.next_id_view()
    }

    /// Whether another subscription can be given a fresh id.
    pub fn can_subscribe(&self) -> (res: bool)
        ensures
            res == (self.next_id_view() < u64::MAX),
    {
        self.next_id < u64::MAX
    }

    /// A bus in the idle state with no listeners.
    pub fn new() -> (res: Self)
        ensures
            res.wf(),
            res.current_view() is Idle,
            res.listeners_view() == Seq::<(u64, L)>::empty(),
    {
        Bus { current: Status::Idle, listeners: Vec::new(), next_id: 0 }
    }

    /// Publishes a new status. The caller then tells each listener of
    /// `listeners()` about it.
    pub fn set_status(&mut self, s: Status<C>)
        requires
            old(self).wf(),
        ensures
            final(self).wf(),
            final(self).current_view() == s,
            final(self).listeners_view() == old(self).listeners_view(),
            final(self).next_id_view() == old(self).next_id_view(),
    {
        self.current = s;
        proof {
            assert(self.listeners_view() == old(self).listeners_view());
            assert forall|i: int| 0 <= i < self.listeners_view().len() implies #[trigger] self.listeners_view()[i].0
                < self.next_id_view() by {
                assert(old(self).listeners_view()[i].0 < old(self).next_id_view());
            }
        }
    }

    /// The current status.
    pub fn current(&self) -> (res: &Status<C>)
        ensures
            *res == self.current_view(),
    {
        &self.current
    }

    /// The listeners to notify, in subscription order.
    pub fn listeners(&self) -> (res: Vec<&L>)
        ensures
            res@.len() == self.listeners_view().len(),
            forall|i: int| 0 <= i < res@.len() ==> *(#[trigger] res@[i]) == self.listeners_view()[i].1,
    {
        let mut out: Vec<&L> = Vec::new();
        let mut i: usize = 0;
        while i < self.listeners.len()
            invariant
                i <= self.listeners@.len(),
                out@.len() == i,
                forall|j: int| 0 <= j < i ==> *(#[trigger] out@[j]) == self.listeners@[j].1,
            decreases self.listeners.len() - i,
        {
            out.push(&self.listeners[i].1);
            i = i + 1;
        }
        out
    }

    /// Subscribes a listener. The caller tells it about the current status
    /// right away.
    pub fn subscribe(&mut self, l: L) -> (res: Unsubscribe)
        requires
            old(self).wf(),
            old(self).next_id_view() < u64::MAX,
        ensures
            final(self).wf(),
            res.id_view() == old(self).next_id_view(),
            final(self).listeners_view() == old(self).listeners_view().push((res.id_view(), l)),
            final(self).next_id_view() == old(self).next_id_view() + 1,
            final(self).current_view() == old(self).current_view(),
    {
        let id = self.next_id;
        self.listeners.push((id, l));
        self.next_id = self.next_id + 1;
        proof {
            assert forall|i: int| 0 <= i < self.listeners_view().len() implies #[trigger] self.listeners_view()[i].0
                < self.next_id_view() by {
                if i < old(self).listeners_view().len() {
                    assert(self.listeners_view()[i] == old(self).listeners_view()[i]);
                    assert(old(self).listeners_view()[i].0 < old(self).next_id_view());
                }
            }
        }
        Unsubscribe { id }
    }

    /// Removes the listener of a subscription; the others keep their order.
    pub fn unsubscribe(&mut self, handle: Unsubscribe)
        requires
            old(self).wf(),
        ensures
            final(self).wf(),
            final(self).listeners_view() == old(self).listeners_view().filter(
                |e: (u64, L)| e.0 != handle.id_view(),
            ),
            final(self).next_id_view() == old(self).next_id_view(),
            final(self).current_view() == old(self).current_view(),
    {
        let ghost all = self.listeners@;
        let target = handle.id;
        let mut reversed: Vec<(u64, L)> = Vec::new();
        while self.listeners.len() > 0
            invariant
                self.next_id == old(self).next_id,
                self.current == old(self).current,
                all == old(self).listeners@,
                old(self).wf(),
                self.listeners@.len() + reversed@.len() == all.len(),
                forall|j: int| 0 <= j < self.listeners@.len() ==> #[trigger] self.listeners@[j] == all[j],
                forall|j: int|
                    0 <= j < reversed@.len() ==> #[trigger] reversed@[j] == all[all.len() - 1 - j],
            decreases self.listeners.len(),
        {
            let e = self.listeners.pop().unwrap();
            reversed.push(e);
        }
        while reversed.len() > 0
            invariant
                self.next_id == old(self).next_id,
                self.current == old(self).current,
                all == old(self).listeners@,
                old(self).wf(),
                reversed@.len() <= all.len(),
                forall|j: int|
                    0 <= j < reversed@.len() ==> #[trigger] reversed@[j] == all[all.len() - 1 - j],
                self.listeners@ == all.take(all.len() - reversed@.len()).filter(
                    |e: (u64, L)| e.0 != target,
                ),
            decreases reversed.len(),
        {
            let e = reversed.pop().unwrap();
            let ghost k = all.len() - reversed@.len();
            proof {
                assert(all.take(k).drop_last() =~= all.take(k - 1));
                assert(all.take(k).last() == e);
            }
            let keep = e.0 != target;
            if keep {
                self.listeners.push(e);
            }
            proof {
                let p = |x: (u64, L)| x.0 != target;
                reveal(Seq::filter);
                assert(all.take(k).filter(p) == (if p(e) {
                    all.take(k - 1).filter(p).push(e)
                } else {
                    all.take(k - 1).filter(p)
                }));
            }
        }
        proof {
            assert(all.take(all.len() as int) =~= all);
            let p = |x: (u64, L)| x.0 != target;
            assert forall|i: int| 0 <= i < self.listeners_view().len() implies #[trigger] self.listeners_view()[i].0
                < self.next_id_view() by {
                let e = self.listeners@[i];
                assert(all.filter(p).contains(e));
                all.lemma_filter_contains_rev(p, e);
                let j = choose|j: int| 0 <= j < all.len() && all[j] == e;
                assert(old(self).listeners_view()[j].0 < old(self).next_id_view());
                assert(all[j].0 < self.next_id);
            }
        }
    }
}

/// The overlay text while waiting to reconnect.
pub fn reconnecting_label(remaining: u32) -> (res: String)
    ensures
        res@ == "Reconnecting in "@ + decimal(remaining as nat) + "s…"@,
{
    let mut s = "Reconnecting in ".to_owned();
    push_decimal(&mut s, remaining as u64);
    push_str(&mut s, "s…");
    s
}

proof fn lemma_filter_all<A>(s: Seq<A>, p: spec_fn(A) -> bool)
    requires
        forall|i: int| 0 <= i < s.len() ==> p(#[trigger] s[i]),
    ensures
        s.filter(p) == s,
    decreases s.len(),
{
    reveal(Seq::filter);
    if s.len() > 0 {
        lemma_filter_all(s.drop_last(), p);
        assert(s.drop_last().push(s.last()) =~= s);
    }
}

/// Subscription law: subscribing a listener to a bus and then dropping
/// that subscription leaves the other listeners exactly as they were (the
/// new listener gets the bus's next id, and `unsubscribe` keeps the
/// listeners whose id differs from it).
pub proof fn lemma_subscribe_then_unsubscribe<L, C>(bus: Bus<L, C>, l: L)
    requires
        bus.wf(),
    ensures
        bus.listeners_view().push((bus.next_id_view(), l)).filter(
            |e: (u64, L)| e.0 != bus.next_id_view(),
        ) == bus.listeners_view(),
{
    let listeners = bus.listeners_view();
    let id = bus.next_id_view();
    let p = |e: (u64, L)| e.0 != id;
    reveal(Seq::filter);
    assert(listeners.push((id, l)).drop_last() =~= listeners);
    assert forall|i: int| 0 <= i < listeners.len() implies p(#[trigger] listeners[i]) by {}
    lemma_filter_all(listeners, p);
}

} // verus!
