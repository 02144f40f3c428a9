//! The channel bridge: a bounded FIFO queue carrying normalized chat
//! events from the listener's asynchronous context to the synchronous
//! per-frame consumer. Sending onto a full bridge is refused, which is what
//! lets the caller suspend the sender until room is available; receiving is
//! non-blocking and always yields the oldest queued event.

use vstd::prelude::*;
use crate::event::ChatEvent;

verus! {

/// What a send does to a queue of capacity `cap`: accepted and appended at
/// the back when there is room, refused and left unchanged when full.
pub open spec fn send_model(q: Seq<ChatEvent>, cap: nat, e: ChatEvent) -> (bool, Seq<ChatEvent>) {
    if q.len() < cap {
        (true, q.push(e))
    } else {
        (false, q)
    }
}

/// What a receive does to a queue: nothing when empty, otherwise it yields
/// the oldest event and shifts the rest forward.
pub open spec fn receive_model(q: Seq<ChatEvent>) -> (Option<ChatEvent>, Seq<ChatEvent>) {
    if q.len() == 0 {
        (None, q)
    } else {
        (Some(q[0]), q.drop_first())
    }
}

/// Bounded single-producer/single-consumer queue of chat events.
pub struct ChannelBridge {
    events: Vec<ChatEvent>,
    capacity: usize,
}

impl View for ChannelBridge {
    type V = Seq<ChatEvent>;

    closed spec fn view(&self) -> Seq<ChatEvent> {
        self.events@
    }
}

impl ChannelBridge {
    /// The fixed capacity the bridge was created with.
    pub closed spec fn cap(&self) -> nat {
        self.capacity as nat
    }

    /// Queue length never exceeds capacity.
    pub closed spec fn inv(&self) -> bool {
        self.events@.len() <= self.capacity
    }

    pub fn new(capacity: usize) -> (b: ChannelBridge)
        requires
            capacity >= 1,
        ensures
            b.inv(),
            b@ == Seq::<ChatEvent>::empty(),
            b.cap() == capacity as nat,
    {
        ChannelBridge { events: Vec::new(), capacity }
    }

    pub fn len(&self) -> (n: usize)
        ensures
            n as nat == self@.len(),
    {
        self.events.len()
    }

    pub fn is_full(&self) -> (r: bool)
        ensures
            r == (self@.len() >= self.cap()),
    {
        self.events.len() >= self.capacity
    }

    /// Non-blocking send: refused exactly when the bridge is full.
    pub fn try_send(&mut self, ev: ChatEvent) -> (accepted: bool)
        requires
            old(self).inv(),
        ensures
            final(self).inv(),
            final(self).cap() == old(self).cap(),
            accepted == send_model(old(self)@, old(self).cap(), ev).0,
            final(self)@ == send_model(old(self)@, old(self).cap(), ev).1,
    {
        if self.events.len() < self.capacity {
            self.events.push(ev);
            true
        } else {
            false
        }
    }

    /// Non-blocking receive: `None` exactly when nothing is pending,
    /// otherwise the oldest queued event.
    pub fn try_receive(&mut self) -> (r: Option<ChatEvent>)
        requires
            old(self).inv(),
        ensures
            final(self).inv(),
            final(self).cap() == old(self).cap(),
            r == receive_model(old(self)@).0,
            final(self)@ == receive_model(old(self)@).1,
    {
        if self.events.len() == 0 {
            None
        } else {
            let ev = self.events.remove(0);
            proof {
                assert(old(self)@.remove(0) =~= old(self)@.drop_first());
            }
            Some(ev)
        }
    }

    /// Drains every pending event, in the order it was sent.
    pub fn drain(&mut self) -> (evs: Vec<ChatEvent>)
        requires
            old(self).inv(),
        ensures
            final(self).inv(),
            final(self).cap() == old(self).cap(),
            evs@ == old(self)@,
            final(self)@ == Seq::<ChatEvent>::empty(),
    {
        let mut out: Vec<ChatEvent> = Vec::new();
        core::mem::swap(&mut out, &mut self.events);
        out
    }
}

/// FIFO law: a successful send appends at the back and moves nothing, and
/// a receive yields the oldest event while shifting the rest forward
/// without reordering them. Hence any two events queued in some relative
/// order leave the bridge in that same order.
pub proof fn lemma_fifo_order(q: Seq<ChatEvent>, cap: nat, e: ChatEvent, i: int, j: int)
    requires
        0 <= i < j < q.len(),
    ensures
        send_model(q, cap, e).0 ==> send_model(q, cap, e).1[i] == q[i] && send_model(q, cap, e).1[j]
            == q[j],
        receive_model(q).0 == Some(q[0]),
        receive_model(q).1[j - 1] == q[j],
        i >= 1 ==> receive_model(q).1[i - 1] == q[i] && i - 1 < j - 1,
{
}

/// Backpressure law: a send onto a full bridge is refused and changes
/// nothing; after a single receive the queue is below capacity again, so
/// the retried send is accepted and the delayed event lands at the back,
/// behind everything that was queued before it.
pub proof fn lemma_backpressure_resume(q: Seq<ChatEvent>, cap: nat, e: ChatEvent)
    requires
        q.len() == cap,
        cap >= 1,
    ensures
        !send_model(q, cap, e).0,
        send_model(q, cap, e).1 == q,
        receive_model(q).0 == Some(q[0]),
        send_model(receive_model(q).1, cap, e).0,
        send_model(receive_model(q).1, cap, e).1 == receive_model(q).1.push(e),
        send_model(receive_model(q).1, cap, e).1.last() == e,
{
}

} // verus!
