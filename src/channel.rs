//! Bounded first-in first-out queue of events with a fixed capacity.
//!
//! Sending never blocks: when the queue is full the new event is handed back
//! and the queued ones stay as they are. Receiving takes the oldest event.
use vstd::prelude::*;

use crate::event::InEvent;

verus! {

/// Number of events the queue holds at most.
pub const CAPACITY: usize = 3;

/// What `try_send` hands back when the queue is full: the event that was dropped.
#[derive(Debug, Clone, Copy, PartialEq, Eq, Structural)]
pub struct EnqueueFull {
    pub event: InEvent,
}

/// The queue after one send attempt of `e` on `q`, and whether it was accepted.
pub open spec fn send_step(q: Seq<InEvent>, e: InEvent) -> (Seq<InEvent>, bool) {
    if q.len() < CAPACITY {
        (q.push(e), true)
    } else {
        (q, false)
    }
}

/// The queue after send attempts of each event of `es` in order.
pub open spec fn send_all(q: Seq<InEvent>, es: Seq<InEvent>) -> Seq<InEvent>
    decreases es.len(),
{
    if es.len() == 0 {
        q
    } else {
        send_all(send_step(q, es[0]).0, es.drop_first())
    }
}

/// Which of the send attempts of each event of `es` in order were accepted.
pub open spec fn send_outcomes(q: Seq<InEvent>, es: Seq<InEvent>) -> Seq<bool>
    decreases es.len(),
{
    if es.len() == 0 {
        Seq::empty()
    } else {
        seq![send_step(q, es[0]).1] + send_outcomes(send_step(q, es[0]).0, es.drop_first())
    }
}

/// The events that receiving until the queue is empty yields, oldest first.
pub open spec fn drain_order(q: Seq<InEvent>) -> Seq<InEvent>
    decreases q.len(),
{
    if q.len() == 0 {
        Seq::empty()
    } else {
        seq![q[0]] + drain_order(q.drop_first())
    }
}

/// How many of `n` send attempts a queue holding `len` events accepts.
pub open spec fn accepted_count(len: nat, n: nat) -> nat {
    if n + len <= CAPACITY {
        n
    } else if len <= CAPACITY {
        (CAPACITY - len) as nat
    } else {
        0
    }
}

/// Receiving until empty yields exactly the queued events, oldest first.
pub proof fn lemma_drain_order(q: Seq<InEvent>)
    ensures
        drain_order(q) == q,
    decreases q.len(),
{
    if q.len() > 0 {
        lemma_drain_order(q.drop_first());
        assert(seq![q[0]] + q.drop_first() =~= q);
    }
}

/// A run of send attempts on a queue of at most `CAPACITY` events accepts the
/// first `accepted_count` of them, appends those in order, and rejects the rest.
pub proof fn lemma_send_all(q: Seq<InEvent>, es: Seq<InEvent>)
    requires
        q.len() <= CAPACITY,
    ensures
        send_all(q, es) == q + es.take(accepted_count(q.len(), es.len()) as int),
        send_outcomes(q, es).len() == es.len(),
        forall|i: int|
            0 <= i < es.len() ==> send_outcomes(q, es)[i] == (i < accepted_count(q.len(), es.len())),
    decreases es.len(),
{
    if es.len() == 0 {
        assert(q + es.take(0) =~= q);
    } else {
        let (q1, ok) = send_step(q, es[0]);
        let rest = es.drop_first();
        lemma_send_all(q1, rest);
        let k = accepted_count(q.len(), es.len());
        let k1 = accepted_count(q1.len(), rest.len());
        if q.len() < CAPACITY {
            assert(k == k1 + 1);
            assert(q1 + rest.take(k1 as int) =~= q + es.take(k as int));
        } else {
            assert(k == 0 && k1 == 0);
            assert(q1 + rest.take(0) =~= q + es.take(0));
        }
        let outs = send_outcomes(q, es);
        assert(outs == seq![ok] + send_outcomes(q1, rest));
        assert forall|i: int| 0 <= i < es.len() implies outs[i] == (i < k) by {
            if i > 0 {
                assert(outs[i] == send_outcomes(q1, rest)[i - 1]);
            }
        }
    }
}

/// Up to `CAPACITY` events sent into an empty queue, with nothing received in
/// between, are all accepted and are later received exactly in the order sent.
pub proof fn lemma_fifo_no_loss(es: Seq<InEvent>)
    requires
        es.len() <= CAPACITY,
    ensures
        forall|i: int| 0 <= i < es.len() ==> send_outcomes(Seq::empty(), es)[i],
        drain_order(send_all(Seq::empty(), es)) == es,
{
    lemma_send_all(Seq::empty(), es);
    lemma_drain_order(send_all(Seq::empty(), es));
    assert(Seq::<InEvent>::empty() + es.take(es.len() as int) =~= es);
}

/// Any number of events sent into an empty queue, with nothing received in
/// between: exactly the first `CAPACITY` attempts succeed, the later ones
/// fail, and receiving yields the accepted events once each, in the order sent.
pub proof fn lemma_bounded_loss(es: Seq<InEvent>)
    ensures
        send_outcomes(Seq::empty(), es).len() == es.len(),
        forall|i: int| 0 <= i < es.len() ==> send_outcomes(Seq::empty(), es)[i] == (i < CAPACITY),
        es.len() >= CAPACITY ==> drain_order(send_all(Seq::empty(), es)) == es.take(CAPACITY as int),
        es.len() < CAPACITY ==> drain_order(send_all(Seq::empty(), es)) == es,
{
    lemma_send_all(Seq::empty(), es);
    lemma_drain_order(send_all(Seq::empty(), es));
    assert(Seq::<InEvent>::empty() + es.take(accepted_count(0, es.len()) as int) =~= es.take(
        accepted_count(0, es.len()) as int,
    ));
    if es.len() < CAPACITY {
        assert(es.take(es.len() as int) =~= es);
    }
}

pub struct Channel {
    buf: Vec<InEvent>,
}

impl View for Channel {
    type V = Seq<InEvent>;

    /// The queued events, oldest first.
    closed spec fn view(&self) -> Seq<InEvent> {
        self.buf@
    }
}

impl Channel {
    pub closed spec fn wf(&self) -> bool {
        self.buf@.len() <= CAPACITY
    }

    /// Occupancy never exceeds the capacity.
    pub proof fn lemma_bounded(&self)
        requires
            self.wf(),
        ensures
            self@.len() <= CAPACITY,
    {
    }

    pub fn new() -> (r: Channel)
        ensures
            r.wf(),
            r@ == Seq::<InEvent>::empty(),
    {
        Channel { buf: Vec::new() }
    }

    pub fn len(&self) -> (r: usize)
        ensures
            r == self@.len(),
    {
        self.buf.len()
    }

    pub fn is_full(&self) -> (r: bool)
        requires
            self.wf(),
        ensures
            r == (self@.len() == CAPACITY),
    {
        self.buf.len() == CAPACITY
    }

    /// Appends `e` unless the queue is full; a full queue is left unchanged
    /// and `e` comes back in the error.
    pub fn try_send(&mut self, e: InEvent) -> (r: Result<(), EnqueueFull>)
        requires
            old(self).wf(),
        ensures
            final(self).wf(),
            (final(self)@, r is Ok) == send_step(old(self)@, e),
            r matches Err(f) ==> f.event == e,
    {
        if self.buf.len() < CAPACITY {
            self.buf.push(e);
            Ok(())
        } else {
            Err(EnqueueFull { event: e })
        }
    }

    /// Removes and returns the oldest event, or `None` when the queue is empty.
    pub fn try_recv(&mut self) -> (r: Option<InEvent>)
        requires
            old(self).wf(),
        ensures
            final(self).wf(),
            old(self)@.len() == 0 ==> r is None && final(self)@ == old(self)@,
            old(self)@.len() > 0 ==> r == Some(old(self)@[0]) && final(self)@ == old(self)@.drop_first(),
    {
        if self.buf.len() == 0 {
            None
        } else {
            let e = self.buf.remove(0);
            assert(self.buf@ =~= old(self)@.drop_first());
            Some(e)
        }
    }

    /// Receives until the queue is empty and returns what came out, in order.
    pub fn drain(&mut self) -> (r: Vec<InEvent>)
        requires
            old(self).wf(),
        ensures
            final(self).wf(),
            final(self)@ == Seq::<InEvent>::empty(),
            r@ == drain_order(old(self)@),
    {
        let mut out: Vec<InEvent> = Vec::new();
        while self.buf.len() > 0
            invariant
                self.wf(),
                out@ + drain_order(self@) == drain_order(old(self)@),
            decreases self.buf.len(),
        {
            let ghost before = self@;
            let e = self.try_recv().unwrap();
            assert(drain_order(before) == seq![e] + drain_order(self@));
            assert(out@.push(e) + drain_order(self@) =~= out@ + drain_order(before));
            out.push(e);
        }
        assert(drain_order(self@) =~= Seq::<InEvent>::empty());
        assert(out@ + Seq::<InEvent>::empty() =~= out@);
        out
    }
}

} // verus!
