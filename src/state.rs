//! The semaphore's shared state: permits still free and the queue of
//! suspended requesters.
use std::collections::VecDeque;
use vstd::prelude::*;

use crate::queue::{
    find_ticket, holds_ticket, lemma_drop_first_keeps, lemma_registered_keeps,
    lemma_without_keeps, registered, tickets_below, tickets_distinct, without_ticket, Waiter,
};

verus! {

/// What a `SemState` holds, as mathematical values.
#[verifier::ext_equal]
pub struct SemView<W> {
    /// The capacity fixed at construction.
    pub total: nat,
    /// The capacity not claimed at present.
    pub available: nat,
    /// The ticket that the next acquisition will receive.
    pub next_ticket: nat,
    /// Suspended requesters, oldest first.
    pub waiters: Seq<Waiter<W>>,
}

impl<W> SemView<W> {
    /// The invariant of the shared state: no more permits free than exist,
    /// and each suspended acquisition holds at most one entry, with a ticket
    /// that was handed out.
    pub open spec fn wf(self) -> bool {
        &&& self.available <= self.total
        &&& self.total <= usize::MAX
        &&& self.next_ticket <= u64::MAX
        &&& tickets_distinct(self.waiters)
        &&& tickets_below(self.waiters, self.next_ticket)
    }

    /// Permits handed out and not yet given back.
    pub open spec fn outstanding(self) -> nat {
        (self.total - self.available) as nat
    }

    /// The same state with the queue replaced by `q`.
    pub open spec fn with_waiters(self, q: Seq<Waiter<W>>) -> SemView<W> {
        SemView { waiters: q, ..self }
    }

    /// The state after a ticket is handed out.
    pub open spec fn ticket_issued(self) -> SemView<W> {
        SemView { next_ticket: self.next_ticket + 1, ..self }
    }

    /// The state after one permit is claimed.
    pub open spec fn claimed(self) -> SemView<W> {
        SemView { available: (self.available - 1) as nat, ..self }
    }

    /// The state after a permit comes back: one more is free, and the
    /// oldest waiter, if any, leaves the queue to be woken.
    pub open spec fn released(self) -> SemView<W> {
        SemView {
            available: self.available + 1,
            waiters: if self.waiters.len() > 0 { self.waiters.drop_first() } else { self.waiters },
            ..self
        }
    }

    /// The wake handle that a release hands back.
    pub open spec fn released_wake(self) -> Option<W> {
        if self.waiters.len() > 0 {
            Some(self.waiters[0].wake)
        } else {
            None
        }
    }

    /// The state after the acquisition with ticket `t` is polled with the
    /// wake handle `wake`: it claims a permit where one is free, and gives
    /// up any place in the queue; otherwise it registers in the queue.
    pub open spec fn polled(self, t: u64, wake: W) -> SemView<W> {
        if self.available > 0 {
            SemView {
                available: (self.available - 1) as nat,
                waiters: without_ticket(self.waiters, t),
                ..self
            }
        } else {
            SemView { waiters: registered(self.waiters, t, wake), ..self }
        }
    }

    /// The queue once the acquisition with ticket `t` is abandoned.
    pub open spec fn cancelled_queue(self, t: u64) -> Seq<Waiter<W>> {
        without_ticket(self.waiters, t)
    }

    /// Whether abandoning the acquisition with ticket `t` passes a wake-up
    /// on: a permit is free and someone else still waits.
    pub open spec fn cancel_passes_on(self, t: u64) -> bool {
        self.available > 0 && self.cancelled_queue(t).len() > 0
    }

    /// The state after the acquisition with ticket `t` is abandoned.
    pub open spec fn cancelled(self, t: u64) -> SemView<W> {
        let q = self.cancelled_queue(t);
        SemView { waiters: if self.cancel_passes_on(t) { q.drop_first() } else { q }, ..self }
    }

    /// The wake handle that abandoning the acquisition with ticket `t` hands back.
    pub open spec fn cancelled_wake(self, t: u64) -> Option<W> {
        if self.cancel_passes_on(t) {
            Some(self.cancelled_queue(t)[0].wake)
        } else {
            None
        }
    }
}

/// The shared state of one semaphore.
pub struct SemState<W> {
    total_permits: usize,
    available_permits: usize,
    next_ticket: u64,
    waiters: VecDeque<Waiter<W>>,
}

impl<W> View for SemState<W> {
    type V = SemView<W>;

    closed spec fn view(&self) -> SemView<W> {
        SemView {
            total: self.total_permits as nat,
            available: self.available_permits as nat,
            next_ticket: self.next_ticket as nat,
            waiters: self.waiters@,
        }
    }
}

impl<W> SemState<W> {
    /// A state with `permits` permits, all free, and nobody waiting.
    pub fn new(permits: usize) -> (s: SemState<W>)
        ensures
            s@.wf(),
            s@.total == permits,
            s@.available == permits,
            s@.next_ticket == 0,
            s@.waiters == Seq::<Waiter<W>>::empty(),
    {
        SemState {
            total_permits: permits,
            available_permits: permits,
            next_ticket: 0,
            waiters: VecDeque::new(),
        }
    }

    /// The capacity fixed at construction.
    pub fn total_permits(&self) -> (r: usize)
        ensures
            r == self@.total,
    {
        self.total_permits
    }

    /// The capacity not claimed at present.
    pub fn available_permits(&self) -> (r: usize)
        ensures
            r == self@.available,
    {
        self.available_permits
    }

    /// The number of suspended requesters.
    pub fn waiter_count(&self) -> (r: usize)
        ensures
            r == self@.waiters.len(),
    {
        self.waiters.len()
    }

    /// Whether the ticket `t` has been handed out by this state.
    pub fn was_issued(&self, t: u64) -> (r: bool)
        ensures
            r == (t < self@.next_ticket),
    {
        t < self.next_ticket
    }

    /// Whether the acquisition with ticket `t` waits in the queue.
    pub fn is_waiting(&self, t: u64) -> (r: bool)
        requires
            self@.wf(),
        ensures
            r == holds_ticket(self@.waiters, t),
    {
        find_ticket(&self.waiters, t).is_some()
    }

    /// Claims one permit if one is free.
    pub fn try_claim(&mut self) -> (r: bool)
        requires
            old(self)@.wf(),
        ensures
            final(self)@.wf(),
            r == (old(self)@.available > 0),
            final(self)@ == if r { old(self)@.claimed() } else { old(self)@ },
    {
        if self.available_permits > 0 {
            self.available_permits = self.available_permits - 1;
            proof {
                assert(self@ =~= old(self)@.claimed());
            }
            true
        } else {
            false
        }
    }
    /// Hands out a fresh ticket for a new acquisition; `None` once every
    /// ticket has been used.
    pub fn issue_ticket(&mut self) -> (r: Option<u64>)
        requires
            old(self)@.wf(),
        ensures
            final(self)@.wf(),
            match r {
                Some(t) => {
                    &&& t == old(self)@.next_ticket
                    &&& final(self)@ == old(self)@.ticket_issued()
                },
                None => old(self)@.next_ticket == u64::MAX && final(self)@ == old(self)@,
            },
    {
        if self.next_ticket < u64::MAX {
            let t = self.next_ticket;
            self.next_ticket = self.next_ticket + 1;
            proof {
                assert(self@ =~= old(self)@.ticket_issued());
            }
            Some(t)
        } else {
            None
        }
    }

    /// Appends the acquisition with ticket `t` to the back of the queue.
    pub fn enqueue(&mut self, t: u64, wake: W)
        requires
            old(self)@.wf(),
            t < old(self)@.next_ticket,
            !holds_ticket(old(self)@.waiters, t),
        ensures
            final(self)@.wf(),
            final(self)@ == old(self)@.with_waiters(old(self)@.waiters.push(Waiter { ticket: t, wake })),
    {
        proof {
            lemma_registered_keeps(self@.waiters, t, wake, self@.next_ticket);
        }
        self.waiters.push_back(Waiter { ticket: t, wake });
        proof {
            assert(self@ =~= old(self)@.with_waiters(old(self)@.waiters.push(Waiter { ticket: t, wake })));
        }
    }

    /// Takes the entry of the acquisition with ticket `t` out of the queue.
    fn remove_ticket(&mut self, t: u64)
        requires
            old(self)@.wf(),
        ensures
            final(self)@.wf(),
            final(self)@ == old(self)@.with_waiters(without_ticket(old(self)@.waiters, t)),
    {
        proof {
            lemma_without_keeps(self@.waiters, t, self@.next_ticket);
        }
        match find_ticket(&self.waiters, t) {
            Some(i) => {
                let _ = self.waiters.remove(i);
            },
            None => {},
        }
        proof {
            assert(self@ =~= old(self)@.with_waiters(without_ticket(old(self)@.waiters, t)));
        }
    }

    /// Registers `wake` for the acquisition with ticket `t`: an entry that
    /// it already holds keeps its place, otherwise it joins the back.
    fn register(&mut self, t: u64, wake: W)
        requires
            old(self)@.wf(),
            t < old(self)@.next_ticket,
        ensures
            final(self)@.wf(),
            final(self)@ == old(self)@.with_waiters(registered(old(self)@.waiters, t, wake)),
    {
        proof {
            lemma_registered_keeps(self@.waiters, t, wake, self@.next_ticket);
        }
        match find_ticket(&self.waiters, t) {
            Some(i) => {
                let _ = self.waiters.remove(i);
                self.waiters.insert(i, Waiter { ticket: t, wake });
                proof {
                    assert(self.waiters@ =~= registered(old(self)@.waiters, t, wake));
                }
            },
            None => {
                self.enqueue(t, wake);
            },
        }
        proof {
            assert(self@ =~= old(self)@.with_waiters(registered(old(self)@.waiters, t, wake)));
        }
    }

    /// One poll of the acquisition with ticket `t`. Where a permit is free
    /// it is claimed, the acquisition leaves the queue, and the result is
    /// `true`. Otherwise the acquisition registers `wake` and the result is
    /// `false`. Both the check and the registration happen in this one step,
    /// so no release can fall between them.
    pub fn poll_acquire(&mut self, t: u64, wake: W) -> (r: bool)
        requires
            old(self)@.wf(),
            t < old(self)@.next_ticket,
        ensures
            final(self)@.wf(),
            r == (old(self)@.available > 0),
            final(self)@ == old(self)@.polled(t, wake),
    {
        if self.try_claim() {
            self.remove_ticket(t);
            proof {
                assert(self@ =~= old(self)@.polled(t, wake));
            }
            true
        } else {
            self.register(t, wake);
            false
        }
    }

    /// Gives one permit back. The oldest waiter, if any, leaves the queue
    /// and its wake handle is returned for the caller to invoke.
    pub fn release_and_notify(&mut self) -> (r: Option<W>)
        requires
            old(self)@.wf(),
            old(self)@.available < old(self)@.total,
        ensures
            final(self)@.wf(),
            final(self)@ == old(self)@.released(),
            r == old(self)@.released_wake(),
    {
        self.available_permits = self.available_permits + 1;
        proof {
            if self.waiters@.len() > 0 {
                lemma_drop_first_keeps(self.waiters@, self@.next_ticket);
            }
        }
        let front = self.waiters.pop_front();
        proof {
            assert(self@ =~= old(self)@.released());
        }
        match front {
            Some(w) => Some(w.wake),
            None => None,
        }
    }

    /// Abandons the acquisition with ticket `t`: its entry leaves the queue.
    /// Where a permit is free and others still wait, the oldest of them
    /// leaves the queue too and its wake handle is returned, so that a
    /// wake-up meant for the abandoned acquisition is not lost.
    pub fn cancel(&mut self, t: u64) -> (r: Option<W>)
        requires
            old(self)@.wf(),
        ensures
            final(self)@.wf(),
            final(self)@ == old(self)@.cancelled(t),
            r == old(self)@.cancelled_wake(t),
    {
        self.remove_ticket(t);
        if self.available_permits > 0 && self.waiters.len() > 0 {
            proof {
                lemma_drop_first_keeps(self.waiters@, self@.next_ticket);
            }
            let front = self.waiters.pop_front();
            proof {
                assert(self@ =~= old(self)@.cancelled(t));
            }
            match front {
                Some(w) => Some(w.wake),
                None => None,
            }
        } else {
            proof {
                assert(self@ =~= old(self)@.cancelled(t));
            }
            None
        }
    }
}

} // verus!
