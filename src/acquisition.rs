//! One request for a permit, driven forward by polls.
use vstd::prelude::*;

use crate::state::SemState;

verus! {

/// Where an acquisition stands.
#[derive(Clone, Copy, Debug, PartialEq, Eq, Structural)]
pub enum Phase {
    /// Created and not polled yet.
    Unpolled,
    /// Polled, found no permit free, and registered to be woken.
    Suspended,
    /// Holds a permit; it must not be polled again.
    Granted,
}

/// What an `Acquisition` holds, as values.
pub struct AcquisitionView {
    pub ticket: u64,
    pub phase: Phase,
}

/// One pending request for a permit of a semaphore. The ticket tells its
/// entry in the queue apart from every other.
pub struct Acquisition {
    ticket: u64,
    phase: Phase,
}

impl View for Acquisition {
    type V = AcquisitionView;

    closed spec fn view(&self) -> AcquisitionView {
        AcquisitionView { ticket: self.ticket, phase: self.phase }
    }
}

impl Acquisition {
    /// Starts a request on `state`, under a fresh ticket. `None` once every
    /// ticket has been handed out.
    pub fn start<W>(state: &mut SemState<W>) -> (r: Option<Acquisition>)
        requires
            old(state)@.wf(),
        ensures
            final(state)@.wf(),
            match r {
                Some(a) => {
                    &&& a@.ticket == old(state)@.next_ticket
                    &&& a@.phase == Phase::Unpolled
                    &&& final(state)@ == old(state)@.ticket_issued()
                },
                None => old(state)@.next_ticket == u64::MAX && final(state)@ == old(state)@,
            },
    {
        match state.issue_ticket() {
            Some(t) => Some(Acquisition { ticket: t, phase: Phase::Unpolled }),
            None => None,
        }
    }

    /// The ticket of this request.
    pub fn ticket(&self) -> (r: u64)
        ensures
            r == self@.ticket,
    {
        self.ticket
    }

    /// Where this request stands.
    pub fn phase(&self) -> (r: Phase)
        ensures
            r == self@.phase,
    {
        self.phase
    }

    /// Whether this request holds its permit.
    pub fn is_granted(&self) -> (r: bool)
        ensures
            r == (self@.phase == Phase::Granted),
    {
        match self.phase {
            Phase::Granted => true,
            _ => false,
        }
    }

    /// One poll: claims a permit of `state` if one is free, and otherwise
    /// registers `wake` to be invoked when one comes back. Returns whether a
    /// permit was claimed; the request is then granted, else suspended.
    pub fn poll<W>(&mut self, state: &mut SemState<W>, wake: W) -> (granted: bool)
        requires
            old(self)@.phase != Phase::Granted,
            old(state)@.wf(),
            old(self)@.ticket < old(state)@.next_ticket,
        ensures
            final(state)@.wf(),
            granted == (old(state)@.available > 0),
            final(state)@ == old(state)@.polled(old(self)@.ticket, wake),
            final(self)@.ticket == old(self)@.ticket,
            final(self)@.phase == if granted { Phase::Granted } else { Phase::Suspended },
    {
        let granted = state.poll_acquire(self.ticket, wake);
        self.phase = if granted { Phase::Granted } else { Phase::Suspended };
        granted
    }

    /// Gives up this request before it was granted. Its entry leaves the
    /// queue; a wake handle returned is to be invoked, so that a permit freed
    /// for this request reaches the next waiter.
    pub fn abandon<W>(self, state: &mut SemState<W>) -> (r: Option<W>)
        requires
            self@.phase != Phase::Granted,
            old(state)@.wf(),
        ensures
            final(state)@.wf(),
            final(state)@ == old(state)@.cancelled(self@.ticket),
            r == old(state)@.cancelled_wake(self@.ticket),
    {
        state.cancel(self.ticket)
    }
}

} // verus!
