use vstd::prelude::*;
use crate::request::Request;

verus! {

/// A submitted request together with the ticket that identifies it inside the engine.
/// Tickets are handed out in submission order and never reused.
#[derive(Debug)]
pub struct Envelope {
    pub ticket: u64,
    pub request: Request,
}

/// Why a submission was not accepted.
#[derive(Clone, Copy, Debug, PartialEq, Eq, Structural)]
pub enum SubmitError {
    /// The queue has been closed; no new work is taken.
    QueueClosed,
    /// The queue is at capacity; the caller waits and submits again.
    QueueFull,
    /// Every ticket has been handed out.
    TicketsExhausted,
}

/// A refused submission: the reason, and the request handed back to the caller.
#[derive(Debug)]
pub struct Rejected {
    pub error: SubmitError,
    pub request: Request,
}

/// A bounded first-in first-out queue of submitted requests.
pub struct AdmissionQueue {
    entries: Vec<Envelope>,
    capacity: usize,
    closed: bool,
    next_ticket: u64,
}

impl AdmissionQueue {
    pub closed spec fn pending(&self) -> Seq<Envelope> {
        self.entries@
    }

    pub closed spec fn capacity_spec(&self) -> nat {
        self.capacity as nat
    }

    pub closed spec fn closed_spec(&self) -> bool {
        self.closed
    }

    /// The ticket that the next accepted submission receives.
    pub closed spec fn next_ticket_spec(&self) -> u64 {
        self.next_ticket
    }

    /// Entries fit the capacity and carry increasing tickets, all below the next one.
    pub open spec fn wf(&self) -> bool {
        &&& self.pending().len() <= self.capacity_spec()
        &&& forall|i: int, j: int|
            0 <= i < j < self.pending().len() ==> #[trigger] self.pending()[i].ticket
                < #[trigger] self.pending()[j].ticket
        &&& forall|i: int|
            0 <= i < self.pending().len() ==> #[trigger] self.pending()[i].ticket
                < self.next_ticket_spec()
    }

    /// An open, empty queue holding at most `capacity` entries.
    pub fn new(capacity: usize) -> (r: AdmissionQueue)
        ensures
            r.wf(),
            r.pending().len() == 0,
            r.capacity_spec() == capacity,
            !r.closed_spec(),
            r.next_ticket_spec() == 0,
    {
        AdmissionQueue { entries: Vec::new(), capacity, closed: false, next_ticket: 0 }
    }

    /// Appends a request at the back and returns its ticket.
    pub fn submit(&mut self, request: Request) -> (r: Result<u64, Rejected>)
        requires
            old(self).wf(),
        ensures
            final(self).wf(),
            final(self).capacity_spec() == old(self).capacity_spec(),
            final(self).closed_spec() == old(self).closed_spec(),
            r is Ok <==> !old(self).closed_spec() && old(self).pending().len() < old(
                self,
            ).capacity_spec() && old(self).next_ticket_spec() < u64::MAX,
            old(self).closed_spec() ==> r is Err && r->Err_0.error == SubmitError::QueueClosed,
            !old(self).closed_spec() && old(self).pending().len() == old(self).capacity_spec()
                ==> r is Err && r->Err_0.error == SubmitError::QueueFull,
            !old(self).closed_spec() && old(self).pending().len() < old(self).capacity_spec()
                && old(self).next_ticket_spec() == u64::MAX ==> r is Err && r->Err_0.error
                == SubmitError::TicketsExhausted,
            r is Err ==> r->Err_0.request == request && *final(self) == *old(self),
            r is Ok ==> {
                &&& r->Ok_0 == old(self).next_ticket_spec()
                &&& final(self).next_ticket_spec() == r->Ok_0 + 1
                &&& final(self).pending() == old(self).pending().push(
                    Envelope { ticket: r->Ok_0, request },
                )
            },
    {
        if self.closed {
            return Err(Rejected { error: SubmitError::QueueClosed, request });
        }
        if self.entries.len() >= self.capacity {
            return Err(Rejected { error: SubmitError::QueueFull, request });
        }
        if self.next_ticket == u64::MAX {
            return Err(Rejected { error: SubmitError::TicketsExhausted, request });
        }
        let ticket = self.next_ticket;
        self.entries.push(Envelope { ticket, request });
        self.next_ticket = ticket + 1;
        Ok(ticket)
    }

    /// Stops accepting submissions; entries already queued stay.
    pub fn close(&mut self)
        requires
            old(self).wf(),
        ensures
            final(self).wf(),
            final(self).closed_spec(),
            final(self).pending() == old(self).pending(),
            final(self).capacity_spec() == old(self).capacity_spec(),
            final(self).next_ticket_spec() == old(self).next_ticket_spec(),
    {
        self.closed = true;
    }

    /// Removes and returns the oldest entry.
    pub fn pop_front(&mut self) -> (r: Option<Envelope>)
        requires
            old(self).wf(),
        ensures
            final(self).wf(),
            final(self).capacity_spec() == old(self).capacity_spec(),
            final(self).closed_spec() == old(self).closed_spec(),
            final(self).next_ticket_spec() == old(self).next_ticket_spec(),
            old(self).pending().len() == 0 ==> r is None && final(self).pending() == old(
                self,
            ).pending(),
            old(self).pending().len() > 0 ==> r == Some(old(self).pending()[0])
                && final(self).pending() == old(self).pending().drop_first(),
    {
        if self.entries.len() == 0 {
            None
        } else {
            let e = self.entries.remove(0);
            assert(self.entries@ =~= old(self).entries@.drop_first());
            Some(e)
        }
    }

    /// The oldest entry, if any.
    pub fn front(&self) -> (r: Option<&Envelope>)
        ensures
            self.pending().len() == 0 ==> r is None,
            self.pending().len() > 0 ==> r == Some(&self.pending()[0]),
    {
        if self.entries.len() == 0 {
            None
        } else {
            Some(&self.entries[0])
        }
    }

    pub fn len(&self) -> (r: usize)
        ensures
            r == self.pending().len(),
    {
        self.entries.len()
    }

    pub fn is_closed(&self) -> (r: bool)
        ensures
            r == self.closed_spec(),
    {
        self.closed
    }

    pub fn capacity(&self) -> (r: usize)
        ensures
            r == self.capacity_spec(),
    {
        self.capacity
    }
}

} // verus!
