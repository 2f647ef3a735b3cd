//! The window of a parse pipeline: a bounded queue of decode jobs that are
//! handed out in the order of the stream, may finish in any order, and give
//! their results back in the order in which they were handed out.

use crate::error::CarError;
use crate::node::NodeWithCid;
use vstd::prelude::*;

verus! {

/// The result of one decode job.
pub type Decoded = Result<NodeWithCid, CarError>;

/// The state of a window holding results of type `T`.
pub struct WindowModel<T> {
    /// Ticket of the oldest job that is still in the window; also the count
    /// of results given out so far.
    pub head: nat,
    /// One slot per job in the window, oldest first; a slot holds the job's
    /// result once the job has finished.
    pub slots: Seq<Option<T>>,
    /// Most jobs that may be in the window at once.
    pub capacity: nat,
}

/// One thing that happens to a window.
pub enum Event {
    /// A job is handed out.
    Submit,
    /// The job with this ticket finishes.
    Complete(nat),
    /// The oldest result is asked for.
    Pop,
}

impl<T> WindowModel<T> {
    /// A window without jobs.
    pub open spec fn fresh(capacity: nat) -> WindowModel<T> {
        WindowModel { head: 0, slots: Seq::empty(), capacity }
    }

    /// The ticket that the next job gets.
    pub open spec fn next_ticket(self) -> nat {
        self.head + self.slots.len()
    }

    /// Whether another job fits.
    pub open spec fn has_room(self) -> bool {
        self.slots.len() < self.capacity && self.next_ticket() < u64::MAX
    }

    /// Whether the job with this ticket is in the window and has not
    /// finished.
    pub open spec fn is_waiting(self, ticket: nat) -> bool {
        self.head <= ticket < self.next_ticket() && self.slots[ticket - self.head] is None
    }

    /// Whether the oldest job has finished.
    pub open spec fn is_ready(self) -> bool {
        self.slots.len() > 0 && self.slots[0] is Some
    }

    /// The window after a job was handed out; a full window stays as it is.
    pub open spec fn submit(self) -> WindowModel<T> {
        if self.has_room() {
            WindowModel { slots: self.slots.push(None), ..self }
        } else {
            self
        }
    }

    /// The window after the job `ticket` finished with `value`; a ticket
    /// that is not waiting changes nothing.
    pub open spec fn complete(self, ticket: nat, value: T) -> WindowModel<T> {
        if self.is_waiting(ticket) {
            WindowModel { slots: self.slots.update(ticket - self.head, Some(value)), ..self }
        } else {
            self
        }
    }

    /// The window after its oldest result was taken; where the oldest job
    /// has not finished, nothing is taken.
    pub open spec fn pop(self) -> WindowModel<T> {
        if self.is_ready() {
            WindowModel { head: self.head + 1, slots: self.slots.drop_first(), ..self }
        } else {
            self
        }
    }

    /// Every result in the window is the one that `results` gives for its
    /// ticket.
    pub open spec fn holds(self, results: spec_fn(nat) -> T) -> bool {
        forall|i: int|
            0 <= i < self.slots.len() ==> ((#[trigger] self.slots[i]) matches Some(v) ==> v
                == results((self.head + i) as nat))
    }

    /// The window and the results given out after `events` have happened in
    /// turn, where the job with ticket `t` finishes with `results(t)`.
    pub open spec fn run(self, results: spec_fn(nat) -> T, events: Seq<Event>) -> (
        WindowModel<T>,
        Seq<T>,
    )
        decreases events.len(),
    {
        if events.len() == 0 {
            (self, Seq::empty())
        } else {
            let before = self.run(results, events.drop_last());
            match events.last() {
                Event::Submit => (before.0.submit(), before.1),
                Event::Complete(ticket) => (before.0.complete(ticket, results(ticket)), before.1),
                Event::Pop => if before.0.is_ready() {
                    (before.0.pop(), before.1.push(before.0.slots[0]->0))
                } else {
                    before
                },
            }
        }
    }
}

/// Order preservation. Whatever the capacity of the window, and in whatever
/// order jobs are handed out, finish and are asked for, the results come
/// out in the order of the tickets, none left out and none twice: result
/// number `k` is that of the job with ticket `k`.
pub proof fn lemma_results_leave_in_order<T>(
    capacity: nat,
    results: spec_fn(nat) -> T,
    events: Seq<Event>,
)
    ensures
        ({
            let end = WindowModel::<T>::fresh(capacity).run(results, events);
            &&& end.0.holds(results)
            &&& end.0.head == end.1.len()
            &&& end.0.capacity == capacity
            &&& end.0.slots.len() <= capacity
            &&& forall|k: int| 0 <= k < end.1.len() ==> (#[trigger] end.1[k]) == results(k as nat)
        }),
    decreases events.len(),
{
    let start = WindowModel::<T>::fresh(capacity);
    if events.len() > 0 {
        lemma_results_leave_in_order(capacity, results, events.drop_last());
        let before = start.run(results, events.drop_last());
        let end = start.run(results, events);
        match events.last() {
            Event::Submit => {},
            Event::Complete(ticket) => {},
            Event::Pop => {
                if before.0.is_ready() {
                    assert forall|i: int| 0 <= i < end.0.slots.len() implies ((
                    #[trigger] end.0.slots[i]) matches Some(v) ==> v == results(
                        (end.0.head + i) as nat,
                    )) by {
                        assert(end.0.slots[i] == before.0.slots[i + 1]);
                    }
                }
            },
        }
    }
}

/// A window over the results of decode jobs.
pub struct Window {
    slots: Vec<Option<Decoded>>,
    head: u64,
    capacity: usize,
}

impl View for Window {
    type V = WindowModel<Decoded>;

    closed spec fn view(&self) -> WindowModel<Decoded> {
        WindowModel { head: self.head as nat, slots: self.slots@, capacity: self.capacity as nat }
    }
}

impl Window {
    /// The window holds no more jobs than its capacity, and its tickets fit
    /// 64 bits. Every window that this module hands out is well formed.
    pub open spec fn wf(&self) -> bool {
        self@.slots.len() <= self@.capacity && self@.next_ticket() <= u64::MAX
    }

    /// A window for up to `capacity` jobs at once.
    pub fn new(capacity: usize) -> (r: Window)
        ensures
            r.wf(),
            r@ == WindowModel::<Decoded>::fresh(capacity as nat),
    {
        Window { slots: Vec::new(), head: 0, capacity }
    }

    /// Count of jobs in the window.
    pub fn len(&self) -> (r: usize)
        ensures
            r == self@.slots.len(),
    {
        self.slots.len()
    }

    /// Whether the window holds no job.
    pub fn is_empty(&self) -> (r: bool)
        ensures
            r == (self@.slots.len() == 0),
    {
        self.slots.len() == 0
    }

    /// The ticket of the oldest job in the window, or of the next job where
    /// the window is empty.
    pub fn first_ticket(&self) -> (r: u64)
        ensures
            r == self@.head,
    {
        self.head
    }

    /// Whether another job fits.
    pub fn has_room(&self) -> (r: bool)
        requires
            self.wf(),
        ensures
            r == self@.has_room(),
    {
        self.slots.len() < self.capacity && (self.slots.len() as u64) < u64::MAX - self.head
    }

    /// Hands out a job and gives its ticket, or nothing where the window is
    /// full: the producer then has to wait for a result to be taken.
    pub fn submit(&mut self) -> (r: Option<u64>)
        requires
            old(self).wf(),
        ensures
            final(self).wf(),
            final(self)@ == old(self)@.submit(),
            old(self)@.has_room() <==> r is Some,
            r matches Some(ticket) ==> ticket == old(self)@.next_ticket(),
    {
        if self.has_room() {
            let ticket: u64 = self.head + self.slots.len() as u64;
            self.slots.push(None);
            Some(ticket)
        } else {
            None
        }
    }

    /// Stores the result of the job `ticket`. Says whether the job was
    /// waiting for one; if not, the result is dropped.
    pub fn complete(&mut self, ticket: u64, value: Decoded) -> (r: bool)
        requires
            old(self).wf(),
        ensures
            final(self).wf(),
            final(self)@ == old(self)@.complete(ticket as nat, value),
            r == old(self)@.is_waiting(ticket as nat),
    {
        if ticket < self.head {
            return false;
        }
        let at: u64 = ticket - self.head;
        if at >= self.slots.len() as u64 {
            return false;
        }
        let i: usize = at as usize;
        if self.slots[i].is_some() {
            return false;
        }
        self.slots.set(i, Some(value));
        true
    }

    /// Takes the result of the oldest job if that job has finished.
    pub fn pop_ready(&mut self) -> (r: Option<Decoded>)
        requires
            old(self).wf(),
        ensures
            final(self).wf(),
            final(self)@ == old(self)@.pop(),
            old(self)@.is_ready() <==> r is Some,
            r matches Some(value) ==> old(self)@.slots[0] == Some(value),
    {
        if self.slots.len() == 0 || self.slots[0].is_none() {
            return None;
        }
        let ghost before = self.slots@;
        let taken: Option<Decoded> = self.slots.remove(0);
        assert(self.slots@ =~= before.drop_first());
        self.head = self.head + 1;
        taken
    }
}

} // verus!
