use vstd::prelude::*;
use crate::model::Message;

verus! {

/// What became of a send.
#[derive(Debug)]
pub enum SendOutcome {
    Sent,
    /// The sink is at capacity: the producer waits and offers the message again.
    Full(Message),
    /// Every producer handle was released: a coordination fault.
    Closed(Message),
}

/// What a receive found.
#[derive(Debug)]
pub enum RecvOutcome {
    Received(Message),
    /// Nothing queued yet, and producers remain: the writer waits.
    Pending,
    /// Nothing queued and no producer left: the writer stops.
    Closed,
}

/// A bounded first-in first-out queue of messages, shared by the producers and
/// drained by a single writer.
pub struct SharedSink {
    items: Vec<Message>,
    capacity: usize,
    producers: usize,
}

impl SharedSink {
    /// The messages queued, oldest first.
    pub closed spec fn queued(&self) -> Seq<Message> {
        self.items@
    }

    pub closed spec fn cap(&self) -> nat {
        self.capacity as nat
    }

    /// Producer handles not yet released.
    pub closed spec fn open_handles(&self) -> nat {
        self.producers as nat
    }

    pub open spec fn wf(&self) -> bool {
        &&& self.cap() > 0
        &&& self.queued().len() <= self.cap()
    }

    /// An empty sink of the given capacity with `producers` handles held.
    pub fn new(capacity: usize, producers: usize) -> (r: Self)
        requires
            capacity > 0,
        ensures
            r.wf(),
            r.queued() == Seq::<Message>::empty(),
            r.cap() == capacity,
            r.open_handles() == producers,
    {
        SharedSink { items: Vec::new(), capacity, producers }
    }

    pub fn len(&self) -> (r: usize)
        ensures
            r == self.queued().len(),
    {
        self.items.len()
    }

    pub fn is_full(&self) -> (r: bool)
        ensures
            r == (self.queued().len() >= self.cap()),
    {
        self.items.len() >= self.capacity
    }

    /// Offers `m` at the back of the queue.
    pub fn try_send(&mut self, m: Message) -> (r: SendOutcome)
        requires
            old(self).wf(),
        ensures
            final(self).wf(),
            final(self).cap() == old(self).cap(),
            final(self).open_handles() == old(self).open_handles(),
            old(self).open_handles() == 0 ==> r == SendOutcome::Closed(m)
                && final(self).queued() == old(self).queued(),
            old(self).open_handles() > 0 && old(self).queued().len() >= old(self).cap() ==> r
                == SendOutcome::Full(m) && final(self).queued() == old(self).queued(),
            old(self).open_handles() > 0 && old(self).queued().len() < old(self).cap() ==> r
                is Sent && final(self).queued() == old(self).queued().push(m),
    {
        if self.producers == 0 {
            SendOutcome::Closed(m)
        } else if self.items.len() >= self.capacity {
            SendOutcome::Full(m)
        } else {
            self.items.push(m);
            SendOutcome::Sent
        }
    }

    /// Takes the oldest queued message.
    pub fn recv(&mut self) -> (r: RecvOutcome)
        requires
            old(self).wf(),
        ensures
            final(self).wf(),
            final(self).cap() == old(self).cap(),
            final(self).open_handles() == old(self).open_handles(),
            old(self).queued().len() > 0 ==> r == RecvOutcome::Received(old(self).queued()[0])
                && final(self).queued() == old(self).queued().drop_first(),
            old(self).queued().len() == 0 ==> final(self).queued() == old(self).queued() && (
            if old(self).open_handles() == 0 {
                r is Closed
            } else {
                r is Pending
            }),
    {
        if self.items.len() > 0 {
            let m = self.items.remove(0);
            assert(self.items@ =~= old(self).items@.drop_first());
            RecvOutcome::Received(m)
        } else if self.producers == 0 {
            RecvOutcome::Closed
        } else {
            RecvOutcome::Pending
        }
    }

    /// Releases one producer handle; the sink closes once none is left.
    pub fn release(&mut self)
        requires
            old(self).wf(),
        ensures
            final(self).wf(),
            final(self).cap() == old(self).cap(),
            final(self).queued() == old(self).queued(),
            final(self).open_handles() == if old(self).open_handles() == 0 {
                0
            } else {
                (old(self).open_handles() - 1) as nat
            },
    {
        if self.producers > 0 {
            self.producers = self.producers - 1;
        }
    }
}

} // verus!
