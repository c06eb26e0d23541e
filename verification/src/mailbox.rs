//! The outbound mailbox of one connection: the queue between a broadcast and
//! the loop that writes to the connection's transport.

use std::collections::VecDeque;
use vstd::prelude::*;

verus! {

/// The events that wait for one connection, oldest first, and whether the
/// mailbox is still fed. Producers only add at the back; the connection's
/// delivery loop alone takes from the front. The queue has no bound.
pub struct Mailbox {
    pending: VecDeque<String>,
    open: bool,
}

/// A [`Mailbox`] as a mathematical value.
pub struct MailboxModel {
    /// The texts that wait, oldest first.
    pub pending: Seq<Seq<char>>,
    /// Whether producers can still reach the mailbox.
    pub open: bool,
}

/// What a delivery loop does next.
#[derive(Debug, PartialEq, Eq)]
pub enum Delivery {
    /// Write this text to the transport.
    Write(String),
    /// Nothing waits: suspend until something is enqueued or the mailbox is
    /// closed.
    Wait,
    /// Nothing waits and nothing will come: the loop ends.
    Exit,
}

/// A [`Delivery`] as a mathematical value.
pub enum DeliveryModel {
    Write(Seq<char>),
    Wait,
    Exit,
}

impl View for Delivery {
    type V = DeliveryModel;

    open spec fn view(&self) -> DeliveryModel {
        match self {
            Delivery::Write(text) => DeliveryModel::Write(text@),
            Delivery::Wait => DeliveryModel::Wait,
            Delivery::Exit => DeliveryModel::Exit,
        }
    }
}

/// How the last write of a delivery loop ended.
#[derive(Debug, Clone, Copy, PartialEq, Eq)]
pub enum WriteOutcome {
    Written,
    Failed,
}

impl MailboxModel {
    /// An open mailbox in which nothing waits.
    pub open spec fn empty() -> MailboxModel {
        MailboxModel { pending: Seq::empty(), open: true }
    }

    /// The mailbox after a producer offered `text`: it joins the back of an
    /// open mailbox and is discarded by a closed one.
    pub open spec fn enqueue(self, text: Seq<char>) -> MailboxModel {
        if self.open {
            MailboxModel { pending: self.pending.push(text), open: true }
        } else {
            self
        }
    }

    /// The mailbox after its producers let go of it. What waits stays.
    pub open spec fn close(self) -> MailboxModel {
        MailboxModel { pending: self.pending, open: false }
    }

    /// What the delivery loop does next: the oldest text if one waits, else
    /// it suspends while the mailbox is open and ends once it is closed.
    pub open spec fn next(self) -> DeliveryModel {
        if self.pending.len() > 0 {
            DeliveryModel::Write(self.pending[0])
        } else if self.open {
            DeliveryModel::Wait
        } else {
            DeliveryModel::Exit
        }
    }

    /// The mailbox after the delivery loop took its next step.
    pub open spec fn after_next(self) -> MailboxModel {
        if self.pending.len() > 0 {
            MailboxModel { pending: self.pending.drop_first(), open: self.open }
        } else {
            self
        }
    }
}

impl View for Mailbox {
    type V = MailboxModel;

    closed spec fn view(&self) -> MailboxModel {
        MailboxModel { pending: self.pending.deep_view(), open: self.open }
    }
}

impl DeepView for Mailbox {
    type V = MailboxModel;

    open spec fn deep_view(&self) -> MailboxModel {
        self@
    }
}

impl Mailbox {
    /// A new mailbox: open, with nothing waiting.
    pub fn new() -> (mailbox: Mailbox)
        ensures
            mailbox@ == MailboxModel::empty(),
    {
        let mailbox = Mailbox { pending: VecDeque::new(), open: true };
        assert(mailbox.pending.deep_view() =~= Seq::empty());
        mailbox
    }

    /// Offers `text` to the mailbox. An open mailbox takes it, however much
    /// already waits; a closed one discards it. Returns whether it was taken.
    pub fn enqueue(&mut self, text: String) -> (taken: bool)
        ensures
            taken == old(self)@.open,
            final(self)@ == old(self)@.enqueue(text@),
    {
        if self.open {
            self.pending.push_back(text);
            assert(self.pending.deep_view() =~= old(self).pending.deep_view().push(text@));
            true
        } else {
            false
        }
    }

    /// Closes the mailbox: no producer reaches it any more. What waits can
    /// still be taken.
    pub fn close(&mut self)
        ensures
            final(self)@ == old(self)@.close(),
    {
        self.open = false;
    }

    /// The next step of the delivery loop. `last` says how the write before
    /// this step ended, `None` before the first; the step does not depend on
    /// it, so a failed write never ends the loop.
    pub fn next_delivery(&mut self, last: Option<WriteOutcome>) -> (step: Delivery)
        ensures
            step@ == old(self)@.next(),
            final(self)@ == old(self)@.after_next(),
    {
        match self.pending.pop_front() {
            Some(text) => {
                assert(self.pending.deep_view() =~= old(self).pending.deep_view().drop_first());
                Delivery::Write(text)
            },
            None => {
                if self.open {
                    Delivery::Wait
                } else {
                    Delivery::Exit
                }
            },
        }
    }

    /// How many texts wait.
    pub fn len(&self) -> (n: usize)
        ensures
            n == self@.pending.len(),
    {
        self.pending.len()
    }

    /// Whether the mailbox is still fed.
    pub fn is_open(&self) -> (open: bool)
        ensures
            open == self@.open,
    {
        self.open
    }
}

} // verus!
