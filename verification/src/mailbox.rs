//! The bounded, ordered inbox that one agent owns and reads.
//!
//! A mailbox never reorders and never drops: a message that finds no room is
//! handed back to the sender, who has to wait and offer it again.

use crate::message::{AgentMessage, MessageModel};
use std::collections::VecDeque;
use vstd::prelude::*;

verus! {

/// The number of messages a mailbox of the reference mesh holds.
pub const MAILBOX_CAPACITY: usize = 100;

/// A mailbox as a mathematical value: the queued messages, oldest first, the
/// fixed capacity, and whether its owner still reads it.
#[verifier::ext_equal]
pub struct MailboxModel {
    pub queue: Seq<MessageModel>,
    pub capacity: nat,
    pub open: bool,
}

impl MailboxModel {
    /// A mailbox just created: empty and read by its owner.
    pub open spec fn empty(capacity: nat) -> MailboxModel {
        MailboxModel { queue: Seq::empty(), capacity, open: true }
    }

    /// No more messages are queued than the capacity allows.
    pub open spec fn bounded(self) -> bool {
        self.queue.len() <= self.capacity
    }

    pub open spec fn has_room(self) -> bool {
        self.queue.len() < self.capacity
    }

    /// A send succeeds exactly when the owner still reads and there is room.
    pub open spec fn accepts(self) -> bool {
        self.open && self.has_room()
    }

    /// The mailbox after a send was attempted: the message joins the tail if
    /// it is accepted, and nothing changes otherwise.
    pub open spec fn send(self, message: MessageModel) -> MailboxModel {
        if self.accepts() {
            MailboxModel { queue: self.queue.push(message), ..self }
        } else {
            self
        }
    }

    /// The mailbox after a receive was attempted: the head leaves, if there is one.
    pub open spec fn receive(self) -> MailboxModel {
        if self.queue.len() > 0 {
            MailboxModel { queue: self.queue.drop_first(), ..self }
        } else {
            self
        }
    }

    /// The mailbox once its owner has stopped reading. What is queued stays
    /// queued, unread.
    pub open spec fn close(self) -> MailboxModel {
        MailboxModel { open: false, ..self }
    }

    /// The mailbox after each of `messages` was offered in turn.
    pub open spec fn send_all(self, messages: Seq<MessageModel>) -> MailboxModel
        decreases messages.len(),
    {
        if messages.len() == 0 {
            self
        } else {
            self.send_all(messages.drop_last()).send(messages.last())
        }
    }
}

/// Why a mailbox did not take a message. The message comes back to the sender.
#[derive(Debug, PartialEq, Eq)]
pub enum SendError {
    /// The mailbox is at capacity: the sender has to wait for room.
    Full(AgentMessage),
    /// The owner no longer reads the mailbox.
    Closed(AgentMessage),
}

/// A bounded first-in, first-out queue of messages with a single reader.
#[derive(Debug)]
pub struct Mailbox {
    queue: VecDeque<AgentMessage>,
    capacity: usize,
    open: bool,
}

impl View for Mailbox {
    type V = MailboxModel;

    closed spec fn view(&self) -> MailboxModel {
        MailboxModel {
            queue: self.queue@.map_values(|m: AgentMessage| m@),
            capacity: self.capacity as nat,
            open: self.open,
        }
    }
}

impl Mailbox {
    /// An empty, open mailbox that holds at most `capacity` messages.
    pub fn new(capacity: usize) -> (mailbox: Mailbox)
        ensures
            mailbox@ == MailboxModel::empty(capacity as nat),
    {
        let mailbox = Mailbox { queue: VecDeque::new(), capacity, open: true };
        mailbox
    }

    pub fn capacity(&self) -> (capacity: usize)
        ensures
            capacity == self@.capacity,
    {
        self.capacity
    }

    /// The number of messages queued.
    pub fn len(&self) -> (len: usize)
        ensures
            len == self@.queue.len(),
    {
        self.queue.len()
    }

    pub fn is_empty(&self) -> (empty: bool)
        ensures
            empty == (self@.queue.len() == 0),
    {
        self.queue.len() == 0
    }

    pub fn is_full(&self) -> (full: bool)
        ensures
            full == !self@.has_room(),
    {
        self.queue.len() >= self.capacity
    }

    /// Whether the owner still reads this mailbox.
    pub fn is_open(&self) -> (open: bool)
        ensures
            open == self@.open,
    {
        self.open
    }

    /// Offers `message` to the mailbox. It joins the tail when the mailbox is
    /// open and has room; otherwise the mailbox is unchanged and the message
    /// comes back, with `Closed` taking precedence over `Full`.
    pub fn send(&mut self, message: AgentMessage) -> (sent: Result<(), SendError>)
        ensures
            final(self)@ == old(self)@.send(message@),
            match sent {
                Ok(()) => old(self)@.accepts(),
                Err(SendError::Closed(back)) => !old(self)@.open && back@ == message@,
                Err(SendError::Full(back)) => old(self)@.open && !old(self)@.has_room() && back@
                    == message@,
            },
    {
        if !self.open {
            Err(SendError::Closed(message))
        } else if self.queue.len() >= self.capacity {
            Err(SendError::Full(message))
        } else {
            self.queue.push_back(message);
            Ok(())
        }
    }

    /// Takes the oldest message, if any. On an empty mailbox nothing changes
    /// and the reader has to wait.
    pub fn receive(&mut self) -> (received: Option<AgentMessage>)
        ensures
            final(self)@ == old(self)@.receive(),
            match received {
                Some(message) => old(self)@.queue.len() > 0 && message@ == old(self)@.queue[0],
                None => old(self)@.queue.len() == 0,
            },
    {
        let received = self.queue.pop_front();
        received
    }

    /// Marks the mailbox as no longer read. Later sends come back as `Closed`.
    pub fn close(&mut self)
        ensures
            final(self)@ == old(self)@.close(),
    {
        self.open = false;
    }
}

/// A mailbox that starts within its capacity stays within it, whatever is
/// sent to it, received from it, or whether it is closed.
pub proof fn lemma_mailbox_stays_bounded(mailbox: MailboxModel, message: MessageModel)
    requires
        mailbox.bounded(),
    ensures
        mailbox.send(message).bounded(),
        mailbox.receive().bounded(),
        mailbox.close().bounded(),
        MailboxModel::empty(mailbox.capacity).bounded(),
{
}

} // verus!
