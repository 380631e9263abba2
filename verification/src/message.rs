//! The messages that agents exchange, and their mathematical model.

use vstd::prelude::*;

verus! {

/// What a message is, with every text taken as its sequence of characters.
pub enum MessageModel {
    Task(Seq<char>),
    Response(Seq<char>, Seq<char>),
    Trigger(Seq<char>),
    Shutdown,
}

/// A message delivered to an agent's mailbox.
#[derive(Debug, PartialEq, Eq)]
pub enum AgentMessage {
    /// A unit of work for the receiving agent.
    Task(String),
    /// A result broadcast by the agent named first; the second text is the result.
    Response(String, String),
    /// An outside stimulus: processed like a task, never recorded, never broadcast.
    Trigger(String),
    /// The terminal control signal.
    Shutdown,
}

impl View for AgentMessage {
    type V = MessageModel;

    open spec fn view(&self) -> MessageModel {
        match self {
            AgentMessage::Task(text) => MessageModel::Task(text@),
            AgentMessage::Response(from, text) => MessageModel::Response(from@, text@),
            AgentMessage::Trigger(text) => MessageModel::Trigger(text@),
            AgentMessage::Shutdown => MessageModel::Shutdown,
        }
    }
}

impl Clone for AgentMessage {
    fn clone(&self) -> (copy: Self)
        ensures
            copy@ == self@,
    {
        match self {
            AgentMessage::Task(text) => AgentMessage::Task(text.clone()),
            AgentMessage::Response(from, text) => AgentMessage::Response(
                from.clone(),
                text.clone(),
            ),
            AgentMessage::Trigger(text) => AgentMessage::Trigger(text.clone()),
            AgentMessage::Shutdown => AgentMessage::Shutdown,
        }
    }
}

impl AgentMessage {
    /// Whether this is the terminal control signal.
    pub fn is_shutdown(&self) -> (yes: bool)
        ensures
            yes == (self@ is Shutdown),
    {
        match self {
            AgentMessage::Shutdown => true,
            _ => false,
        }
    }
}

} // verus!
