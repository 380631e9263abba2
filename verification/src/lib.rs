//! A mesh of autonomous agents that exchange messages over bounded mailboxes.
//!
//! Every decision an agent takes is a verified function from its state and an
//! event to its next state and an action; the surrounding program performs the
//! action and hands back the next event.

pub mod agent;
pub mod laws;
pub mod mailbox;
pub mod mesh;
pub mod mesh_laws;
pub mod message;
