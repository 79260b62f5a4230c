//! The actor model: an actor takes the messages that were sent to it, in
//! the order they came, and handles them at its own pace.

use std::collections::VecDeque;
use vstd::prelude::*;

verus! {

/// An actor: something that handles the messages queued for it.
pub trait Actor {
    /// The messages the actor takes.
    type InMessage: Send;

    /// Handles messages from the front of the queue, in the order they came;
    /// those left in the queue are offered again with the next ones.
    fn poll_messages(&mut self, messages: &mut VecDeque<Self::InMessage>);
}

} // verus!
