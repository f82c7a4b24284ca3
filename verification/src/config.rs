//! Settings of the storage backends.

use vstd::prelude::*;

verus! {

/// What the in-memory backend does when it holds as many messages as it may.
#[derive(Debug, Clone, Copy, PartialEq, Eq, Structural)]
pub enum EvictionPolicy {
    /// Drop the oldest message of the queue that was used least recently.
    Lru,
    /// Drop the message that was sent first, over all queues.
    Fifo,
    /// Refuse the new message.
    RejectNew,
}

} // verus!
