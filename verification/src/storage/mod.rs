//! Storage: the values that backends exchange, and the in-memory backend.

use vstd::prelude::*;
use crate::types::{Message, MessageView};

pub mod memory;
pub mod sqlite;
pub mod laws;

verus! {

/// Filter for listing queues.
#[derive(Debug)]
pub struct QueueFilter {
    /// Name prefix filter.
    pub name_prefix: Option<String>,
}

impl Default for QueueFilter {
    fn default() -> (r: Self)
        ensures
            r.name_prefix is None,
    {
        QueueFilter { name_prefix: None }
    }
}

/// A received message with its receipt handle.
#[derive(Debug)]
pub struct ReceivedMessage {
    /// The message.
    pub message: Message,
    /// Receipt handle for acknowledgment.
    pub receipt_handle: String,
}

impl View for ReceivedMessage {
    type V = (MessageView, Seq<char>);

    open spec fn view(&self) -> (MessageView, Seq<char>) {
        (self.message@, self.receipt_handle@)
    }
}

impl Clone for ReceivedMessage {
    fn clone(&self) -> (r: Self)
        ensures
            r@ == self@,
    {
        ReceivedMessage { message: self.message.clone(), receipt_handle: self.receipt_handle.clone() }
    }
}

/// Health status.
#[derive(Debug, Clone)]
pub enum HealthStatus {
    /// Backend is healthy.
    Healthy,
    /// Backend is unhealthy.
    Unhealthy(String),
}

} // verus!
