//! Errors of the queue service.

use vstd::prelude::*;
use crate::text::{dec, push_decimal, push_str};

verus! {

/// A request parameter or name that breaks a rule.
#[derive(Debug, Clone)]
pub enum ValidationError {
    /// The queue name breaks the naming rules.
    InvalidQueueName(String),
    /// The topic ID breaks the naming rules.
    InvalidTopicId(String),
    /// The subscription ID breaks the naming rules.
    InvalidSubscriptionId(String),
    /// The message is larger than allowed.
    MessageTooLarge { size: usize, max: usize },
    /// A parameter has a value that is not allowed.
    InvalidParameter { name: String, reason: String },
}

/// An error of the queue service.
#[derive(Debug, Clone)]
pub enum Error {
    /// No queue has this ID.
    QueueNotFound(String),
    /// A queue with this ID exists already.
    QueueAlreadyExists(String),
    /// No subscription has this ID.
    SubscriptionNotFound(String),
    /// The receipt handle names no message in flight.
    InvalidReceiptHandle,
    /// No message has this ID.
    MessageNotFound(String),
    /// The storage refused the operation.
    StorageError(String),
    /// A validation rule was broken.
    Validation(ValidationError),
}

/// The text that describes a validation error.
pub open spec fn validation_error_text(e: ValidationError) -> Seq<char> {
    match e {
        ValidationError::InvalidQueueName(m) => "Invalid queue name: "@ + m@,
        ValidationError::InvalidTopicId(m) => "Invalid topic ID: "@ + m@,
        ValidationError::InvalidSubscriptionId(m) => "Invalid subscription ID: "@ + m@,
        ValidationError::MessageTooLarge { size, max } => "Message too large: "@ + dec(size as nat)
            + " bytes (max: "@ + dec(max as nat) + ")"@,
        ValidationError::InvalidParameter { name, reason } => "Invalid parameter "@ + name@ + ": "@
            + reason@,
    }
}

/// The text that describes an error.
pub open spec fn error_text(e: Error) -> Seq<char> {
    match e {
        Error::QueueNotFound(id) => "Queue not found: "@ + id@,
        Error::QueueAlreadyExists(id) => "Queue already exists: "@ + id@,
        Error::SubscriptionNotFound(id) => "Subscription not found: "@ + id@,
        Error::InvalidReceiptHandle => "Invalid receipt handle"@,
        Error::MessageNotFound(id) => "Message not found: "@ + id@,
        Error::StorageError(m) => "Storage error: "@ + m@,
        Error::Validation(v) => "Validation error: "@ + validation_error_text(v),
    }
}

impl ValidationError {
    /// The text that describes this error.
    pub fn to_string(&self) -> (s: String)
        ensures
            s@ == validation_error_text(*self),
    {
        let mut s = String::new();
        match self {
            ValidationError::InvalidQueueName(m) => {
                push_str(&mut s, "Invalid queue name: ");
                push_str(&mut s, m.as_str());
            },
            ValidationError::InvalidTopicId(m) => {
                push_str(&mut s, "Invalid topic ID: ");
                push_str(&mut s, m.as_str());
            },
            ValidationError::InvalidSubscriptionId(m) => {
                push_str(&mut s, "Invalid subscription ID: ");
                push_str(&mut s, m.as_str());
            },
            ValidationError::MessageTooLarge { size, max } => {
                push_str(&mut s, "Message too large: ");
                push_decimal(&mut s, *size as u128);
                push_str(&mut s, " bytes (max: ");
                push_decimal(&mut s, *max as u128);
                push_str(&mut s, ")");
            },
            ValidationError::InvalidParameter { name, reason } => {
                push_str(&mut s, "Invalid parameter ");
                push_str(&mut s, name.as_str());
                push_str(&mut s, ": ");
                push_str(&mut s, reason.as_str());
            },
        }
        assert(s@ =~= validation_error_text(*self));
        s
    }
}

impl Error {
    /// The text that describes this error.
    pub fn to_string(&self) -> (s: String)
        ensures
            s@ == error_text(*self),
    {
        let mut s = String::new();
        match self {
            Error::QueueNotFound(id) => {
                push_str(&mut s, "Queue not found: ");
                push_str(&mut s, id.as_str());
            },
            Error::QueueAlreadyExists(id) => {
                push_str(&mut s, "Queue already exists: ");
                push_str(&mut s, id.as_str());
            },
            Error::SubscriptionNotFound(id) => {
                push_str(&mut s, "Subscription not found: ");
                push_str(&mut s, id.as_str());
            },
            Error::InvalidReceiptHandle => {
                push_str(&mut s, "Invalid receipt handle");
            },
            Error::MessageNotFound(id) => {
                push_str(&mut s, "Message not found: ");
                push_str(&mut s, id.as_str());
            },
            Error::StorageError(m) => {
                push_str(&mut s, "Storage error: ");
                push_str(&mut s, m.as_str());
            },
            Error::Validation(v) => {
                push_str(&mut s, "Validation error: ");
                let t = v.to_string();
                push_str(&mut s, t.as_str());
            },
        }
        assert(s@ =~= error_text(*self));
        s
    }
}

} // verus!
