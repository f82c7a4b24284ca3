//! lclq: a local message-queue service speaking the AWS SQS protocol.

pub mod text;
pub mod receipt;
pub mod dict;
pub mod error;
pub mod types;
pub mod sqs;
pub mod config;
pub mod storage;
