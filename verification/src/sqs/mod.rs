//! AWS SQS dialect implementation.

pub mod actions;
pub mod attributes_round_trip;
pub mod handler;
pub mod json;
pub mod json_response;
pub mod receive_round_trip;
pub mod request;
pub mod response;
pub mod types;
pub mod xml;
