//! Parser for exported chat-history logs: a fixed JSON document shape is
//! decoded into a strongly typed model, with a fixed-format UTC timestamp
//! codec and two queries over the decoded history.

pub mod error;
pub mod json;
pub mod timestamp;
pub mod types;
