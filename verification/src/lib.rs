//! An in-memory key-value store with a line-oriented text command
//! protocol: a typed value model, a store engine with lazy key
//! expiration, and a command interpreter that parses request lines and
//! renders wire-format replies.
//!
//! The transport (socket handling, framing, locking) is outside this
//! library; it hands in one request line at a time together with the
//! current time in whole seconds, and sends the reply bytes back.

pub mod command;
pub mod laws;
pub mod numeric;
pub mod store;
pub mod value;
