//! Live log shipping: a producer tails a rotating log file and ships rows to a
//! relay, which fans them out to subscribers by application identity.
//!
//! The library holds the decisions of each component as verified state
//! machines; the transport, the file system and the timers stay with the
//! caller.

pub mod assembler;
pub mod configuration;
pub mod hub;
pub mod message;
pub mod session;
pub mod tracker;
