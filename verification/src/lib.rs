//! Core state machine of a peer-to-peer node that maintains a membership
//! table of known peers and a replicated key-value store of named binary
//! blobs.  The node state, the message-dispatch protocol that mutates it,
//! the single-copy replication engine, and the failure-triggered
//! redistribution logic all live here, each with a verified contract.
//! Network and disk I/O, wire encoding, and the interactive shell are left
//! to the surrounding application, which drives this library with decoded
//! messages and performs the actions it returns.
pub mod addr;
pub mod assoc;
pub mod dispatch;
pub mod laws;
pub mod message;
pub mod peer;
pub mod request;
mod trusted;

pub use addr::Addr;
