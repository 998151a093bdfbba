//! Transport and message-framing core of a distributed key-value node.
//!
//! The crate holds the decisions of the node's networking layer as verified
//! functions on plain values: the wire codec of responses, the
//! newline-delimited frame codec, and the connection table of the client with
//! the orders it issues for point-to-point and broadcast writes. Sockets,
//! tasks and locks live with the caller, which carries the orders out.

pub mod client;
pub mod error;
pub mod node;
pub mod protocol;
pub mod test_support;
