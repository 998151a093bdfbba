//! Requests: what a client asks of a peer.

use vstd::prelude::*;

verus! {

/// What a request asks for.
#[derive(Clone, Eq, PartialEq, Debug, Hash)]
pub enum Command {
    /// Read the value under a key.
    Get { key: String },
    /// Put a value under a key.
    Put { key: String, value: String },
    /// The bytes received held no command.
    Invalid { msg: String },
}

/// One request: a command under the id that its response will carry.
#[derive(Clone, Eq, PartialEq, Debug, Hash)]
pub struct Request {
    pub id: u64,
    pub command: Command,
}

} // verus!
