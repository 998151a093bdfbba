//! The lifecycle marker of a node.

use vstd::prelude::*;

verus! {

/// The stage of a node's life. The client is made in `New` and holds the
/// marker for the node layer, which owns the stages that follow.
#[derive(Clone, Copy, Eq, PartialEq, Debug, Structural)]
pub enum State {
    New,
}

} // verus!
