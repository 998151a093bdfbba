//! The errors that the transport layer reports.

use vstd::prelude::*;

verus! {

/// A request that the state of the client does not allow.
#[derive(Clone, Eq, PartialEq, Debug)]
pub enum IllegalStateError {
    /// No connection is held for the peer with this key.
    NoPeerAtAddress(String),
}

/// The mathematical value of an [`IllegalStateError`].
pub enum IllegalStateErrorView {
    NoPeerAtAddress(Seq<char>),
}

impl View for IllegalStateError {
    type V = IllegalStateErrorView;

    open spec fn view(&self) -> IllegalStateErrorView {
        match self {
            IllegalStateError::NoPeerAtAddress(key) => IllegalStateErrorView::NoPeerAtAddress(key@),
        }
    }
}

impl IllegalStateErrorView {
    /// The text that reports the error.
    pub open spec fn message(self) -> Seq<char> {
        match self {
            IllegalStateErrorView::NoPeerAtAddress(key) => "no peer at address "@ + key,
        }
    }
}

impl IllegalStateError {
    /// The text that reports the error: it names the key.
    pub fn message(&self) -> (text: String)
        ensures
            text@ == self@.message(),
    {
        match self {
            IllegalStateError::NoPeerAtAddress(key) => String::from_str(
                "no peer at address ",
            ).concat(key.as_str()),
        }
    }
}

/// Why a write to one peer did not happen.
#[derive(Clone, Eq, PartialEq, Debug)]
pub enum WriteError {
    /// The transport failed: the stream was closed, or the write or the flush
    /// did not go through. Holds the transport's own report.
    Transport(String),
    /// The task that was to write ended without a result: it panicked or was
    /// cancelled. Holds the scheduler's report.
    Task(String),
}

/// The mathematical value of a [`WriteError`].
pub enum WriteErrorView {
    Transport(Seq<char>),
    Task(Seq<char>),
}

impl View for WriteError {
    type V = WriteErrorView;

    open spec fn view(&self) -> WriteErrorView {
        match self {
            WriteError::Transport(report) => WriteErrorView::Transport(report@),
            WriteError::Task(report) => WriteErrorView::Task(report@),
        }
    }
}

} // verus!
