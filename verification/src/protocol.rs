//! The wire protocol: messages, their encoding, and frames.

pub mod connection;
pub mod hasher;
pub mod json;
pub mod request;
pub mod response;

pub use hasher::Hasher;
