//! Support for tests: generators of sample values.

pub mod gen;
