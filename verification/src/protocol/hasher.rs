//! Fallback identifiers for byte strings that carry no usable id.

use std::collections::hash_map::DefaultHasher;
use std::hash::Hasher as StdHasher;
use vstd::prelude::*;
use vstd::std_specs::hash::DefaultHasherAdditionalSpecFns;

verus! {

/// Derives an identifier from raw bytes.
///
/// The identifier is a pure function of the bytes: equal inputs give equal
/// identifiers, in every process. It names a message whose own id could not be
/// read; it is no checksum.
pub struct Hasher {}

impl Hasher {
    /// The identifier of `bytes`: the digest of the standard library's default
    /// hasher after a single write of all of `bytes`.
    pub open spec fn spec_hash(bytes: Seq<u8>) -> u64 {
        DefaultHasher::spec_finish(seq![bytes])
    }

    /// Computes the identifier of `bytes`.
    pub fn hash(bytes: &[u8]) -> (id: u64)
        ensures
            id == Self::spec_hash(bytes@),
    {
        let mut state = DefaultHasher::new();
        state.write(bytes);
        proof {
            assert(state@ =~= seq![bytes@]);
        }
        state.finish()
    }
}

} // verus!
