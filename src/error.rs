use vstd::prelude::*;

verus! {

/// Why a store operation did not happen.
#[derive(Debug, Clone, Copy, PartialEq, Eq, Structural)]
pub enum StoreError {
    /// The caller is the anonymous identity.
    Unauthorized,
    /// The caller owns no capsule.
    NotFound,
    /// The caller's capsule holds none of the requested kind of record.
    Empty,
    /// The capsule's encoding would exceed the size ceiling.
    EncodingTooLarge,
    /// Stored bytes do not decode to a valid capsule or index.
    CorruptRecord,
    /// The capsule's id generator cannot hand out that many more ids.
    IdsExhausted,
}

} // verus!
