use vstd::prelude::*;

use crate::error::StoreError;

verus! {

/// The largest encoding of one capsule that the store accepts, in bytes.
pub const MAX_VALUE_SIZE: u64 = 1000000000;

/// Whether an encoding of `len` bytes is within the ceiling.
pub open spec fn within_bound(len: nat) -> bool {
    len <= MAX_VALUE_SIZE
}

/// Accepts a capsule encoding within the ceiling and refuses a larger one; the
/// bytes are never cut short.
pub fn check_encoding(bytes: Vec<u8>) -> (r: Result<Vec<u8>, StoreError>)
    ensures
        within_bound(bytes@.len()) ==> r is Ok && r->Ok_0@ == bytes@,
        !within_bound(bytes@.len()) ==> r == Err::<Vec<u8>, StoreError>(StoreError::EncodingTooLarge),
{
    if bytes.len() as u64 <= MAX_VALUE_SIZE {
        Ok(bytes)
    } else {
        Err(StoreError::EncodingTooLarge)
    }
}

} // verus!
