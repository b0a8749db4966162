use vstd::prelude::*;

use crate::error::StoreError;
use crate::types::{anonymous_bytes, Identity};

verus! {

/// Admits any caller but the anonymous one, and hands its identity back as the
/// key under which its capsule is kept.
pub fn validate_caller_not_anonymous(caller: Identity) -> (r: Result<Identity, StoreError>)
    ensures
        caller@ == anonymous_bytes() ==> r == Err::<Identity, StoreError>(StoreError::Unauthorized),
        caller@ != anonymous_bytes() ==> r is Ok && r->Ok_0@ == caller@,
{
    if caller.is_anonymous() {
        Err(StoreError::Unauthorized)
    } else {
        Ok(caller)
    }
}

} // verus!
