//! A per-identity archive of texts and images that survives a restart: the
//! identity guard, the record model with its id generator, the capsule index and
//! the save and restore of that index.

use vstd::prelude::*;

pub mod capsule;
pub mod codec;
pub mod error;
pub mod index;
pub mod lemmas;
pub mod snapshot;
pub mod types;
pub mod utils;

pub use capsule::Capsule;
pub use codec::{check_encoding, MAX_VALUE_SIZE};
pub use error::StoreError;
pub use index::CapsuleIndex;
pub use snapshot::{decode_snapshot, encode_snapshot};
pub use types::{
    CapsuleMetadata, CapsuleStats, Identity, Image, Metadata, Settings, Statistics, Text,
};
pub use utils::validate_caller_not_anonymous;

verus! {

} // verus!
