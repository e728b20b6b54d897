//! Appending: creating a collection, and storing an item in a collection.
//!
//! Both operations name the collection they change by two keys: the key that the
//! caller holds to be the root's, and the key of the target. The target is the root
//! where the two agree, else the child of the root stored under the target key. Both
//! begin with the same three checks, in this order: the root key is the record's, the
//! target exists, and the signer is the authority in force at the target.

pub mod collection;
pub mod item;

use crate::authority::{authority_at, authority_at_target, authorize};
use crate::errors::MetadataError;
use crate::identity::Identity;
use crate::state::{target_view, Metadata, MetadataView};
use vstd::prelude::*;

verus! {

/// Why `signer` may not change the collection that `collection_key_id` names, or `None`
/// where it may.
pub open spec fn target_rejection(
    record: MetadataView,
    root_key_id: u64,
    collection_key_id: u64,
    signer: Identity,
) -> Option<MetadataError> {
    if root_key_id != record.metadata_key_id {
        Some(MetadataError::InvalidRootKey)
    } else if !record.reaches(root_key_id, collection_key_id) {
        Some(MetadataError::CollectionNotFound)
    } else if authority_at(record, record.target_of(root_key_id, collection_key_id)) != Some(
        signer,
    ) {
        Some(MetadataError::Unauthorized)
    } else {
        None
    }
}

/// Finds the collection that `collection_key_id` names and checks that `signer` may
/// change it.
pub fn admit_target(
    metadata: &Metadata,
    root_key_id: u64,
    collection_key_id: u64,
    signer: &Identity,
) -> (r: Result<Option<usize>, MetadataError>)
    requires
        metadata@.wf(),
    ensures
        match r {
            Ok(target) => {
                &&& target_rejection(metadata@, root_key_id, collection_key_id, *signer) is None
                &&& target_view(target) == metadata@.target_of(root_key_id, collection_key_id)
                &&& metadata@.has_target(target_view(target))
            },
            Err(e) => target_rejection(metadata@, root_key_id, collection_key_id, *signer)
                == Some(e),
        },
{
    if root_key_id != metadata.metadata_key_id {
        return Err(MetadataError::InvalidRootKey);
    }
    let target = match metadata.find_collection(root_key_id, collection_key_id) {
        Ok(target) => target,
        Err(e) => {
            return Err(e);
        },
    };
    match authorize(authority_at_target(metadata, target), signer) {
        Ok(()) => Ok(target),
        Err(e) => Err(e),
    }
}

} // verus!
