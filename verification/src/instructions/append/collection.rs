//! Creating an empty child collection under the root collection of a record or under
//! one of the root's children.
//!
//! A new child is structure, not content: the parent keeps its slot and its
//! certification, which speaks of the parent's items only.
//!
//! As for items, an append is decided in two steps: [`admit_collection`] checks the
//! request and finds the free place, [`place_collection`] creates the child there.
//! [`append_collection`] does both, and [`handler`] asks the runtime for the slot in
//! between.

use crate::clock::current_slot;
use crate::errors::{HandlerError, MetadataError};
use crate::identity::Identity;
use crate::instructions::append::{admit_target, target_rejection};
use crate::invariants::{applied, Operation};
use crate::sorted_index::{lemma_rank_bounds, located, Located};
use crate::state::{target_view, CollectionView, Metadata, MetadataKey, MetadataView};
use anchor_lang::prelude::ProgramError;
use vstd::prelude::*;

verus! {

/// Where an admitted collection goes.
#[derive(Clone, Copy, Debug, PartialEq, Eq, Structural)]
pub struct CollectionPlacement {
    /// The position of the parent among the root's children; `None` for the root
    /// collection itself.
    pub parent_index: Option<usize>,
    /// The position of the new collection among the children of the parent.
    pub collection_index: usize,
}

/// Where a new collection stands, and the slot it was stamped with.
#[derive(Clone, Copy, Debug, PartialEq, Eq, Structural)]
pub struct CollectionRef {
    /// The position of the collection among the children of its parent.
    pub index: usize,
    /// The slot recorded on the collection.
    pub update_slot: u64,
}

/// Why an append of a collection is refused, or `None` where it is admitted. The
/// checks come in this order: the root key, the presence of the parent, the signer,
/// the key of the new collection.
pub open spec fn append_collection_rejection(
    record: MetadataView,
    root_key_id: u64,
    parent_key_id: u64,
    collection_key_id: u64,
    signer: Identity,
) -> Option<MetadataError> {
    match target_rejection(record, root_key_id, parent_key_id, signer) {
        Some(e) => Some(e),
        None => if record.collection_at(
            record.target_of(root_key_id, parent_key_id),
        ).has_collection(collection_key_id) {
            Some(MetadataError::CollectionAlreadyExists)
        } else {
            None
        },
    }
}

/// The record after an empty collection is created under the collection at `parent`.
/// The parent gains the child at the child's place in the order; nothing else
/// changes.
pub open spec fn with_collection_under(
    record: MetadataView,
    parent: Option<int>,
    collection_key_id: u64,
    update_authority: Option<Identity>,
    now: u64,
) -> MetadataView {
    record.with_collection_at(
        parent,
        record.collection_at(parent).with_collection(collection_key_id, update_authority, now),
    )
}

/// The record after an admitted append of a collection.
pub open spec fn collection_appended(
    record: MetadataView,
    root_key_id: u64,
    parent_key_id: u64,
    collection_key_id: u64,
    update_authority: Option<Identity>,
    now: u64,
) -> MetadataView {
    with_collection_under(
        record,
        record.target_of(root_key_id, parent_key_id),
        collection_key_id,
        update_authority,
        now,
    )
}

/// The position at which an admitted append creates its collection.
pub open spec fn collection_index(
    record: MetadataView,
    root_key_id: u64,
    parent_key_id: u64,
    collection_key_id: u64,
) -> int {
    record.collection_at(record.target_of(root_key_id, parent_key_id)).collection_position(
        collection_key_id,
    )
}

impl CollectionPlacement {
    /// The placement names a collection of `record` and the place among its children
    /// that a lookup of `collection_key_id` reports as free.
    pub open spec fn is_free_in(self, record: MetadataView, collection_key_id: u64) -> bool {
        &&& record.has_target(target_view(self.parent_index))
        &&& located(
            record.collection_at(target_view(self.parent_index)).collection_keys(),
            collection_key_id,
        ) == Located::NotFound(self.collection_index)
    }
}

/// Checks an append of a collection against the record, and finds the place for it.
pub fn admit_collection(
    metadata: &Metadata,
    root_key_id: u64,
    parent_key_id: u64,
    collection_key_id: u64,
    signer: &Identity,
) -> (r: Result<CollectionPlacement, MetadataError>)
    requires
        metadata@.wf(),
    ensures
        match r {
            Ok(placement) => {
                &&& append_collection_rejection(
                    metadata@,
                    root_key_id,
                    parent_key_id,
                    collection_key_id,
                    *signer,
                ) is None
                &&& target_view(placement.parent_index) == metadata@.target_of(
                    root_key_id,
                    parent_key_id,
                )
                &&& placement.collection_index == collection_index(
                    metadata@,
                    root_key_id,
                    parent_key_id,
                    collection_key_id,
                )
                &&& placement.is_free_in(metadata@, collection_key_id)
            },
            Err(e) => append_collection_rejection(
                metadata@,
                root_key_id,
                parent_key_id,
                collection_key_id,
                *signer,
            ) == Some(e),
        },
{
    let parent_index = match admit_target(metadata, root_key_id, parent_key_id, signer) {
        Ok(target) => target,
        Err(e) => {
            return Err(e);
        },
    };
    let parent = metadata.collection_ref(parent_index);
    proof {
        metadata@.lemma_with_collection_at_wf(target_view(parent_index), parent@);
        lemma_rank_bounds(parent@.collection_keys(), collection_key_id);
        parent.lemma_view_collections();
    }
    match parent.find_child(collection_key_id) {
        Located::Found(_) => Err(MetadataError::CollectionAlreadyExists),
        Located::NotFound(collection_index) => Ok(
            CollectionPlacement { parent_index, collection_index },
        ),
    }
}

/// Creates an empty collection at the place that [`admit_collection`] found for it,
/// stamped with `now` and under the authority `update_authority`, if one is given.
pub fn place_collection(
    metadata: &mut Metadata,
    placement: CollectionPlacement,
    collection_key_id: u64,
    update_authority: Option<Identity>,
    now: u64,
) -> (created: CollectionRef)
    requires
        old(metadata)@.wf(),
        placement.is_free_in(old(metadata)@, collection_key_id),
    ensures
        final(metadata)@ == with_collection_under(
            old(metadata)@,
            target_view(placement.parent_index),
            collection_key_id,
            update_authority,
            now,
        ),
        final(metadata)@.wf(),
        created == (CollectionRef { index: placement.collection_index, update_slot: now }),
        final(metadata)@.collection_at(target_view(placement.parent_index)).collections[placement.collection_index as int]
            == CollectionView::empty(collection_key_id, update_authority, now),
{
    let ghost before = *metadata;
    let ghost parent = target_view(placement.parent_index);
    let ghost changed = before@.collection_at(parent).with_collection(
        collection_key_id,
        update_authority,
        now,
    );
    proof {
        before.collection.lemma_view_collections();
        before@.lemma_with_collection_at_wf(parent, before@.collection_at(parent));
    }
    match placement.parent_index {
        None => {
            metadata.collection.insert_collection(
                placement.collection_index,
                collection_key_id,
                update_authority,
                now,
            );
        },
        Some(at) => {
            let child = &mut metadata.collection.collections[at];
            child.insert_collection(
                placement.collection_index,
                collection_key_id,
                update_authority,
                now,
            );
            proof {
                metadata.collection.lemma_view_collections();
                assert(metadata@.collection.collections =~= before@.collection.collections.update(
                    at as int,
                    changed,
                ));
                assert(metadata@.collection.items == before@.collection.items);
            }
        },
    }
    proof {
        before@.lemma_with_collection_at_wf(parent, changed);
    }
    CollectionRef { index: placement.collection_index, update_slot: now }
}

/// Creates an empty collection under `collection_key_id` in the collection that
/// `parent_key_id` names: the root collection where it is `root_key_id`, else the child
/// of the root stored under it. `signer` must be the authority in force at the parent.
/// A refused append leaves the record as it was.
pub fn append_collection(
    metadata: &mut Metadata,
    root_key_id: u64,
    parent_key_id: u64,
    collection_key_id: u64,
    update_authority: Option<Identity>,
    signer: &Identity,
    now: u64,
) -> (r: Result<CollectionRef, MetadataError>)
    requires
        old(metadata)@.wf(),
    ensures
        final(metadata)@.wf(),
        match r {
            Ok(created) => {
                &&& append_collection_rejection(
                    old(metadata)@,
                    root_key_id,
                    parent_key_id,
                    collection_key_id,
                    *signer,
                ) is None
                &&& final(metadata)@ == collection_appended(
                    old(metadata)@,
                    root_key_id,
                    parent_key_id,
                    collection_key_id,
                    update_authority,
                    now,
                )
                &&& created.index == collection_index(
                    old(metadata)@,
                    root_key_id,
                    parent_key_id,
                    collection_key_id,
                )
                &&& created.update_slot == now
            },
            Err(e) => {
                &&& append_collection_rejection(
                    old(metadata)@,
                    root_key_id,
                    parent_key_id,
                    collection_key_id,
                    *signer,
                ) == Some(e)
                &&& *final(metadata) == *old(metadata)
            },
        },
        final(metadata)@ == applied(
            old(metadata)@,
            Operation::AppendCollection {
                root_key_id,
                parent_key_id,
                collection_key_id,
                update_authority,
                signer: *signer,
                now,
            },
        ),
{
    match admit_collection(metadata, root_key_id, parent_key_id, collection_key_id, signer) {
        Err(e) => Err(e),
        Ok(placement) => Ok(
            place_collection(metadata, placement, collection_key_id, update_authority, now),
        ),
    }
}

/// What an append of a collection is given: the signer, the record, and the
/// definitions of the three keys involved.
#[derive(Debug, PartialEq, Eq)]
pub struct AppendMetadataCollection {
    /// The signer of the request.
    pub update_authority: Identity,
    /// The record to change.
    pub metadata: Metadata,
    /// The key that the caller holds to be the key of the record's root collection.
    pub metadata_key: MetadataKey,
    /// The key of the collection that takes the new child; the root key for the root
    /// itself.
    pub parent_metadata_key: MetadataKey,
    /// The key of the new collection.
    pub collection_metadata_key: MetadataKey,
}

/// The arguments of an append of a collection.
#[derive(Clone, Copy, Debug, PartialEq, Eq)]
pub struct AppendMetadataCollectionArgs {
    /// The authority of the new collection; `None` leaves it under the authority in
    /// force at its parent.
    pub update_authority: Option<Identity>,
}

/// Finishes an admitted append with what the clock answered: with a slot the
/// collection is created and stamped with it; with an error nothing is created and
/// the error is handed on.
pub fn place_collection_in_slot(
    metadata: &mut Metadata,
    placement: CollectionPlacement,
    collection_key_id: u64,
    update_authority: Option<Identity>,
    slot: Result<u64, ProgramError>,
) -> (r: Result<CollectionRef, HandlerError>)
    requires
        old(metadata)@.wf(),
        placement.is_free_in(old(metadata)@, collection_key_id),
    ensures
        final(metadata)@.wf(),
        match slot {
            Ok(now) => {
                &&& r == Ok::<CollectionRef, HandlerError>(
                    CollectionRef { index: placement.collection_index, update_slot: now },
                )
                &&& final(metadata)@ == with_collection_under(
                    old(metadata)@,
                    target_view(placement.parent_index),
                    collection_key_id,
                    update_authority,
                    now,
                )
            },
            Err(e) => {
                &&& r == Err::<CollectionRef, HandlerError>(HandlerError::Clock(e))
                &&& *final(metadata) == *old(metadata)
            },
        },
{
    match slot {
        Ok(now) => Ok(
            place_collection(metadata, placement, collection_key_id, update_authority, now),
        ),
        Err(e) => Err(HandlerError::Clock(e)),
    }
}

/// Appends the collection that `ctx` and `args` describe, stamped with the slot of the
/// runtime's clock. The request is checked first; the clock is asked only for a
/// request that is admitted, so a refusal is reported whatever the clock would say.
pub fn handler(ctx: &mut AppendMetadataCollection, args: AppendMetadataCollectionArgs) -> (r:
    Result<(), HandlerError>)
    requires
        old(ctx).metadata@.wf(),
    ensures
        final(ctx).metadata@.wf(),
        final(ctx).update_authority == old(ctx).update_authority,
        final(ctx).metadata_key == old(ctx).metadata_key,
        final(ctx).parent_metadata_key == old(ctx).parent_metadata_key,
        final(ctx).collection_metadata_key == old(ctx).collection_metadata_key,
        match r {
            Ok(()) => {
                &&& append_collection_rejection(
                    old(ctx).metadata@,
                    old(ctx).metadata_key.id,
                    old(ctx).parent_metadata_key.id,
                    old(ctx).collection_metadata_key.id,
                    old(ctx).update_authority,
                ) is None
                &&& exists|now: u64|
                    final(ctx).metadata@ == collection_appended(
                        old(ctx).metadata@,
                        old(ctx).metadata_key.id,
                        old(ctx).parent_metadata_key.id,
                        old(ctx).collection_metadata_key.id,
                        args.update_authority,
                        now,
                    )
            },
            Err(HandlerError::Rejected(e)) => {
                &&& append_collection_rejection(
                    old(ctx).metadata@,
                    old(ctx).metadata_key.id,
                    old(ctx).parent_metadata_key.id,
                    old(ctx).collection_metadata_key.id,
                    old(ctx).update_authority,
                ) == Some(e)
                &&& final(ctx).metadata == old(ctx).metadata
            },
            Err(HandlerError::Clock(_)) => {
                &&& append_collection_rejection(
                    old(ctx).metadata@,
                    old(ctx).metadata_key.id,
                    old(ctx).parent_metadata_key.id,
                    old(ctx).collection_metadata_key.id,
                    old(ctx).update_authority,
                ) is None
                &&& final(ctx).metadata == old(ctx).metadata
            },
        },
{
    let root_key_id = ctx.metadata_key.id;
    let parent_key_id = ctx.parent_metadata_key.id;
    let collection_key_id = ctx.collection_metadata_key.id;
    let signer = ctx.update_authority;
    let ghost before = ctx.metadata@;
    match admit_collection(&ctx.metadata, root_key_id, parent_key_id, collection_key_id, &signer) {
        Err(e) => Err(HandlerError::Rejected(e)),
        Ok(placement) => {
            let slot = current_slot();
            match place_collection_in_slot(
                &mut ctx.metadata,
                placement,
                collection_key_id,
                args.update_authority,
                slot,
            ) {
                Ok(created) => {
                    assert(ctx.metadata@ == collection_appended(
                        before,
                        root_key_id,
                        parent_key_id,
                        collection_key_id,
                        args.update_authority,
                        created.update_slot,
                    ));
                    Ok(())
                },
                Err(e) => Err(e),
            }
        },
    }
}

} // verus!
