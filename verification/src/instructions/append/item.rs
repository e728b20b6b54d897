//! Storing an item in the root collection of a record or in one of the root's
//! children.
//!
//! An append is decided in two steps. [`admit_item`] checks the request against the
//! record and finds the free place; [`place_item`] writes the item there. Between the
//! two nothing of the record changes, so a caller may fetch the slot to stamp the item
//! with only once the request is known to be good. [`append_item`] does both for a
//! caller that has the slot at hand, and [`handler`] asks the runtime for it.

use crate::clock::current_slot;
use crate::errors::{HandlerError, MetadataError};
use crate::identity::Identity;
use crate::instructions::append::{admit_target, target_rejection};
use crate::invariants::{applied, Operation};
use crate::sorted_index::{lemma_rank_bounds, located, Located};
use crate::state::{target_view, ItemView, Metadata, MetadataKey, MetadataView};
use anchor_lang::prelude::ProgramError;
use vstd::prelude::*;

verus! {

/// Where an admitted item goes.
#[derive(Clone, Copy, Debug, PartialEq, Eq, Structural)]
pub struct ItemPlacement {
    /// The position, among the root's children, of the collection that takes the item;
    /// `None` for the root collection itself.
    pub collection_index: Option<usize>,
    /// The position of the item among the items of that collection.
    pub item_index: usize,
}

/// Where a stored item stands, and the slot it was stamped with.
#[derive(Clone, Copy, Debug, PartialEq, Eq, Structural)]
pub struct ItemRef {
    /// The position of the item among the items of its collection.
    pub index: usize,
    /// The slot recorded on the item and on its collection.
    pub update_slot: u64,
}

/// Why an append of an item is refused, or `None` where it is admitted. The checks
/// come in this order: the root key, the presence of the target collection, the
/// signer, the key of the item.
pub open spec fn append_item_rejection(
    record: MetadataView,
    root_key_id: u64,
    collection_key_id: u64,
    item_key_id: u64,
    signer: Identity,
) -> Option<MetadataError> {
    match target_rejection(record, root_key_id, collection_key_id, signer) {
        Some(e) => Some(e),
        None => if record.collection_at(record.target_of(root_key_id, collection_key_id)).has_item(
            item_key_id,
        ) {
            Some(MetadataError::ItemAlreadyExists)
        } else {
            None
        },
    }
}

/// The record after an item is stored in the collection at `target`. Only that
/// collection changes: it gains the item at the item's place in the order, carries
/// `now`, and is no longer certified. A child keeps its place among the root's
/// children.
pub open spec fn with_item_at(
    record: MetadataView,
    target: Option<int>,
    item_key_id: u64,
    value: Seq<u8>,
    now: u64,
) -> MetadataView {
    record.with_collection_at(
        target,
        record.collection_at(target).with_item(item_key_id, value, now),
    )
}

/// The record after an admitted append of an item.
pub open spec fn item_appended(
    record: MetadataView,
    root_key_id: u64,
    collection_key_id: u64,
    item_key_id: u64,
    value: Seq<u8>,
    now: u64,
) -> MetadataView {
    with_item_at(
        record,
        record.target_of(root_key_id, collection_key_id),
        item_key_id,
        value,
        now,
    )
}

/// The position at which an admitted append stores its item.
pub open spec fn item_index(
    record: MetadataView,
    root_key_id: u64,
    collection_key_id: u64,
    item_key_id: u64,
) -> int {
    record.collection_at(record.target_of(root_key_id, collection_key_id)).item_position(
        item_key_id,
    )
}

impl ItemPlacement {
    /// The placement names a collection of `record` and the place in it that a lookup
    /// of `item_key_id` reports as free.
    pub open spec fn is_free_in(self, record: MetadataView, item_key_id: u64) -> bool {
        &&& record.has_target(target_view(self.collection_index))
        &&& located(
            record.collection_at(target_view(self.collection_index)).item_keys(),
            item_key_id,
        ) == Located::NotFound(self.item_index)
    }
}

/// Checks an append of an item against the record, and finds the place for it.
pub fn admit_item(
    metadata: &Metadata,
    root_key_id: u64,
    collection_key_id: u64,
    item_key_id: u64,
    signer: &Identity,
) -> (r: Result<ItemPlacement, MetadataError>)
    requires
        metadata@.wf(),
    ensures
        match r {
            Ok(placement) => {
                &&& append_item_rejection(
                    metadata@,
                    root_key_id,
                    collection_key_id,
                    item_key_id,
                    *signer,
                ) is None
                &&& target_view(placement.collection_index) == metadata@.target_of(
                    root_key_id,
                    collection_key_id,
                )
                &&& placement.item_index == item_index(
                    metadata@,
                    root_key_id,
                    collection_key_id,
                    item_key_id,
                )
                &&& placement.is_free_in(metadata@, item_key_id)
            },
            Err(e) => append_item_rejection(
                metadata@,
                root_key_id,
                collection_key_id,
                item_key_id,
                *signer,
            ) == Some(e),
        },
{
    let target = match admit_target(metadata, root_key_id, collection_key_id, signer) {
        Ok(target) => target,
        Err(e) => {
            return Err(e);
        },
    };
    let collection = metadata.collection_ref(target);
    proof {
        metadata@.lemma_with_collection_at_wf(target_view(target), collection@);
        lemma_rank_bounds(collection@.item_keys(), item_key_id);
        collection.lemma_view_items();
    }
    match collection.find_item(item_key_id) {
        Located::Found(_) => Err(MetadataError::ItemAlreadyExists),
        Located::NotFound(item_index) => Ok(ItemPlacement { collection_index: target, item_index }),
    }
}

/// Writes an item at the place that [`admit_item`] found for it, stamped with `now`. The
/// collection that takes the item carries `now` too and loses its certification; no
/// other collection changes.
pub fn place_item(
    metadata: &mut Metadata,
    placement: ItemPlacement,
    item_key_id: u64,
    value: Vec<u8>,
    now: u64,
) -> (stored: ItemRef)
    requires
        old(metadata)@.wf(),
        placement.is_free_in(old(metadata)@, item_key_id),
    ensures
        final(metadata)@ == with_item_at(
            old(metadata)@,
            target_view(placement.collection_index),
            item_key_id,
            value@,
            now,
        ),
        final(metadata)@.wf(),
        stored == (ItemRef { index: placement.item_index, update_slot: now }),
        final(metadata)@.collection_at(target_view(placement.collection_index)).items[placement.item_index as int]
            == (ItemView { metadata_key_id: item_key_id, value: value@, update_slot: now }),
{
    let ghost before = *metadata;
    let ghost target = target_view(placement.collection_index);
    let ghost changed = before@.collection_at(target).with_item(item_key_id, value@, now);
    proof {
        before.collection.lemma_view_collections();
        before@.lemma_with_collection_at_wf(target, before@.collection_at(target));
    }
    match placement.collection_index {
        None => {
            metadata.collection.insert_item(placement.item_index, item_key_id, value, now);
        },
        Some(at) => {
            let child = &mut metadata.collection.collections[at];
            child.insert_item(placement.item_index, item_key_id, value, now);
            proof {
                metadata.collection.lemma_view_collections();
                assert(metadata@.collection.collections =~= before@.collection.collections.update(
                    at as int,
                    changed,
                ));
                assert(metadata@.collection.items == before@.collection.items);
            }
        },
    }
    proof {
        before@.lemma_with_collection_at_wf(target, changed);
    }
    ItemRef { index: placement.item_index, update_slot: now }
}

/// Stores an item with `value` under `item_key_id` in the collection that
/// `collection_key_id` names: the root collection where it is `root_key_id`, else the
/// child of the root stored under it. `signer` must be the authority in force at that
/// collection. A refused append leaves the record as it was.
pub fn append_item(
    metadata: &mut Metadata,
    root_key_id: u64,
    collection_key_id: u64,
    item_key_id: u64,
    value: Vec<u8>,
    signer: &Identity,
    now: u64,
) -> (r: Result<ItemRef, MetadataError>)
    requires
        old(metadata)@.wf(),
    ensures
        final(metadata)@.wf(),
        match r {
            Ok(stored) => {
                &&& append_item_rejection(
                    old(metadata)@,
                    root_key_id,
                    collection_key_id,
                    item_key_id,
                    *signer,
                ) is None
                &&& final(metadata)@ == item_appended(
                    old(metadata)@,
                    root_key_id,
                    collection_key_id,
                    item_key_id,
                    value@,
                    now,
                )
                &&& stored.index == item_index(
                    old(metadata)@,
                    root_key_id,
                    collection_key_id,
                    item_key_id,
                )
                &&& stored.update_slot == now
            },
            Err(e) => {
                &&& append_item_rejection(
                    old(metadata)@,
                    root_key_id,
                    collection_key_id,
                    item_key_id,
                    *signer,
                ) == Some(e)
                &&& *final(metadata) == *old(metadata)
            },
        },
        final(metadata)@ == applied(
            old(metadata)@,
            Operation::AppendItem {
                root_key_id,
                collection_key_id,
                item_key_id,
                value: value@,
                signer: *signer,
                now,
            },
        ),
{
    match admit_item(metadata, root_key_id, collection_key_id, item_key_id, signer) {
        Err(e) => Err(e),
        Ok(placement) => Ok(place_item(metadata, placement, item_key_id, value, now)),
    }
}

/// What an append of an item is given: the signer, the record, and the definitions of
/// the three keys involved.
#[derive(Debug, PartialEq, Eq)]
pub struct AppendMetadataItem {
    /// The signer of the request.
    pub update_authority: Identity,
    /// The record to change.
    pub metadata: Metadata,
    /// The key that the caller holds to be the key of the record's root collection.
    pub root_collection_metadata_key: MetadataKey,
    /// The key of the collection that takes the item; the root key for the root itself.
    pub collection_metadata_key: MetadataKey,
    /// The key of the item.
    pub item_metadata_key: MetadataKey,
}

/// The arguments of an append of an item.
#[derive(Clone, Debug, PartialEq, Eq)]
pub struct AppendMetadataItemArgs {
    /// The serialized value of the item.
    pub value: Vec<u8>,
}

/// Finishes an admitted append with what the clock answered: with a slot the item is
/// written and stamped with it; with an error nothing is written and the error is
/// handed on.
pub fn place_item_in_slot(
    metadata: &mut Metadata,
    placement: ItemPlacement,
    item_key_id: u64,
    value: Vec<u8>,
    slot: Result<u64, ProgramError>,
) -> (r: Result<ItemRef, HandlerError>)
    requires
        old(metadata)@.wf(),
        placement.is_free_in(old(metadata)@, item_key_id),
    ensures
        final(metadata)@.wf(),
        match slot {
            Ok(now) => {
                &&& r == Ok::<ItemRef, HandlerError>(
                    ItemRef { index: placement.item_index, update_slot: now },
                )
                &&& final(metadata)@ == with_item_at(
                    old(metadata)@,
                    target_view(placement.collection_index),
                    item_key_id,
                    value@,
                    now,
                )
            },
            Err(e) => {
                &&& r == Err::<ItemRef, HandlerError>(HandlerError::Clock(e))
                &&& *final(metadata) == *old(metadata)
            },
        },
{
    match slot {
        Ok(now) => Ok(place_item(metadata, placement, item_key_id, value, now)),
        Err(e) => Err(HandlerError::Clock(e)),
    }
}

/// Appends the item that `ctx` and `args` describe, stamped with the slot of the
/// runtime's clock. The request is checked first; the clock is asked only for a
/// request that is admitted, so a refusal is reported whatever the clock would say.
pub fn handler(ctx: &mut AppendMetadataItem, args: AppendMetadataItemArgs) -> (r: Result<
    (),
    HandlerError,
>)
    requires
        old(ctx).metadata@.wf(),
    ensures
        final(ctx).metadata@.wf(),
        final(ctx).update_authority == old(ctx).update_authority,
        final(ctx).root_collection_metadata_key == old(ctx).root_collection_metadata_key,
        final(ctx).collection_metadata_key == old(ctx).collection_metadata_key,
        final(ctx).item_metadata_key == old(ctx).item_metadata_key,
        match r {
            Ok(()) => {
                &&& append_item_rejection(
                    old(ctx).metadata@,
                    old(ctx).root_collection_metadata_key.id,
                    old(ctx).collection_metadata_key.id,
                    old(ctx).item_metadata_key.id,
                    old(ctx).update_authority,
                ) is None
                &&& exists|now: u64|
                    final(ctx).metadata@ == item_appended(
                        old(ctx).metadata@,
                        old(ctx).root_collection_metadata_key.id,
                        old(ctx).collection_metadata_key.id,
                        old(ctx).item_metadata_key.id,
                        args.value@,
                        now,
                    )
            },
            Err(HandlerError::Rejected(e)) => {
                &&& append_item_rejection(
                    old(ctx).metadata@,
                    old(ctx).root_collection_metadata_key.id,
                    old(ctx).collection_metadata_key.id,
                    old(ctx).item_metadata_key.id,
                    old(ctx).update_authority,
                ) == Some(e)
                &&& final(ctx).metadata == old(ctx).metadata
            },
            Err(HandlerError::Clock(_)) => {
                &&& append_item_rejection(
                    old(ctx).metadata@,
                    old(ctx).root_collection_metadata_key.id,
                    old(ctx).collection_metadata_key.id,
                    old(ctx).item_metadata_key.id,
                    old(ctx).update_authority,
                ) is None
                &&& final(ctx).metadata == old(ctx).metadata
            },
        },
{
    let root_key_id = ctx.root_collection_metadata_key.id;
    let collection_key_id = ctx.collection_metadata_key.id;
    let item_key_id = ctx.item_metadata_key.id;
    let signer = ctx.update_authority;
    let ghost before = ctx.metadata@;
    match admit_item(&ctx.metadata, root_key_id, collection_key_id, item_key_id, &signer) {
        Err(e) => Err(HandlerError::Rejected(e)),
        Ok(placement) => {
            let slot = current_slot();
            let ghost value = args.value@;
            match place_item_in_slot(&mut ctx.metadata, placement, item_key_id, args.value, slot) {
                Ok(stored) => {
                    assert(ctx.metadata@ == item_appended(
                        before,
                        root_key_id,
                        collection_key_id,
                        item_key_id,
                        value,
                        stored.update_slot,
                    ));
                    Ok(())
                },
                Err(e) => Err(e),
            }
        },
    }
}

} // verus!
