//! What holds of every record however it is appended to: the order of items and
//! collections, the refusal of duplicates, the inheritance of authority, and the
//! withdrawal of certification.

use crate::authority::{authority_at, lemma_child_authority};
use crate::errors::MetadataError;
use crate::identity::Identity;
use crate::instructions::append::collection::{
    append_collection_rejection, collection_appended, collection_index,
};
use crate::instructions::append::item::{append_item_rejection, item_appended};
use crate::instructions::append::target_rejection;
use crate::sorted_index::{lemma_rank_bounds, lemma_rank_of_member};
use crate::state::{CollectionView, ItemView, MetadataView};
use vstd::prelude::*;

verus! {

/// A request to change a record.
pub enum Operation {
    /// Create an empty collection under a parent.
    AppendCollection {
        root_key_id: u64,
        parent_key_id: u64,
        collection_key_id: u64,
        update_authority: Option<Identity>,
        signer: Identity,
        now: u64,
    },
    /// Store an item in a collection.
    AppendItem {
        root_key_id: u64,
        collection_key_id: u64,
        item_key_id: u64,
        value: Seq<u8>,
        signer: Identity,
        now: u64,
    },
}

/// Why `operation` is refused on `record`, or `None` where it is admitted.
pub open spec fn rejection(record: MetadataView, operation: Operation) -> Option<MetadataError> {
    match operation {
        Operation::AppendCollection {
            root_key_id,
            parent_key_id,
            collection_key_id,
            update_authority,
            signer,
            now,
        } => append_collection_rejection(
            record,
            root_key_id,
            parent_key_id,
            collection_key_id,
            signer,
        ),
        Operation::AppendItem { root_key_id, collection_key_id, item_key_id, value, signer, now } =>
            append_item_rejection(record, root_key_id, collection_key_id, item_key_id, signer),
    }
}

/// The record after `operation`: changed as the operation says where it is admitted,
/// and as it was where it is refused.
pub open spec fn applied(record: MetadataView, operation: Operation) -> MetadataView {
    if rejection(record, operation) is Some {
        record
    } else {
        match operation {
            Operation::AppendCollection {
                root_key_id,
                parent_key_id,
                collection_key_id,
                update_authority,
                signer,
                now,
            } => collection_appended(
                record,
                root_key_id,
                parent_key_id,
                collection_key_id,
                update_authority,
                now,
            ),
            Operation::AppendItem {
                root_key_id,
                collection_key_id,
                item_key_id,
                value,
                signer,
                now,
            } => item_appended(record, root_key_id, collection_key_id, item_key_id, value, now),
        }
    }
}

/// The record after the operations of `operations`, taken in order.
pub open spec fn applied_all(record: MetadataView, operations: Seq<Operation>) -> MetadataView
    decreases operations.len(),
{
    if operations.len() == 0 {
        record
    } else {
        applied(applied_all(record, operations.drop_last()), operations.last())
    }
}

/// A key that names a reachable collection names one of the record, and that
/// collection is well formed.
pub proof fn lemma_target_in_record(record: MetadataView, root_key_id: u64, collection_key_id: u64)
    requires
        record.wf(),
        record.reaches(root_key_id, collection_key_id),
    ensures
        record.has_target(record.target_of(root_key_id, collection_key_id)),
        record.collection_at(record.target_of(root_key_id, collection_key_id)).wf(),
        collection_key_id != root_key_id ==> record.collection_at(
            record.target_of(root_key_id, collection_key_id),
        ).metadata_key_id == collection_key_id,
{
    if collection_key_id != root_key_id {
        let keys = record.collection.collection_keys();
        let i = choose|i: int| 0 <= i < keys.len() && keys[i] == collection_key_id;
        lemma_rank_of_member(keys, i);
        assert(record.collection.collections[i].wf());
    }
}

/// One operation keeps a well-formed record well formed: whether it is admitted or
/// refused, items and children stay strictly ascending by key id in every collection.
pub proof fn lemma_applied_wf(record: MetadataView, operation: Operation)
    requires
        record.wf(),
    ensures
        applied(record, operation).wf(),
{
    if rejection(record, operation) is None {
        match operation {
            Operation::AppendCollection {
                root_key_id,
                parent_key_id,
                collection_key_id,
                update_authority,
                signer,
                now,
            } => {
                lemma_target_in_record(record, root_key_id, parent_key_id);
                let parent = record.target_of(root_key_id, parent_key_id);
                let changed = record.collection_at(parent).with_collection(
                    collection_key_id,
                    update_authority,
                    now,
                );
                record.collection_at(parent).lemma_with_collection_wf(
                    collection_key_id,
                    update_authority,
                    now,
                );
                record.lemma_with_collection_at_wf(parent, changed);
            },
            Operation::AppendItem {
                root_key_id,
                collection_key_id,
                item_key_id,
                value,
                signer,
                now,
            } => {
                lemma_target_in_record(record, root_key_id, collection_key_id);
                let target = record.target_of(root_key_id, collection_key_id);
                let changed = record.collection_at(target).with_item(item_key_id, value, now);
                record.collection_at(target).lemma_with_item_wf(item_key_id, value, now);
                record.lemma_with_collection_at_wf(target, changed);
            },
        }
    }
}

/// Any sequence of operations keeps a well-formed record well formed: after each of
/// them, items and children are strictly ascending by key id in every collection.
pub proof fn lemma_applied_all_wf(record: MetadataView, operations: Seq<Operation>)
    requires
        record.wf(),
    ensures
        applied_all(record, operations).wf(),
    decreases operations.len(),
{
    if operations.len() > 0 {
        lemma_applied_all_wf(record, operations.drop_last());
        lemma_applied_wf(applied_all(record, operations.drop_last()), operations.last());
    }
}

/// A key that is already stored is never stored again. An append of an item under a
/// key that the target collection holds is refused and leaves the record as it was;
/// where the request is otherwise in order (the root key is the record's, the target
/// exists, the signer is its authority) the refusal is `ItemAlreadyExists`.
pub proof fn lemma_duplicate_item_refused(
    record: MetadataView,
    root_key_id: u64,
    collection_key_id: u64,
    item_key_id: u64,
    value: Seq<u8>,
    signer: Identity,
    now: u64,
)
    requires
        record.collection_at(record.target_of(root_key_id, collection_key_id)).has_item(
            item_key_id,
        ),
    ensures
        append_item_rejection(record, root_key_id, collection_key_id, item_key_id, signer) is Some,
        target_rejection(record, root_key_id, collection_key_id, signer) is None
            ==> append_item_rejection(record, root_key_id, collection_key_id, item_key_id, signer)
            == Some(MetadataError::ItemAlreadyExists),
        applied(
            record,
            Operation::AppendItem {
                root_key_id,
                collection_key_id,
                item_key_id,
                value,
                signer,
                now,
            },
        ) == record,
{
}

/// An append of a collection under a key that the parent holds is refused and leaves
/// the record as it was; where the request is otherwise in order the refusal is
/// `CollectionAlreadyExists`.
pub proof fn lemma_duplicate_collection_refused(
    record: MetadataView,
    root_key_id: u64,
    parent_key_id: u64,
    collection_key_id: u64,
    update_authority: Option<Identity>,
    signer: Identity,
    now: u64,
)
    requires
        record.collection_at(record.target_of(root_key_id, parent_key_id)).has_collection(
            collection_key_id,
        ),
    ensures
        append_collection_rejection(
            record,
            root_key_id,
            parent_key_id,
            collection_key_id,
            signer,
        ) is Some,
        target_rejection(record, root_key_id, parent_key_id, signer) is None
            ==> append_collection_rejection(
            record,
            root_key_id,
            parent_key_id,
            collection_key_id,
            signer,
        ) == Some(MetadataError::CollectionAlreadyExists),
        applied(
            record,
            Operation::AppendCollection {
                root_key_id,
                parent_key_id,
                collection_key_id,
                update_authority,
                signer,
                now,
            },
        ) == record,
{
}

/// Authority is inherited downward and overridden by the nearest collection that
/// names one. For an append of an item to a child of the root:
/// a child that names an authority admits that authority and no other signer, whoever
/// the authority of the root or of the record is; a child that names none admits the
/// authority in force at the root and no other signer. At the root that is the
/// authority the root names, else the authority of the record.
pub proof fn lemma_authority_inheritance(
    record: MetadataView,
    collection_key_id: u64,
    item_key_id: u64,
    signer: Identity,
)
    requires
        record.wf(),
        collection_key_id != record.metadata_key_id,
        record.collection.has_collection(collection_key_id),
    ensures
        ({
            let child = record.collection.child(collection_key_id);
            let refusal = append_item_rejection(
                record,
                record.metadata_key_id,
                collection_key_id,
                item_key_id,
                signer,
            );
            let in_force = if child.update_authority is Some {
                child.update_authority
            } else if record.collection.update_authority is Some {
                record.collection.update_authority
            } else {
                record.update_authority
            };
            &&& refusal == Some(MetadataError::Unauthorized) <==> in_force != Some(signer)
            &&& refusal is None ==> in_force == Some(signer)
            &&& in_force == Some(signer) && !child.has_item(item_key_id) ==> refusal is None
        }),
{
    let at = record.collection.collection_position(collection_key_id);
    lemma_child_authority(record, at);
}

/// Storing an item withdraws the certification of the collection that takes it: after
/// an admitted append the collection is not certified and has no expiry, whatever it
/// had before.
pub proof fn lemma_item_append_withdraws_certification(
    record: MetadataView,
    root_key_id: u64,
    collection_key_id: u64,
    item_key_id: u64,
    value: Seq<u8>,
    signer: Identity,
    now: u64,
)
    requires
        record.wf(),
        append_item_rejection(record, root_key_id, collection_key_id, item_key_id, signer) is None,
    ensures
        ({
            let target = record.target_of(root_key_id, collection_key_id);
            let after = item_appended(
                record,
                root_key_id,
                collection_key_id,
                item_key_id,
                value,
                now,
            );
            &&& !after.collection_at(target).certified
            &&& after.collection_at(target).certification_expiry is None
            &&& after.collection_at(target).update_slot == now
            &&& after.collection_at(target).has_item(item_key_id)
            &&& after == applied(
                record,
                Operation::AppendItem {
                    root_key_id,
                    collection_key_id,
                    item_key_id,
                    value,
                    signer,
                    now,
                },
            )
        }),
{
    lemma_target_in_record(record, root_key_id, collection_key_id);
    let target = record.target_of(root_key_id, collection_key_id);
    let before = record.collection_at(target);
    let changed = before.with_item(item_key_id, value, now);
    before.lemma_with_item_wf(item_key_id, value, now);
    record.lemma_with_collection_at_wf(target, changed);
    lemma_rank_bounds(before.item_keys(), item_key_id);
    let at = before.item_position(item_key_id);
    assert(changed.item_keys()[at] == item_key_id);
}

/// A second append of the same collection key is refused and changes nothing. After an
/// admitted append of a collection, the parent holds the new collection, empty and as
/// it was created, at exactly one place; an append of the same key under the same
/// parent by the same signer is then refused with `CollectionAlreadyExists`, whatever
/// authority and slot it brings, and leaves the record as the first append left it.
pub proof fn lemma_collection_append_once(
    record: MetadataView,
    root_key_id: u64,
    parent_key_id: u64,
    collection_key_id: u64,
    first_authority: Option<Identity>,
    first_now: u64,
    second_authority: Option<Identity>,
    second_now: u64,
    signer: Identity,
)
    requires
        record.wf(),
        append_collection_rejection(
            record,
            root_key_id,
            parent_key_id,
            collection_key_id,
            signer,
        ) is None,
    ensures
        ({
            let parent = record.target_of(root_key_id, parent_key_id);
            let first = Operation::AppendCollection {
                root_key_id,
                parent_key_id,
                collection_key_id,
                update_authority: first_authority,
                signer,
                now: first_now,
            };
            let second = Operation::AppendCollection {
                root_key_id,
                parent_key_id,
                collection_key_id,
                update_authority: second_authority,
                signer,
                now: second_now,
            };
            let after = applied(record, first);
            let keys = after.collection_at(parent).collection_keys();
            &&& after.target_of(root_key_id, parent_key_id) == parent
            &&& keys.len() == record.collection_at(parent).collection_keys().len() + 1
            &&& forall|i: int|
                0 <= i < keys.len() ==> (keys[i] == collection_key_id <==> i == collection_index(
                    record,
                    root_key_id,
                    parent_key_id,
                    collection_key_id,
                ))
            &&& after.collection_at(parent).child(collection_key_id) == CollectionView::empty(
                collection_key_id,
                first_authority,
                first_now,
            )
            &&& rejection(after, second) == Some(MetadataError::CollectionAlreadyExists)
            &&& applied(after, second) == after
        }),
{
    lemma_target_in_record(record, root_key_id, parent_key_id);
    let parent = record.target_of(root_key_id, parent_key_id);
    let before = record.collection_at(parent);
    let changed = before.with_collection(collection_key_id, first_authority, first_now);
    let after = collection_appended(
        record,
        root_key_id,
        parent_key_id,
        collection_key_id,
        first_authority,
        first_now,
    );
    before.lemma_with_collection_wf(collection_key_id, first_authority, first_now);
    record.lemma_with_collection_at_wf(parent, changed);
    lemma_rank_bounds(before.collection_keys(), collection_key_id);
    let at = before.collection_position(collection_key_id);
    let keys = changed.collection_keys();
    assert(keys[at] == collection_key_id);
    lemma_rank_of_member(keys, at);
    assert forall|i: int| 0 <= i < keys.len() implies (keys[i] == collection_key_id <==> i
        == at) by {
        if i < at {
            assert(keys[i] < keys[at]);
        } else if i > at {
            assert(keys[at] < keys[i]);
        }
    }
    match parent {
        None => {},
        Some(p) => {
            assert(after.collection.collection_keys() == record.collection.collection_keys());
            lemma_child_authority(record, p);
            lemma_child_authority(after, p);
        },
    }
    assert(authority_at(after, parent) == authority_at(record, parent)) by {
        match parent {
            None => {},
            Some(p) => {},
        }
    }
}

impl ItemView {
    /// The item was written no later than `bound`.
    pub open spec fn written_by(self, bound: u64) -> bool {
        self.update_slot <= bound
    }
}

impl CollectionView {
    /// No slot recorded on the collection, on its items or anywhere below it is later
    /// than `bound`.
    pub open spec fn written_by(self, bound: u64) -> bool
        decreases self,
    {
        &&& self.update_slot <= bound
        &&& forall|i: int| 0 <= i < self.items.len() ==> (#[trigger] self.items[i]).written_by(bound)
        &&& forall|i: int|
            0 <= i < self.collections.len() ==> (#[trigger] self.collections[i]).written_by(bound)
    }
}

/// With a clock that does not run backwards, the slot that an operation records is the
/// latest in the record: where no slot of the record is later than `now`, none is
/// after an operation stamped with `now`.
pub proof fn lemma_slots_do_not_exceed_clock(record: MetadataView, operation: Operation, now: u64)
    requires
        record.wf(),
        record.collection.written_by(now),
        operation matches Operation::AppendItem { now: stamp, .. } ==> stamp == now,
        operation matches Operation::AppendCollection { now: stamp, .. } ==> stamp == now,
    ensures
        applied(record, operation).collection.written_by(now),
{
    if rejection(record, operation) is None {
        match operation {
            Operation::AppendCollection {
                root_key_id,
                parent_key_id,
                collection_key_id,
                update_authority,
                signer,
                now: stamp,
            } => {
                lemma_target_in_record(record, root_key_id, parent_key_id);
                let parent = record.target_of(root_key_id, parent_key_id);
                let before = record.collection_at(parent);
                let changed = before.with_collection(collection_key_id, update_authority, now);
                let at = before.collection_position(collection_key_id);
                lemma_rank_bounds(before.collection_keys(), collection_key_id);
                assert(before.written_by(now)) by {
                    if let Some(p) = parent {
                        assert(record.collection.collections[p].written_by(now));
                    }
                }
                let fresh = CollectionView::empty(collection_key_id, update_authority, now);
                assert(fresh.written_by(now));
                assert(changed.written_by(now)) by {
                    assert forall|i: int| 0 <= i < changed.collections.len() implies (
                    #[trigger] changed.collections[i]).written_by(now) by {
                        if i < at {
                            assert(before.collections[i].written_by(now));
                        } else if i > at {
                            assert(before.collections[i - 1].written_by(now));
                        }
                    }
                    assert forall|i: int| 0 <= i < changed.items.len() implies (
                    #[trigger] changed.items[i]).written_by(now) by {
                        assert(before.items[i].written_by(now));
                    }
                }
                lemma_written_by_with_collection_at(record, parent, changed, now);
            },
            Operation::AppendItem {
                root_key_id,
                collection_key_id,
                item_key_id,
                value,
                signer,
                now: stamp,
            } => {
                lemma_target_in_record(record, root_key_id, collection_key_id);
                let target = record.target_of(root_key_id, collection_key_id);
                let before = record.collection_at(target);
                let changed = before.with_item(item_key_id, value, now);
                let at = before.item_position(item_key_id);
                lemma_rank_bounds(before.item_keys(), item_key_id);
                assert(before.written_by(now)) by {
                    if let Some(p) = target {
                        assert(record.collection.collections[p].written_by(now));
                    }
                }
                assert(changed.written_by(now)) by {
                    assert forall|i: int| 0 <= i < changed.items.len() implies (
                    #[trigger] changed.items[i]).written_by(now) by {
                        if i < at {
                            assert(before.items[i].written_by(now));
                        } else if i > at {
                            assert(before.items[i - 1].written_by(now));
                        }
                    }
                    assert forall|i: int| 0 <= i < changed.collections.len() implies (
                    #[trigger] changed.collections[i]).written_by(now) by {
                        assert(before.collections[i].written_by(now));
                    }
                }
                lemma_written_by_with_collection_at(record, target, changed, now);
            },
        }
    }
}

/// Replacing a collection by one whose slots are within `bound` keeps the slots of the
/// record within `bound`.
proof fn lemma_written_by_with_collection_at(
    record: MetadataView,
    target: Option<int>,
    collection: CollectionView,
    bound: u64,
)
    requires
        record.has_target(target),
        record.collection.written_by(bound),
        collection.written_by(bound),
    ensures
        record.with_collection_at(target, collection).collection.written_by(bound),
{
    match target {
        None => {},
        Some(at) => {
            let after = record.collection.with_child(at, collection);
            assert forall|i: int| 0 <= i < after.collections.len() implies (
            #[trigger] after.collections[i]).written_by(bound) by {
                if i != at {
                    assert(record.collection.collections[i].written_by(bound));
                }
            }
            assert forall|i: int| 0 <= i < after.items.len() implies (
            #[trigger] after.items[i]).written_by(bound) by {
                assert(record.collection.items[i].written_by(bound));
            }
        },
    }
}

} // verus!
