//! The metadata record of one subject: a root collection that owns items and child
//! collections, each child owning items and children of its own.

use crate::errors::MetadataError;
use crate::identity::Identity;
use crate::sorted_index::{
    insert, is_strictly_sorted, keys_of, lemma_insert_keeps_sorted, lemma_rank_bounds, locate,
    located, rank, strictly_sorted, Keyed, Located,
};
use vstd::prelude::*;

verus! {

/// The definition of a metadata key. Definitions are registered once and never change;
/// items and collections refer to one by its `id`.
#[derive(Clone, Debug, PartialEq, Eq)]
pub struct MetadataKey {
    /// Unique identifier of the key.
    pub id: u64,
    /// Authority of the namespace the key is registered in.
    pub namespace_authority: Identity,
    /// Name of the key, unique within its namespace.
    pub name: String,
    /// What the key is for.
    pub description: String,
    /// How the value of an item with this key is to be read.
    pub content_type: String,
    /// The authority that can certify collections of this key, if there is one.
    pub certification_authority: Option<Identity>,
}

/// A leaf entry: an opaque value stored under a key.
#[derive(Debug, PartialEq, Eq)]
pub struct MetadataItem {
    /// The id of the key the item is stored under.
    pub metadata_key_id: u64,
    /// The serialized value.
    pub value: Vec<u8>,
    /// The slot in which the item was written.
    pub update_slot: u64,
}

/// The mathematical value of a [`MetadataItem`].
pub struct ItemView {
    pub metadata_key_id: u64,
    pub value: Seq<u8>,
    pub update_slot: u64,
}

impl View for MetadataItem {
    type V = ItemView;

    open spec fn view(&self) -> ItemView {
        ItemView {
            metadata_key_id: self.metadata_key_id,
            value: self.value@,
            update_slot: self.update_slot,
        }
    }
}

impl Clone for MetadataItem {
    fn clone(&self) -> (copy: MetadataItem)
        ensures
            copy@ == self@,
    {
        let value = self.value.clone();
        assert(value@ =~= self.value@);
        MetadataItem {
            metadata_key_id: self.metadata_key_id,
            value,
            update_slot: self.update_slot,
        }
    }
}

impl Keyed for MetadataItem {
    open spec fn key_of(&self) -> u64 {
        self.metadata_key_id
    }

    fn key(&self) -> (k: u64) {
        self.metadata_key_id
    }
}

/// A node of the tree: a group of items and child collections under one key, with an
/// optional authority of its own and a certification mark.
#[derive(Debug, PartialEq, Eq)]
pub struct MetadataCollection {
    /// The id of the key that describes the collection.
    pub metadata_key_id: u64,
    /// The authority that may change the collection. `None` inherits the authority of
    /// the nearest ancestor that names one, and in the end that of the record.
    pub update_authority: Option<Identity>,
    /// The items of the collection, strictly ascending by key id.
    pub items: Vec<MetadataItem>,
    /// The child collections, strictly ascending by key id.
    pub collections: Vec<MetadataCollection>,
    /// Whether the items are certified. Any change to the items withdraws it.
    pub certified: bool,
    /// When the certification expires; `None` with `certified` means it does not.
    pub certification_expiry: Option<i64>,
    /// The slot in which the collection was last changed.
    pub update_slot: u64,
}

/// The mathematical value of a [`MetadataCollection`].
pub struct CollectionView {
    pub metadata_key_id: u64,
    pub update_authority: Option<Identity>,
    pub items: Seq<ItemView>,
    pub collections: Seq<CollectionView>,
    pub certified: bool,
    pub certification_expiry: Option<i64>,
    pub update_slot: u64,
}

/// The mathematical values of `collections`, in the same order.
pub open spec fn collection_views(collections: Vec<MetadataCollection>) -> Seq<CollectionView>
    decreases collections, 1nat,
{
    Seq::new(collections@.len(), |i: int| collection_view_at(collections, i))
}

/// The mathematical value of the collection at position `i` of `collections`.
pub open spec fn collection_view_at(collections: Vec<MetadataCollection>, i: int) -> CollectionView
    decreases collections, 0nat,
{
    if 0 <= i < collections@.len() {
        collections@[i].to_view()
    } else {
        arbitrary()
    }
}

impl MetadataCollection {
    /// The mathematical value of the collection and of everything below it.
    pub open spec fn to_view(self) -> CollectionView
        decreases self, 2nat,
    {
        CollectionView {
            metadata_key_id: self.metadata_key_id,
            update_authority: self.update_authority,
            items: self.items@.map_values(|item: MetadataItem| item@),
            collections: collection_views(self.collections),
            certified: self.certified,
            certification_expiry: self.certification_expiry,
            update_slot: self.update_slot,
        }
    }
}

impl View for MetadataCollection {
    type V = CollectionView;

    open spec fn view(&self) -> CollectionView {
        self.to_view()
    }
}

impl Clone for MetadataCollection {
    fn clone(&self) -> (copy: MetadataCollection)
        ensures
            copy@ == self@,
        decreases self,
    {
        let mut items: Vec<MetadataItem> = Vec::new();
        let mut i: usize = 0;
        while i < self.items.len()
            invariant
                i <= self.items.len(),
                items.len() == i,
                forall|j: int| 0 <= j < i ==> items@[j]@ == self.items@[j]@,
            decreases self.items.len() - i,
        {
            items.push(self.items[i].clone());
            i += 1;
        }
        let mut collections: Vec<MetadataCollection> = Vec::new();
        let mut k: usize = 0;
        while k < self.collections.len()
            invariant
                k <= self.collections.len(),
                collections.len() == k,
                forall|j: int| 0 <= j < k ==> collections@[j]@ == self.collections@[j]@,
            decreases self.collections.len() - k,
        {
            collections.push(self.collections[k].clone());
            k += 1;
        }
        let copy = MetadataCollection {
            metadata_key_id: self.metadata_key_id,
            update_authority: self.update_authority,
            items,
            collections,
            certified: self.certified,
            certification_expiry: self.certification_expiry,
            update_slot: self.update_slot,
        };
        proof {
            copy.lemma_view_items();
            copy.lemma_view_collections();
            self.lemma_view_items();
            self.lemma_view_collections();
            assert(copy@.items =~= self@.items);
            assert(copy@.collections =~= self@.collections);
        }
        copy
    }
}

impl Keyed for MetadataCollection {
    open spec fn key_of(&self) -> u64 {
        self.metadata_key_id
    }

    fn key(&self) -> (k: u64) {
        self.metadata_key_id
    }
}

impl CollectionView {
    /// The key ids of the items, in order.
    pub open spec fn item_keys(self) -> Seq<u64> {
        self.items.map_values(|item: ItemView| item.metadata_key_id)
    }

    /// The key ids of the child collections, in order.
    pub open spec fn collection_keys(self) -> Seq<u64> {
        self.collections.map_values(|c: CollectionView| c.metadata_key_id)
    }

    /// Items and children are strictly ascending by key id, here and in every
    /// collection below.
    pub open spec fn wf(self) -> bool
        decreases self,
    {
        &&& strictly_sorted(self.item_keys())
        &&& strictly_sorted(self.collection_keys())
        &&& forall|i: int| 0 <= i < self.collections.len() ==> (#[trigger] self.collections[i]).wf()
    }

    /// A collection without items or children, not certified.
    pub open spec fn empty(
        metadata_key_id: u64,
        update_authority: Option<Identity>,
        update_slot: u64,
    ) -> CollectionView {
        CollectionView {
            metadata_key_id,
            update_authority,
            items: Seq::empty(),
            collections: Seq::empty(),
            certified: false,
            certification_expiry: None,
            update_slot,
        }
    }

    /// Whether an item is stored under `key_id`.
    pub open spec fn has_item(self, key_id: u64) -> bool {
        self.item_keys().contains(key_id)
    }

    /// Whether a child collection is stored under `key_id`.
    pub open spec fn has_collection(self, key_id: u64) -> bool {
        self.collection_keys().contains(key_id)
    }

    /// Where the item under `key_id` is, or where it goes if there is none.
    pub open spec fn item_position(self, key_id: u64) -> int {
        rank(self.item_keys(), key_id) as int
    }

    /// Where the child under `key_id` is, or where it goes if there is none.
    pub open spec fn collection_position(self, key_id: u64) -> int {
        rank(self.collection_keys(), key_id) as int
    }

    /// The child collection stored under `key_id`.
    pub open spec fn child(self, key_id: u64) -> CollectionView
        recommends
            self.has_collection(key_id),
    {
        self.collections[self.collection_position(key_id)]
    }

    /// The collection after an item with `value` is stored under `key_id` in slot
    /// `update_slot`: the item stands at its place in the order, the collection carries
    /// the slot, and its certification is withdrawn.
    pub open spec fn with_item(self, key_id: u64, value: Seq<u8>, update_slot: u64) -> CollectionView {
        CollectionView {
            items: self.items.insert(
                self.item_position(key_id),
                ItemView { metadata_key_id: key_id, value, update_slot },
            ),
            certified: false,
            certification_expiry: None,
            update_slot,
            ..self
        }
    }

    /// The collection after an empty child is created under `key_id` in slot
    /// `update_slot`. Nothing else of the collection changes: a child is not an item, so
    /// the certification and the slot of the parent stay.
    pub open spec fn with_collection(
        self,
        key_id: u64,
        update_authority: Option<Identity>,
        update_slot: u64,
    ) -> CollectionView {
        CollectionView {
            collections: self.collections.insert(
                self.collection_position(key_id),
                CollectionView::empty(key_id, update_authority, update_slot),
            ),
            ..self
        }
    }

    /// The collection with the child at `index` replaced by `child`.
    pub open spec fn with_child(self, index: int, child: CollectionView) -> CollectionView {
        CollectionView { collections: self.collections.update(index, child), ..self }
    }

    /// Storing an item under a key that is not yet there keeps the collection well
    /// formed.
    pub proof fn lemma_with_item_wf(self, key_id: u64, value: Seq<u8>, update_slot: u64)
        requires
            self.wf(),
            !self.has_item(key_id),
        ensures
            self.with_item(key_id, value, update_slot).wf(),
            self.with_item(key_id, value, update_slot).item_keys() == self.item_keys().insert(
                self.item_position(key_id),
                key_id,
            ),
    {
        let after = self.with_item(key_id, value, update_slot);
        lemma_rank_bounds(self.item_keys(), key_id);
        lemma_insert_keeps_sorted(self.item_keys(), key_id);
        assert(after.item_keys() =~= self.item_keys().insert(self.item_position(key_id), key_id));
        assert(after.collection_keys() == self.collection_keys());
        assert forall|i: int| 0 <= i < after.collections.len() implies (
        #[trigger] after.collections[i]).wf() by {
            assert(self.collections[i].wf());
        }
    }

    /// Creating a child under a key that is not yet there keeps the collection well
    /// formed.
    pub proof fn lemma_with_collection_wf(
        self,
        key_id: u64,
        update_authority: Option<Identity>,
        update_slot: u64,
    )
        requires
            self.wf(),
            !self.has_collection(key_id),
        ensures
            self.with_collection(key_id, update_authority, update_slot).wf(),
            self.with_collection(key_id, update_authority, update_slot).collection_keys()
                == self.collection_keys().insert(self.collection_position(key_id), key_id),
    {
        let after = self.with_collection(key_id, update_authority, update_slot);
        let at = self.collection_position(key_id);
        let fresh = CollectionView::empty(key_id, update_authority, update_slot);
        lemma_rank_bounds(self.collection_keys(), key_id);
        lemma_insert_keeps_sorted(self.collection_keys(), key_id);
        assert(after.collection_keys() =~= self.collection_keys().insert(at, key_id));
        assert(after.item_keys() == self.item_keys());
        assert(fresh.wf()) by {
            assert(fresh.item_keys() =~= Seq::<u64>::empty());
            assert(fresh.collection_keys() =~= Seq::<u64>::empty());
        }
        assert forall|i: int| 0 <= i < after.collections.len() implies (
        #[trigger] after.collections[i]).wf() by {
            if i < at {
                assert(after.collections[i] == self.collections[i]);
                assert(self.collections[i].wf());
            } else if i == at {
                assert(after.collections[i] == fresh);
            } else {
                assert(after.collections[i] == self.collections[i - 1]);
                assert(self.collections[i - 1].wf());
            }
        }
    }

    /// Replacing a child by a well-formed collection under the same key keeps the
    /// collection well formed.
    pub proof fn lemma_with_child_wf(self, index: int, child: CollectionView)
        requires
            self.wf(),
            0 <= index < self.collections.len(),
            child.wf(),
            child.metadata_key_id == self.collections[index].metadata_key_id,
        ensures
            self.with_child(index, child).wf(),
            self.with_child(index, child).collection_keys() == self.collection_keys(),
    {
        let after = self.with_child(index, child);
        assert(after.collection_keys() =~= self.collection_keys());
        assert(after.item_keys() == self.item_keys());
        assert forall|i: int| 0 <= i < after.collections.len() implies (
        #[trigger] after.collections[i]).wf() by {
            if i != index {
                assert(after.collections[i] == self.collections[i]);
                assert(self.collections[i].wf());
            }
        }
    }
}

impl MetadataItem {
    /// An item under `metadata_key_id`, written in `update_slot`.
    pub fn new(metadata_key_id: u64, value: Vec<u8>, update_slot: u64) -> (item: MetadataItem)
        ensures
            item@ == (ItemView { metadata_key_id, value: value@, update_slot }),
    {
        MetadataItem { metadata_key_id, value, update_slot }
    }
}

impl MetadataCollection {
    /// The view of the items is the view of each item, in the same order.
    pub proof fn lemma_view_items(self)
        ensures
            self@.items.len() == self.items@.len() <= usize::MAX,
            forall|i: int| 0 <= i < self.items@.len() ==> self@.items[i] == self.items@[i]@,
            self@.item_keys() == keys_of(self.items@),
    {
        assert(self.items.len() <= usize::MAX);
        assert(self@.item_keys() =~= keys_of(self.items@));
    }

    /// The view of the children is the view of each child, in the same order.
    pub proof fn lemma_view_collections(self)
        ensures
            self@.collections.len() == self.collections@.len() <= usize::MAX,
            forall|i: int|
                0 <= i < self.collections@.len() ==> self@.collections[i]
                    == self.collections@[i]@,
            self@.collection_keys() == keys_of(self.collections@),
    {
        assert(self.collections.len() <= usize::MAX);
        assert forall|i: int| 0 <= i < self.collections@.len() implies self@.collections[i]
            == self.collections@[i]@ by {
            assert(self@.collections[i] == collection_view_at(self.collections, i));
        }
        assert forall|i: int| 0 <= i < self.collections@.len() implies self@.collection_keys()[i]
            == keys_of(self.collections@)[i] by {
            let child = self.collections@[i];
            assert(self@.collections[i] == child@);
            assert(child@.metadata_key_id == child.metadata_key_id);
        }
        assert(self@.collection_keys() =~= keys_of(self.collections@));
    }

    /// A collection without items or children, not certified.
    pub fn new(metadata_key_id: u64, update_authority: Option<Identity>, update_slot: u64) -> (c:
        MetadataCollection)
        ensures
            c@ == CollectionView::empty(metadata_key_id, update_authority, update_slot),
            c@.wf(),
    {
        let c = MetadataCollection {
            metadata_key_id,
            update_authority,
            items: Vec::new(),
            collections: Vec::new(),
            certified: false,
            certification_expiry: None,
            update_slot,
        };
        proof {
            let e = CollectionView::empty(metadata_key_id, update_authority, update_slot);
            assert(c@.items =~= e.items);
            assert(c@.collections =~= e.collections);
        }
        c
    }

    /// Looks up the item stored under `key_id`.
    pub fn find_item(&self, key_id: u64) -> (r: Located)
        requires
            strictly_sorted(self@.item_keys()),
        ensures
            r == located(self@.item_keys(), key_id),
            match r {
                Located::Found(i) => i < self.items.len() && self@.has_item(key_id)
                    && self@.items[i as int].metadata_key_id == key_id,
                Located::NotFound(i) => i <= self.items.len() && !self@.has_item(key_id),
            },
    {
        proof {
            self.lemma_view_items();
            lemma_rank_bounds(self@.item_keys(), key_id);
        }
        locate(&self.items, key_id)
    }

    /// Looks up the child collection stored under `key_id`.
    pub fn find_child(&self, key_id: u64) -> (r: Located)
        requires
            strictly_sorted(self@.collection_keys()),
        ensures
            r == located(self@.collection_keys(), key_id),
            match r {
                Located::Found(i) => i < self.collections.len() && self@.has_collection(key_id)
                    && self@.child(key_id) == self.collections[i as int]@,
                Located::NotFound(i) => i <= self.collections.len() && !self@.has_collection(
                    key_id,
                ),
            },
    {
        proof {
            self.lemma_view_collections();
            lemma_rank_bounds(self@.collection_keys(), key_id);
        }
        locate(&self.collections, key_id)
    }

    /// Marks the collection as not certified and clears the expiry. Every change to the
    /// items of a collection ends with this.
    pub fn withdraw_certification(&mut self)
        ensures
            final(self)@ == (CollectionView {
                certified: false,
                certification_expiry: None,
                ..old(self)@
            }),
    {
        self.certified = false;
        self.certification_expiry = None;
    }

    /// Stores an item at `index`, the place that a lookup of `key_id` reported as free.
    /// The collection takes the slot, and its certification is withdrawn.
    pub fn insert_item(&mut self, index: usize, key_id: u64, value: Vec<u8>, update_slot: u64)
        requires
            old(self)@.wf(),
            located(old(self)@.item_keys(), key_id) == Located::NotFound(index),
        ensures
            final(self)@ == old(self)@.with_item(key_id, value@, update_slot),
            final(self)@.wf(),
            index == old(self)@.item_position(key_id),
            final(self)@.items[index as int] == (ItemView {
                metadata_key_id: key_id,
                value: value@,
                update_slot,
            }),
    {
        let ghost before = *self;
        proof {
            before.lemma_view_items();
            lemma_rank_bounds(before@.item_keys(), key_id);
            before@.lemma_with_item_wf(key_id, value@, update_slot);
        }
        let item = MetadataItem::new(key_id, value, update_slot);
        insert(&mut self.items, index, item);
        self.update_slot = update_slot;
        self.withdraw_certification();
        proof {
            assert(self@.items =~= before@.with_item(key_id, value@, update_slot).items);
        }
    }

    /// Creates an empty child at `index`, the place that a lookup of `key_id` reported
    /// as free. Nothing else of the collection changes.
    pub fn insert_collection(
        &mut self,
        index: usize,
        key_id: u64,
        update_authority: Option<Identity>,
        update_slot: u64,
    )
        requires
            old(self)@.wf(),
            located(old(self)@.collection_keys(), key_id) == Located::NotFound(index),
        ensures
            final(self)@ == old(self)@.with_collection(key_id, update_authority, update_slot),
            final(self)@.wf(),
            index == old(self)@.collection_position(key_id),
            final(self)@.collections[index as int] == CollectionView::empty(
                key_id,
                update_authority,
                update_slot,
            ),
    {
        let ghost before = *self;
        proof {
            before.lemma_view_collections();
            lemma_rank_bounds(before@.collection_keys(), key_id);
            before@.lemma_with_collection_wf(key_id, update_authority, update_slot);
        }
        let child = MetadataCollection::new(key_id, update_authority, update_slot);
        insert(&mut self.collections, index, child);
        proof {
            self.lemma_view_collections();
            let expected = before@.with_collection(key_id, update_authority, update_slot);
            assert forall|i: int| 0 <= i < self@.collections.len() implies self@.collections[i]
                == expected.collections[i] by {
                assert(self@.collections[i] == self.collections@[i]@);
                if i < index {
                    assert(self.collections@[i] == before.collections@[i]);
                } else if i > index {
                    assert(self.collections@[i] == before.collections@[i - 1]);
                }
            }
            assert(self@.collections =~= expected.collections);
        }
    }

    /// Whether items and children are strictly ascending by key id, here and in every
    /// collection below.
    pub fn is_well_formed(&self) -> (ok: bool)
        ensures
            ok == self@.wf(),
        decreases self,
    {
        proof {
            self.lemma_view_items();
            self.lemma_view_collections();
        }
        if !is_strictly_sorted(&self.items) {
            return false;
        }
        if !is_strictly_sorted(&self.collections) {
            return false;
        }
        let mut i: usize = 0;
        while i < self.collections.len()
            invariant
                i <= self.collections.len(),
                self@.collections.len() == self.collections@.len(),
                forall|j: int|
                    0 <= j < self.collections@.len() ==> self@.collections[j]
                        == self.collections@[j]@,
                forall|j: int| 0 <= j < i ==> (#[trigger] self@.collections[j]).wf(),
            decreases self.collections.len() - i,
        {
            if !self.collections[i].is_well_formed() {
                assert(!self@.collections[i as int].wf());
                return false;
            }
            i += 1;
        }
        true
    }
}

/// The metadata record of one subject.
#[derive(Debug, PartialEq, Eq)]
pub struct Metadata {
    /// The id of the key that describes the root collection.
    pub metadata_key_id: u64,
    /// The subject the record describes.
    pub subject: Identity,
    /// The authority in force wherever no collection names one.
    pub update_authority: Option<Identity>,
    /// The root collection.
    pub collection: MetadataCollection,
}

/// The mathematical value of a [`Metadata`] record.
pub struct MetadataView {
    pub metadata_key_id: u64,
    pub subject: Identity,
    pub update_authority: Option<Identity>,
    pub collection: CollectionView,
}

impl View for Metadata {
    type V = MetadataView;

    open spec fn view(&self) -> MetadataView {
        MetadataView {
            metadata_key_id: self.metadata_key_id,
            subject: self.subject,
            update_authority: self.update_authority,
            collection: self.collection@,
        }
    }
}

/// The position of a collection that an operation can reach: `None` is the root
/// collection, `Some(i)` the child at position `i` under the root.
pub open spec fn target_view(target: Option<usize>) -> Option<int> {
    match target {
        None => None,
        Some(at) => Some(at as int),
    }
}

impl Clone for Metadata {
    fn clone(&self) -> (copy: Metadata)
        ensures
            copy@ == self@,
    {
        Metadata {
            metadata_key_id: self.metadata_key_id,
            subject: self.subject,
            update_authority: self.update_authority,
            collection: self.collection.clone(),
        }
    }
}

impl MetadataView {
    /// Every collection of the record is well formed.
    pub open spec fn wf(self) -> bool {
        self.collection.wf()
    }

    /// Whether `collection_key_id` names a collection that an operation can reach, for a
    /// caller that holds `root_key_id` to be the key of the root: the root itself, or a
    /// child of the root.
    pub open spec fn reaches(self, root_key_id: u64, collection_key_id: u64) -> bool {
        collection_key_id == root_key_id || self.collection.has_collection(collection_key_id)
    }

    /// The collection that `collection_key_id` names: `None` for the root, where it is
    /// `root_key_id`; else the position of the child stored under it.
    pub open spec fn target_of(self, root_key_id: u64, collection_key_id: u64) -> Option<int> {
        if collection_key_id == root_key_id {
            None
        } else {
            Some(self.collection.collection_position(collection_key_id))
        }
    }

    /// The collection at `target`.
    pub open spec fn collection_at(self, target: Option<int>) -> CollectionView {
        match target {
            None => self.collection,
            Some(at) => self.collection.collections[at],
        }
    }

    /// Whether `target` is a collection of the record.
    pub open spec fn has_target(self, target: Option<int>) -> bool {
        target matches Some(at) ==> 0 <= at < self.collection.collections.len()
    }

    /// The record with the collection at `target` replaced by `collection`.
    pub open spec fn with_collection_at(
        self,
        target: Option<int>,
        collection: CollectionView,
    ) -> MetadataView {
        match target {
            None => MetadataView { collection, ..self },
            Some(at) => MetadataView { collection: self.collection.with_child(at, collection), ..self },
        }
    }

    /// Replacing a reachable collection by a well-formed one under the same key keeps
    /// the record well formed.
    pub proof fn lemma_with_collection_at_wf(self, target: Option<int>, collection: CollectionView)
        requires
            self.wf(),
            self.has_target(target),
            collection.wf(),
            target is Some ==> collection.metadata_key_id == self.collection_at(
                target,
            ).metadata_key_id,
        ensures
            self.with_collection_at(target, collection).wf(),
            self.collection_at(target).wf(),
            self.with_collection_at(target, collection).collection_at(target) == collection,
    {
        match target {
            None => {},
            Some(at) => {
                self.collection.lemma_with_child_wf(at, collection);
                assert(self.collection.collections[at].wf());
            },
        }
    }
}

impl Metadata {
    /// A record for `subject` whose root collection is empty.
    pub fn new(
        metadata_key_id: u64,
        subject: Identity,
        update_authority: Option<Identity>,
        update_slot: u64,
    ) -> (record: Metadata)
        ensures
            record@ == (MetadataView {
                metadata_key_id,
                subject,
                update_authority,
                collection: CollectionView::empty(metadata_key_id, None, update_slot),
            }),
            record@.wf(),
    {
        Metadata {
            metadata_key_id,
            subject,
            update_authority,
            collection: MetadataCollection::new(metadata_key_id, None, update_slot),
        }
    }

    /// Whether every collection of the record is well formed.
    pub fn is_well_formed(&self) -> (ok: bool)
        ensures
            ok == self@.wf(),
    {
        self.collection.is_well_formed()
    }

    /// Finds the collection that `collection_key_id` names: the root where it is
    /// `root_key_id`, else the child of the root stored under it. The search goes no
    /// deeper than the children of the root.
    pub fn find_collection(&self, root_key_id: u64, collection_key_id: u64) -> (r: Result<
        Option<usize>,
        MetadataError,
    >)
        requires
            self@.wf(),
        ensures
            match r {
                Ok(target) => {
                    &&& self@.reaches(root_key_id, collection_key_id)
                    &&& target_view(target) == self@.target_of(root_key_id, collection_key_id)
                    &&& self@.has_target(target_view(target))
                },
                Err(e) => {
                    &&& !self@.reaches(root_key_id, collection_key_id)
                    &&& e == MetadataError::CollectionNotFound
                },
            },
    {
        if collection_key_id == root_key_id {
            return Ok(None);
        }
        proof {
            self.collection.lemma_view_collections();
            lemma_rank_bounds(self@.collection.collection_keys(), collection_key_id);
        }
        match self.collection.find_child(collection_key_id) {
            Located::Found(at) => Ok(Some(at)),
            Located::NotFound(_) => Err(MetadataError::CollectionNotFound),
        }
    }

    /// The collection at `target`.
    pub fn collection_ref(&self, target: Option<usize>) -> (collection: &MetadataCollection)
        requires
            self@.has_target(target_view(target)),
        ensures
            collection@ == self@.collection_at(target_view(target)),
    {
        proof {
            self.collection.lemma_view_collections();
        }
        match target {
            None => &self.collection,
            Some(at) => &self.collection.collections[at],
        }
    }
}

} // verus!
