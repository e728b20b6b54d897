use mythic_metadata::errors::MetadataError;
use mythic_metadata::identity::Identity;
use mythic_metadata::instructions::append::collection::{
    admit_collection, append_collection, place_collection, CollectionPlacement, CollectionRef,
};
use mythic_metadata::instructions::append::item::append_item;
use mythic_metadata::state::{Metadata, MetadataCollection};

const ROOT: u64 = 100;

fn id(byte: u8) -> Identity {
    Identity::new([byte; 32])
}

fn record() -> Metadata {
    Metadata::new(ROOT, id(9), Some(id(1)), 1)
}

fn child_keys(collection: &MetadataCollection) -> Vec<u64> {
    collection.collections.iter().map(|c| c.metadata_key_id).collect()
}

#[test]
fn new_collection_is_empty_uncertified_and_stamped() {
    let mut record = record();
    let created = append_collection(&mut record, ROOT, ROOT, 5, Some(id(2)), &id(1), 20);
    assert_eq!(created, Ok(CollectionRef { index: 0, update_slot: 20 }));
    assert_eq!(
        record.collection.collections,
        vec![MetadataCollection {
            metadata_key_id: 5,
            update_authority: Some(id(2)),
            items: vec![],
            collections: vec![],
            certified: false,
            certification_expiry: None,
            update_slot: 20,
        }]
    );
}

#[test]
fn collections_stay_strictly_ascending_whatever_the_order_of_appends() {
    let mut record = record();
    let mut positions = Vec::new();
    for (n, key) in [5u64, 3, 9, 4, 1, 7, 0].iter().enumerate() {
        let created =
            append_collection(&mut record, ROOT, ROOT, *key, None, &id(1), 20 + n as u64).unwrap();
        positions.push(created.index);
        assert!(record.is_well_formed());
    }
    assert_eq!(positions, vec![0, 0, 2, 1, 0, 4, 0]);
    assert_eq!(child_keys(&record.collection), vec![0, 1, 3, 4, 5, 7, 9]);
    assert_eq!(
        record.collection.collections.iter().map(|c| c.update_slot).collect::<Vec<_>>(),
        vec![26, 24, 21, 23, 20, 25, 22]
    );
}

#[test]
fn second_append_of_the_same_key_stores_nothing() {
    let mut record = record();
    assert!(append_collection(&mut record, ROOT, ROOT, 5, None, &id(1), 20).is_ok());
    let after_first = record.clone();
    assert_eq!(
        append_collection(&mut record, ROOT, ROOT, 5, Some(id(2)), &id(1), 30),
        Err(MetadataError::CollectionAlreadyExists)
    );
    assert_eq!(record, after_first);
    assert_eq!(child_keys(&record.collection), vec![5]);
    assert_eq!(record.collection.collections[0].update_authority, None);
    assert_eq!(record.collection.collections[0].update_slot, 20);
}

#[test]
fn existing_collection_with_items_is_not_replaced() {
    let mut record = record();
    append_collection(&mut record, ROOT, ROOT, 5, None, &id(1), 20).unwrap();
    append_item(&mut record, ROOT, 5, 7, vec![1, 2, 3], &id(1), 21).unwrap();
    let before = record.clone();
    assert_eq!(
        append_collection(&mut record, ROOT, ROOT, 5, None, &id(1), 30),
        Err(MetadataError::CollectionAlreadyExists)
    );
    assert_eq!(record, before);
    assert_eq!(record.collection.collections[0].items.len(), 1);
}

#[test]
fn collection_with_the_root_key_may_be_created_under_the_root() {
    let mut record = record();
    assert_eq!(
        append_collection(&mut record, ROOT, ROOT, ROOT, None, &id(1), 20),
        Ok(CollectionRef { index: 0, update_slot: 20 })
    );
    append_item(&mut record, ROOT, ROOT, 7, vec![], &id(1), 21).unwrap();
    assert_eq!(record.collection.items.len(), 1);
    assert!(record.collection.collections[0].items.is_empty());
}

#[test]
fn unauthorized_signer_cannot_create_a_collection() {
    let mut record = record();
    let before = record.clone();
    assert_eq!(
        append_collection(&mut record, ROOT, ROOT, 5, None, &id(2), 20),
        Err(MetadataError::Unauthorized)
    );
    assert_eq!(
        append_collection(&mut record, ROOT, ROOT, 5, Some(id(2)), &id(2), 20),
        Err(MetadataError::Unauthorized)
    );
    assert_eq!(record, before);
}

#[test]
fn unauthorized_is_reported_before_a_duplicate() {
    let mut record = record();
    append_collection(&mut record, ROOT, ROOT, 5, None, &id(1), 20).unwrap();
    assert_eq!(
        append_collection(&mut record, ROOT, ROOT, 5, None, &id(2), 30),
        Err(MetadataError::Unauthorized)
    );
}

#[test]
fn wrong_root_key_cannot_create_a_collection() {
    let mut record = record();
    let before = record.clone();
    assert_eq!(
        append_collection(&mut record, 7, 7, 5, None, &id(1), 20),
        Err(MetadataError::InvalidRootKey)
    );
    assert_eq!(record, before);
}

#[test]
fn collection_under_a_child_of_the_root() {
    let mut record = record();
    append_collection(&mut record, ROOT, ROOT, 5, Some(id(2)), &id(1), 20).unwrap();
    append_collection(&mut record, ROOT, ROOT, 3, None, &id(1), 21).unwrap();

    assert_eq!(
        append_collection(&mut record, ROOT, 5, 8, None, &id(1), 30),
        Err(MetadataError::Unauthorized)
    );
    assert_eq!(
        append_collection(&mut record, ROOT, 5, 8, None, &id(2), 30),
        Ok(CollectionRef { index: 0, update_slot: 30 })
    );
    assert_eq!(
        append_collection(&mut record, ROOT, 5, 6, None, &id(2), 31),
        Ok(CollectionRef { index: 0, update_slot: 31 })
    );
    assert_eq!(
        append_collection(&mut record, ROOT, 5, 8, None, &id(2), 32),
        Err(MetadataError::CollectionAlreadyExists)
    );
    assert_eq!(
        append_collection(&mut record, ROOT, 4, 8, None, &id(1), 32),
        Err(MetadataError::CollectionNotFound)
    );
    assert_eq!(child_keys(&record.collection), vec![3, 5]);
    assert_eq!(child_keys(&record.collection.collections[1]), vec![6, 8]);
    assert!(record.collection.collections[0].collections.is_empty());
    assert_eq!(record.collection.collections[1].update_slot, 20);
    assert!(record.is_well_formed());
}

#[test]
fn collection_two_levels_down_is_out_of_reach() {
    let mut record = record();
    append_collection(&mut record, ROOT, ROOT, 5, None, &id(1), 20).unwrap();
    append_collection(&mut record, ROOT, 5, 8, None, &id(1), 21).unwrap();
    let before = record.clone();
    assert_eq!(
        append_collection(&mut record, ROOT, 8, 9, None, &id(1), 22),
        Err(MetadataError::CollectionNotFound)
    );
    assert_eq!(
        append_item(&mut record, ROOT, 8, 9, vec![], &id(1), 22),
        Err(MetadataError::CollectionNotFound)
    );
    assert_eq!(record, before);
}

#[test]
fn new_collection_leaves_slot_and_certification_of_the_parent() {
    let mut record = record();
    record.collection.certified = true;
    record.collection.certification_expiry = Some(77);
    append_collection(&mut record, ROOT, ROOT, 5, None, &id(1), 20).unwrap();
    assert!(record.collection.certified);
    assert_eq!(record.collection.certification_expiry, Some(77));
    assert_eq!(record.collection.update_slot, 1);

    record.collection.collections[0].certified = true;
    record.collection.collections[0].certification_expiry = None;
    append_collection(&mut record, ROOT, 5, 6, None, &id(1), 30).unwrap();
    assert!(record.collection.collections[0].certified);
    assert_eq!(record.collection.collections[0].update_slot, 20);
    assert_eq!(record.collection.collections[0].collections[0].update_slot, 30);
    assert!(record.collection.certified);
}

#[test]
fn new_collection_inherits_until_it_names_an_authority() {
    let mut record = record();
    append_collection(&mut record, ROOT, ROOT, 5, None, &id(1), 20).unwrap();
    append_collection(&mut record, ROOT, ROOT, 6, Some(id(2)), &id(1), 21).unwrap();
    assert!(append_item(&mut record, ROOT, 5, 1, vec![], &id(1), 30).is_ok());
    assert_eq!(
        append_item(&mut record, ROOT, 6, 1, vec![], &id(1), 30),
        Err(MetadataError::Unauthorized)
    );
    assert!(append_item(&mut record, ROOT, 6, 1, vec![], &id(2), 30).is_ok());
}

#[test]
fn admit_then_place_collection_is_the_same_as_append() {
    let mut by_steps = record();
    let mut at_once = record();
    for r in [&mut by_steps, &mut at_once] {
        append_collection(r, ROOT, ROOT, 5, None, &id(1), 20).unwrap();
        append_collection(r, ROOT, ROOT, 9, None, &id(1), 21).unwrap();
    }
    let placement = admit_collection(&by_steps, ROOT, ROOT, 7, &id(1)).unwrap();
    assert_eq!(placement, CollectionPlacement { parent_index: None, collection_index: 1 });
    let created = place_collection(&mut by_steps, placement, 7, Some(id(3)), 40);
    assert_eq!(
        Ok(created),
        append_collection(&mut at_once, ROOT, ROOT, 7, Some(id(3)), &id(1), 40)
    );
    assert_eq!(by_steps, at_once);

    let placement = admit_collection(&by_steps, ROOT, 9, 2, &id(1)).unwrap();
    assert_eq!(placement, CollectionPlacement { parent_index: Some(2), collection_index: 0 });
}

#[test]
fn admit_collection_reports_each_refusal() {
    let mut record = record();
    append_collection(&mut record, ROOT, ROOT, 5, None, &id(1), 20).unwrap();
    assert_eq!(admit_collection(&record, 1, 1, 6, &id(1)), Err(MetadataError::InvalidRootKey));
    assert_eq!(
        admit_collection(&record, ROOT, 4, 6, &id(1)),
        Err(MetadataError::CollectionNotFound)
    );
    assert_eq!(admit_collection(&record, ROOT, ROOT, 6, &id(2)), Err(MetadataError::Unauthorized));
    assert_eq!(
        admit_collection(&record, ROOT, ROOT, 5, &id(1)),
        Err(MetadataError::CollectionAlreadyExists)
    );
}
