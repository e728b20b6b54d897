use mythic_metadata::errors::MetadataError;
use mythic_metadata::identity::Identity;
use mythic_metadata::instructions::append::admit_target;
use mythic_metadata::instructions::append::collection::append_collection;
use mythic_metadata::instructions::append::item::{
    admit_item, append_item, place_item, ItemPlacement, ItemRef,
};
use mythic_metadata::state::{Metadata, MetadataCollection, MetadataItem};

const ROOT: u64 = 100;

fn id(byte: u8) -> Identity {
    Identity::new([byte; 32])
}

fn record() -> Metadata {
    let mut record = Metadata::new(ROOT, id(9), Some(id(1)), 1);
    append_collection(&mut record, ROOT, ROOT, 20, None, &id(1), 2).unwrap();
    append_collection(&mut record, ROOT, ROOT, 10, Some(id(2)), &id(1), 3).unwrap();
    append_collection(&mut record, ROOT, ROOT, 30, None, &id(1), 4).unwrap();
    record
}

fn item_keys(collection: &MetadataCollection) -> Vec<u64> {
    collection.items.iter().map(|i| i.metadata_key_id).collect()
}

#[test]
fn item_goes_into_the_root_when_target_is_the_root_key() {
    let mut record = record();
    let stored = append_item(&mut record, ROOT, ROOT, 7, vec![1, 2], &id(1), 50);
    assert_eq!(stored, Ok(ItemRef { index: 0, update_slot: 50 }));
    assert_eq!(
        record.collection.items,
        vec![MetadataItem { metadata_key_id: 7, value: vec![1, 2], update_slot: 50 }]
    );
    assert_eq!(record.collection.update_slot, 50);
    assert!(record.collection.collections.iter().all(|c| c.items.is_empty()));
    assert_eq!(
        record.collection.collections.iter().map(|c| c.update_slot).collect::<Vec<_>>(),
        vec![3, 2, 4]
    );
}

#[test]
fn item_goes_into_the_named_child_only() {
    let mut record = record();
    let before = record.clone();
    let stored = append_item(&mut record, ROOT, 20, 7, vec![5], &id(1), 50);
    assert_eq!(stored, Ok(ItemRef { index: 0, update_slot: 50 }));
    assert_eq!(record.collection.items, before.collection.items);
    assert_eq!(record.collection.update_slot, before.collection.update_slot);
    assert_eq!(record.collection.certified, before.collection.certified);
    assert_eq!(record.collection.collections[0], before.collection.collections[0]);
    assert_eq!(record.collection.collections[2], before.collection.collections[2]);
    let child = &record.collection.collections[1];
    assert_eq!(child.metadata_key_id, 20);
    assert_eq!(child.items, vec![MetadataItem { metadata_key_id: 7, value: vec![5], update_slot: 50 }]);
    assert_eq!(child.update_slot, 50);
}

#[test]
fn items_stay_strictly_ascending_whatever_the_order_of_appends() {
    let mut record = record();
    let mut positions = Vec::new();
    for (n, key) in [50u64, 10, 30, 20, 40, 0, u64::MAX].iter().enumerate() {
        let stored =
            append_item(&mut record, ROOT, 30, *key, vec![n as u8], &id(1), 60 + n as u64).unwrap();
        positions.push(stored.index);
        assert!(record.is_well_formed());
    }
    assert_eq!(positions, vec![0, 0, 1, 1, 3, 0, 6]);
    let child = &record.collection.collections[2];
    assert_eq!(item_keys(child), vec![0, 10, 20, 30, 40, 50, u64::MAX]);
    assert_eq!(
        child.items.iter().map(|i| i.value[0]).collect::<Vec<u8>>(),
        vec![5, 1, 3, 2, 4, 0, 6]
    );
    assert_eq!(child.update_slot, 66);
}

#[test]
fn wrong_root_key_is_refused_first() {
    let mut record = record();
    let before = record.clone();
    assert_eq!(
        append_item(&mut record, ROOT + 1, ROOT + 1, 7, vec![], &id(1), 50),
        Err(MetadataError::InvalidRootKey)
    );
    assert_eq!(
        append_item(&mut record, 20, 20, 7, vec![], &id(1), 50),
        Err(MetadataError::InvalidRootKey)
    );
    assert_eq!(
        append_item(&mut record, ROOT + 1, 999, 7, vec![], &id(8), 50),
        Err(MetadataError::InvalidRootKey)
    );
    assert_eq!(record, before);
}

#[test]
fn missing_target_is_refused_before_the_signer_is_looked_at() {
    let mut record = record();
    let before = record.clone();
    assert_eq!(
        append_item(&mut record, ROOT, 25, 7, vec![], &id(8), 50),
        Err(MetadataError::CollectionNotFound)
    );
    assert_eq!(record, before);
}

#[test]
fn unauthorized_signer_is_refused_before_the_item_key_is_looked_at() {
    let mut record = record();
    append_item(&mut record, ROOT, 20, 7, vec![1], &id(1), 50).unwrap();
    let before = record.clone();
    assert_eq!(
        append_item(&mut record, ROOT, 20, 7, vec![2], &id(8), 51),
        Err(MetadataError::Unauthorized)
    );
    assert_eq!(
        append_item(&mut record, ROOT, ROOT, 7, vec![2], &id(2), 51),
        Err(MetadataError::Unauthorized)
    );
    assert_eq!(record, before);
}

#[test]
fn repeated_item_key_is_refused_and_nothing_changes() {
    let mut record = record();
    append_item(&mut record, ROOT, 20, 7, vec![1], &id(1), 50).unwrap();
    append_item(&mut record, ROOT, ROOT, 7, vec![1], &id(1), 51).unwrap();
    let before = record.clone();
    assert_eq!(
        append_item(&mut record, ROOT, 20, 7, vec![2], &id(1), 52),
        Err(MetadataError::ItemAlreadyExists)
    );
    assert_eq!(
        append_item(&mut record, ROOT, ROOT, 7, vec![2], &id(1), 52),
        Err(MetadataError::ItemAlreadyExists)
    );
    assert_eq!(record, before);
    assert_eq!(record.collection.collections[1].items[0].value, vec![1]);
}

#[test]
fn same_item_key_may_live_in_different_collections() {
    let mut record = record();
    assert!(append_item(&mut record, ROOT, ROOT, 7, vec![], &id(1), 50).is_ok());
    assert!(append_item(&mut record, ROOT, 20, 7, vec![], &id(1), 51).is_ok());
    assert!(append_item(&mut record, ROOT, 30, 7, vec![], &id(1), 52).is_ok());
    assert!(record.is_well_formed());
}

#[test]
fn child_without_authority_admits_only_the_record_authority() {
    for signer in [2u8, 3, 9, 0] {
        let mut record = record();
        let before = record.clone();
        assert_eq!(
            append_item(&mut record, ROOT, 20, 7, vec![], &id(signer), 50),
            Err(MetadataError::Unauthorized)
        );
        assert_eq!(record, before);
    }
    let mut record = record();
    assert!(append_item(&mut record, ROOT, 20, 7, vec![], &id(1), 50).is_ok());
}

#[test]
fn child_with_authority_admits_only_that_authority() {
    let mut record = record();
    let before = record.clone();
    assert_eq!(
        append_item(&mut record, ROOT, 10, 7, vec![], &id(1), 50),
        Err(MetadataError::Unauthorized)
    );
    assert_eq!(record, before);
    assert_eq!(
        append_item(&mut record, ROOT, 10, 7, vec![], &id(2), 50),
        Ok(ItemRef { index: 0, update_slot: 50 })
    );
}

#[test]
fn authority_named_by_the_root_collection_is_inherited_by_children() {
    let mut record = record();
    record.collection.update_authority = Some(id(4));
    assert_eq!(
        append_item(&mut record, ROOT, 20, 7, vec![], &id(1), 50),
        Err(MetadataError::Unauthorized)
    );
    assert_eq!(
        append_item(&mut record, ROOT, ROOT, 7, vec![], &id(1), 50),
        Err(MetadataError::Unauthorized)
    );
    assert!(append_item(&mut record, ROOT, 20, 7, vec![], &id(4), 50).is_ok());
    assert!(append_item(&mut record, ROOT, ROOT, 7, vec![], &id(4), 50).is_ok());
    assert!(append_item(&mut record, ROOT, 10, 7, vec![], &id(2), 50).is_ok());
}

#[test]
fn record_without_any_authority_admits_nobody() {
    let mut record = record();
    record.update_authority = None;
    assert_eq!(
        append_item(&mut record, ROOT, ROOT, 7, vec![], &id(1), 50),
        Err(MetadataError::Unauthorized)
    );
    assert_eq!(
        append_item(&mut record, ROOT, 20, 7, vec![], &id(1), 50),
        Err(MetadataError::Unauthorized)
    );
    assert!(append_item(&mut record, ROOT, 10, 7, vec![], &id(2), 50).is_ok());
}

#[test]
fn appending_an_item_withdraws_certification_of_that_collection_only() {
    let mut record = record();
    record.collection.certified = true;
    record.collection.certification_expiry = Some(1_700_000_000);
    for child in record.collection.collections.iter_mut() {
        child.certified = true;
        child.certification_expiry = Some(1_800_000_000);
    }
    append_item(&mut record, ROOT, 20, 7, vec![], &id(1), 50).unwrap();
    let children = &record.collection.collections;
    assert!(!children[1].certified);
    assert_eq!(children[1].certification_expiry, None);
    assert!(children[0].certified && children[2].certified);
    assert_eq!(children[0].certification_expiry, Some(1_800_000_000));
    assert!(record.collection.certified);
    assert_eq!(record.collection.certification_expiry, Some(1_700_000_000));

    append_item(&mut record, ROOT, ROOT, 7, vec![], &id(1), 51).unwrap();
    assert!(!record.collection.certified);
    assert_eq!(record.collection.certification_expiry, None);
    assert!(record.collection.collections[0].certified);
}

#[test]
fn refused_append_keeps_certification() {
    let mut record = record();
    record.collection.collections[1].certified = true;
    record.collection.collections[1].certification_expiry = Some(5);
    assert!(append_item(&mut record, ROOT, 20, 7, vec![], &id(8), 50).is_err());
    assert!(record.collection.collections[1].certified);
    assert_eq!(record.collection.collections[1].certification_expiry, Some(5));
}

#[test]
fn slot_of_the_append_is_the_latest_in_the_record() {
    let mut record = record();
    append_item(&mut record, ROOT, 20, 7, vec![], &id(1), 50).unwrap();
    append_item(&mut record, ROOT, 20, 3, vec![], &id(1), 60).unwrap();
    let child = &record.collection.collections[1];
    assert_eq!(child.update_slot, 60);
    assert_eq!(child.items[0].update_slot, 60);
    assert_eq!(child.items[1].update_slot, 50);
    let latest = record
        .collection
        .collections
        .iter()
        .flat_map(|c| c.items.iter().map(|i| i.update_slot).chain([c.update_slot]))
        .chain([record.collection.update_slot])
        .max();
    assert_eq!(latest, Some(60));
}

#[test]
fn admit_then_place_is_the_same_as_append() {
    let mut by_steps = record();
    let mut at_once = record();
    append_item(&mut by_steps, ROOT, 30, 4, vec![], &id(1), 40).unwrap();
    append_item(&mut at_once, ROOT, 30, 4, vec![], &id(1), 40).unwrap();

    let placement = admit_item(&by_steps, ROOT, 30, 9, &id(1)).unwrap();
    assert_eq!(placement, ItemPlacement { collection_index: Some(2), item_index: 1 });
    let stored = place_item(&mut by_steps, placement, 9, vec![8], 70);
    assert_eq!(Ok(stored), append_item(&mut at_once, ROOT, 30, 9, vec![8], &id(1), 70));
    assert_eq!(by_steps, at_once);

    let placement = admit_item(&by_steps, ROOT, ROOT, 9, &id(1)).unwrap();
    assert_eq!(placement, ItemPlacement { collection_index: None, item_index: 0 });
}

#[test]
fn admit_item_reports_each_refusal() {
    let mut record = record();
    append_item(&mut record, ROOT, 20, 7, vec![], &id(1), 50).unwrap();
    assert_eq!(admit_item(&record, 1, 20, 8, &id(1)), Err(MetadataError::InvalidRootKey));
    assert_eq!(admit_item(&record, ROOT, 21, 8, &id(1)), Err(MetadataError::CollectionNotFound));
    assert_eq!(admit_item(&record, ROOT, 20, 8, &id(2)), Err(MetadataError::Unauthorized));
    assert_eq!(admit_item(&record, ROOT, 20, 7, &id(1)), Err(MetadataError::ItemAlreadyExists));
}

#[test]
fn admit_target_finds_root_and_children() {
    let record = record();
    assert_eq!(admit_target(&record, ROOT, ROOT, &id(1)), Ok(None));
    assert_eq!(admit_target(&record, ROOT, 10, &id(2)), Ok(Some(0)));
    assert_eq!(admit_target(&record, ROOT, 20, &id(1)), Ok(Some(1)));
    assert_eq!(admit_target(&record, ROOT, 30, &id(1)), Ok(Some(2)));
    assert_eq!(admit_target(&record, ROOT, 10, &id(1)), Err(MetadataError::Unauthorized));
    assert_eq!(admit_target(&record, ROOT, 15, &id(1)), Err(MetadataError::CollectionNotFound));
    assert_eq!(admit_target(&record, 15, 15, &id(1)), Err(MetadataError::InvalidRootKey));
}

#[test]
fn empty_value_and_large_value_are_stored_as_given() {
    let mut record = record();
    let large: Vec<u8> = (0..1000u32).map(|n| (n % 251) as u8).collect();
    append_item(&mut record, ROOT, ROOT, 1, vec![], &id(1), 50).unwrap();
    append_item(&mut record, ROOT, ROOT, 2, large.clone(), &id(1), 51).unwrap();
    assert_eq!(record.collection.items[0].value, Vec::<u8>::new());
    assert_eq!(record.collection.items[1].value, large);
}
