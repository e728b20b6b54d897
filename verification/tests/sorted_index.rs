use mythic_metadata::sorted_index::{insert, is_strictly_sorted, locate, Keyed, Located};
use mythic_metadata::state::MetadataItem;

fn items(keys: &[u64]) -> Vec<MetadataItem> {
    keys.iter().map(|k| MetadataItem::new(*k, vec![*k as u8], 1)).collect()
}

fn keys(entries: &Vec<MetadataItem>) -> Vec<u64> {
    entries.iter().map(|e| e.key()).collect()
}

#[test]
fn locate_in_empty_sequence_reports_position_zero() {
    assert_eq!(locate(&items(&[]), 4), Located::NotFound(0));
}

#[test]
fn locate_finds_every_stored_key_at_its_position() {
    let entries = items(&[2, 3, 5, 8, 13, 21]);
    for (position, key) in [2u64, 3, 5, 8, 13, 21].iter().enumerate() {
        assert_eq!(locate(&entries, *key), Located::Found(position));
    }
}

#[test]
fn locate_reports_the_insertion_point_of_an_absent_key() {
    let entries = items(&[2, 3, 5, 8, 13, 21]);
    assert_eq!(locate(&entries, 0), Located::NotFound(0));
    assert_eq!(locate(&entries, 1), Located::NotFound(0));
    assert_eq!(locate(&entries, 4), Located::NotFound(2));
    assert_eq!(locate(&entries, 9), Located::NotFound(4));
    assert_eq!(locate(&entries, 20), Located::NotFound(5));
    assert_eq!(locate(&entries, 22), Located::NotFound(6));
    assert_eq!(locate(&entries, u64::MAX), Located::NotFound(6));
}

#[test]
fn locate_handles_the_extreme_keys() {
    let entries = items(&[0, u64::MAX]);
    assert_eq!(locate(&entries, 0), Located::Found(0));
    assert_eq!(locate(&entries, u64::MAX), Located::Found(1));
    assert_eq!(locate(&entries, 1), Located::NotFound(1));
}

#[test]
fn locate_in_a_single_entry() {
    let entries = items(&[7]);
    assert_eq!(locate(&entries, 7), Located::Found(0));
    assert_eq!(locate(&entries, 6), Located::NotFound(0));
    assert_eq!(locate(&entries, 8), Located::NotFound(1));
}

#[test]
fn insert_shifts_the_tail_right_by_one() {
    let mut entries = items(&[2, 5, 8]);
    insert(&mut entries, 1, MetadataItem::new(3, vec![9, 9], 4));
    assert_eq!(keys(&entries), vec![2, 3, 5, 8]);
    assert_eq!(entries[1].value, vec![9, 9]);
    assert_eq!(entries[1].update_slot, 4);
    assert_eq!(entries[2].value, vec![5]);
}

#[test]
fn insert_at_either_end() {
    let mut entries = items(&[5]);
    insert(&mut entries, 0, MetadataItem::new(1, vec![], 0));
    insert(&mut entries, 2, MetadataItem::new(9, vec![], 0));
    assert_eq!(keys(&entries), vec![1, 5, 9]);
}

#[test]
fn insert_at_the_located_position_keeps_the_order() {
    let mut entries = items(&[]);
    for key in [40u64, 10, 30, 20, 50, 0, 25] {
        match locate(&entries, key) {
            Located::NotFound(position) => insert(&mut entries, position, MetadataItem::new(key, vec![], 0)),
            Located::Found(_) => panic!("key {} was not stored yet", key),
        }
        assert!(is_strictly_sorted(&entries));
    }
    assert_eq!(keys(&entries), vec![0, 10, 20, 25, 30, 40, 50]);
}

#[test]
fn is_strictly_sorted_accepts_ascending_keys() {
    assert!(is_strictly_sorted(&items(&[])));
    assert!(is_strictly_sorted(&items(&[3])));
    assert!(is_strictly_sorted(&items(&[1, 2, 3, 10])));
}

#[test]
fn is_strictly_sorted_rejects_repeats_and_descents() {
    assert!(!is_strictly_sorted(&items(&[1, 1])));
    assert!(!is_strictly_sorted(&items(&[1, 2, 2, 3])));
    assert!(!is_strictly_sorted(&items(&[2, 1])));
    assert!(!is_strictly_sorted(&items(&[1, 3, 2, 4])));
    assert!(!is_strictly_sorted(&items(&[1, 2, 3, 0])));
}
