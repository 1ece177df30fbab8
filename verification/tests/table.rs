//! The keyed table.

use libp2p::swarm::ConnectionId;
use waggle::table::{copy_bytes, same_bytes, Table};

#[test]
fn a_table_maps_keys_to_values() {
    let mut table: Table<Vec<u8>, u32> = Table::new();
    assert_eq!(table.len(), 0);
    assert!(table.get(b"a").is_none());
    table.insert(b"a".to_vec(), 1);
    table.insert(b"b".to_vec(), 2);
    table.insert(b"a".to_vec(), 3);
    assert_eq!(table.len(), 2);
    assert_eq!(table.get(b"a"), Some(&3));
    assert_eq!(table.key_at(0), b"a");
    assert_eq!(table.key_at(1), b"b");
    assert_eq!(*table.value_at(1), 2);
    assert!(table.contains_key(b"b"));
    assert!(!table.contains_key(b"c"));
}

#[test]
fn values_are_changed_in_place() {
    let mut table: Table<Vec<u8>, u32> = Table::new();
    *table.get_or_insert(b"a".to_vec(), 10) += 1;
    *table.get_or_insert(b"a".to_vec(), 10) += 1;
    assert_eq!(table.get(b"a"), Some(&12));
    *table.get_mut(b"a").unwrap() = 5;
    assert!(table.get_mut(b"b").is_none());
    *table.value_mut_at(0) += 2;
    assert_eq!(table.get(b"a"), Some(&7));
}

#[test]
fn removing_keeps_the_order_of_the_rest() {
    let mut table: Table<ConnectionId, u32> = Table::new();
    for n in 1..=3 {
        table.insert(ConnectionId::new_unchecked(n), n as u32);
    }
    assert_eq!(table.remove(&ConnectionId::new_unchecked(2)), Some(2));
    assert_eq!(table.remove(&ConnectionId::new_unchecked(2)), None);
    assert_eq!(table.len(), 2);
    assert_eq!(*table.value_at(0), 1);
    assert_eq!(*table.value_at(1), 3);
    assert_eq!(table.remove_at(0), 1);
    assert_eq!(*table.key_at(0), ConnectionId::new_unchecked(3));
}

#[test]
fn bytes_are_compared_and_copied() {
    assert!(same_bytes(b"", b""));
    assert!(same_bytes(b"abc", b"abc"));
    assert!(!same_bytes(b"abc", b"abd"));
    assert!(!same_bytes(b"abc", b"ab"));
    assert_eq!(copy_bytes(b"xyz"), b"xyz".to_vec());
}
