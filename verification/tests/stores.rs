use pallet_subspace::store::{Key, NetKey, Store};

#[test]
fn store_reads_what_was_written() {
    let mut s: Store<u16, u64> = Store::new();
    assert_eq!(s.len(), 0);
    assert!(!s.contains_key(&3));
    assert_eq!(s.get(&3), None);
    s.insert(3, 30);
    s.insert(1, 10);
    assert_eq!(s.len(), 2);
    assert_eq!(s.get(&3), Some(&30));
    assert_eq!(s.get(&1), Some(&10));
    assert_eq!(s.get(&2), None);
}

#[test]
fn store_overwrites_in_place_and_keeps_the_order() {
    let mut s: Store<u16, u64> = Store::new();
    s.insert(3, 30);
    s.insert(1, 10);
    s.insert(2, 20);
    s.insert(3, 33);
    assert_eq!(s.len(), 3);
    assert_eq!(*s.key_at(0), 3);
    assert_eq!(*s.value_at(0), 33);
    assert_eq!(*s.key_at(1), 1);
    assert_eq!(*s.key_at(2), 2);
}

#[test]
fn store_removal_keeps_the_other_entries_in_order() {
    let mut s: Store<u16, u64> = Store::new();
    s.insert(3, 30);
    s.insert(1, 10);
    s.insert(2, 20);
    s.remove(&1);
    s.remove(&9);
    assert_eq!(s.len(), 2);
    assert!(!s.contains_key(&1));
    assert_eq!(*s.key_at(0), 3);
    assert_eq!(*s.key_at(1), 2);
    assert_eq!(*s.value_at(1), 20);
}

#[test]
fn store_clears_the_entries_of_one_network() {
    let mut s: Store<(u16, u64), u16> = Store::new();
    s.insert((0, 7), 1);
    s.insert((1, 7), 2);
    s.insert((0, 8), 3);
    s.insert((2, 9), 4);
    s.insert((0, 9), 5);
    s.clear_network(0);
    assert_eq!(s.len(), 2);
    assert_eq!(*s.key_at(0), (1, 7));
    assert_eq!(*s.key_at(1), (2, 9));
    assert_eq!(s.get(&(2, 9)), Some(&4));
    assert_eq!(s.get(&(0, 8)), None);
    s.clear_network(5);
    assert_eq!(s.len(), 2);
}

#[test]
fn store_scopes_membership_keys_by_their_second_part() {
    let mut s: Store<(u64, u16), bool> = Store::new();
    s.insert((7, 0), true);
    s.insert((7, 1), true);
    s.insert((0, 7), true);
    s.clear_network(0);
    assert_eq!(s.len(), 2);
    assert_eq!(*s.key_at(0), (7, 1));
    assert_eq!(*s.key_at(1), (0, 7));
}

#[test]
fn keys_compare_by_value() {
    assert!(3u16.same(&3));
    assert!(!3u16.same(&4));
    assert!(7u64.same(&7));
    assert!(vec![1u8, 2, 3].same(&vec![1u8, 2, 3]));
    assert!(!vec![1u8, 2, 3].same(&vec![1u8, 2, 4]));
    assert!(!vec![1u8, 2, 3].same(&vec![1u8, 2]));
    assert!(Vec::<u8>::new().same(&Vec::new()));
    assert!((1u16, vec![9u8]).same(&(1u16, vec![9u8])));
    assert!(!(1u16, vec![9u8]).same(&(2u16, vec![9u8])));
    assert!(!(1u16, 5u64).same(&(1u16, 6u64)));
}

#[test]
fn composite_keys_name_their_network() {
    assert_eq!((4u16, 9u64).network(), 4);
    assert_eq!((4u16, vec![1u8]).network(), 4);
    assert_eq!((9u64, 4u16).network(), 4);
}
