use pallet_subspace::registry::Pallet;
use pallet_subspace::types::Error;

fn name(s: &str) -> Vec<u8> {
    s.as_bytes().to_vec()
}

fn registry_with_network() -> Pallet {
    let mut p = Pallet::new(4, 0);
    assert_eq!(p.add_network(&1, name("A"), 10, 100, 5, 10, 3), Ok(0));
    p
}

#[test]
fn modules_take_the_next_slot() {
    let mut p = registry_with_network();
    assert_eq!(p.append_module(0, &21, name("m1"), 100), Some(1));
    assert_eq!(p.append_module(0, &22, name("m2"), 101), Some(2));
    assert_eq!(p.get_subnetwork_n(0), 3);
    assert!(p.is_uid_exist_on_network(0, 1));
    assert!(p.is_uid_exist_on_network(0, 2));
    assert!(!p.is_uid_exist_on_network(0, 3));
    assert!(p.is_key_registered_on_network(0, &21));
    assert!(!p.is_key_registered_on_network(0, &23));
    assert_eq!(p.get_name_for_uid(0, 2), name("m2"));
    assert_eq!(p.get_uid_for_name(0, name("m2")), 2);
    assert!(p.if_module_name_exists(0, name("m1")));
    assert!(!p.if_module_name_exists(0, name("m3")));
    assert_eq!(p.get_module_block_at_registration(0, 1), 100);
    assert_eq!(p.get_module_block_at_registration(0, 2), 101);
    assert_eq!(p.get_emission(0), vec![0u64, 0, 0]);
    assert_eq!(p.get_last_update(0).len(), 3);
    assert_eq!(p.get_incentive(0).len(), 3);
    assert_eq!(p.get_dividends(0).len(), 3);
}

#[test]
fn key_and_slot_round_trip() {
    let mut p = registry_with_network();
    assert_eq!(p.append_module(0, &21, name("m1"), 100), Some(1));
    assert_eq!(p.append_module(0, &22, name("m2"), 101), Some(2));
    assert_eq!(p.get_uid_for_key(0, &21), Ok(1));
    assert_eq!(p.get_key_for_uid(0, 1), Ok(21));
    let uid = p.get_uid_for_key(0, &22).unwrap();
    assert_eq!(p.get_key_for_uid(0, uid), Ok(22));
    let key = p.get_key_for_uid(0, 2).unwrap();
    assert_eq!(p.get_uid_for_key(0, &key), Ok(2));
}

#[test]
fn lookups_of_missing_slots_and_keys_fail() {
    let mut p = registry_with_network();
    assert_eq!(p.append_module(0, &21, name("m1"), 100), Some(1));
    assert_eq!(p.get_key_for_uid(0, 0), Err(Error::SlotNotFound));
    assert_eq!(p.get_key_for_uid(0, 7), Err(Error::SlotNotFound));
    assert_eq!(p.get_key_for_uid(3, 1), Err(Error::SlotNotFound));
    assert_eq!(p.get_uid_for_key(0, &99), Err(Error::NotRegistered));
    assert_eq!(p.get_uid_for_key(3, &21), Err(Error::NotRegistered));
    assert_eq!(p.get_stake_for_uid(0, 7), Err(Error::SlotNotFound));
    assert_eq!(p.get_uid_for_name(0, name("nobody")), 0);
    assert_eq!(p.get_name_for_uid(0, 7), Vec::<u8>::new());
}

#[test]
fn a_module_is_recorded_only_where_it_fits() {
    let mut p = registry_with_network();
    assert_eq!(p.append_module(0, &21, name("m1"), 100), Some(1));
    // no such network
    assert_eq!(p.append_module(5, &22, name("m2"), 100), None);
    // the key holds a slot already
    assert_eq!(p.append_module(0, &21, name("m2"), 100), None);
    // the name is taken
    assert_eq!(p.append_module(0, &22, name("m1"), 100), None);
    assert_eq!(p.get_subnetwork_n(0), 2);
    assert_eq!(p.get_emission(0).len(), 2);
    assert!(!p.is_key_registered_on_network(0, &22));
    assert!(!p.if_module_name_exists(0, name("m2")));
}

#[test]
fn stake_is_read_through_the_slot_index() {
    let mut p = registry_with_network();
    // the founder's stake is in the ledger, but the founder holds no slot yet
    assert_eq!(p.get_network_stake(0), 10);
    assert_eq!(p.get_stake_for_key(0, &1), 0);
    assert_eq!(p.append_module(0, &1, name("founder"), 100), Some(1));
    assert_eq!(p.append_module(0, &21, name("m1"), 100), Some(2));
    assert_eq!(p.get_stake_for_key(0, &1), 10);
    assert_eq!(p.get_stake_for_uid(0, 1), Ok(10));
    assert_eq!(p.get_stake_for_key(0, &21), 0);
    assert_eq!(p.get_stake_for_uid(0, 2), Ok(0));
    assert_eq!(p.get_stake_for_key(0, &99), 0);
}

#[test]
fn min_allowed_weights_is_clamped_to_the_population() {
    let mut p = registry_with_network();
    assert_eq!(p.append_module(0, &21, name("m1"), 100), Some(1));
    assert_eq!(p.append_module(0, &22, name("m2"), 100), Some(2));
    assert_eq!(p.get_subnetwork_n(0), 3);
    p.set_min_allowed_weights(0, 10);
    assert_eq!(p.get_min_allowed_weights(0), 3);
    p.set_min_allowed_weights(0, 2);
    assert_eq!(p.get_min_allowed_weights(0), 2);
    p.set_min_allowed_weights(0, 3);
    assert_eq!(p.get_min_allowed_weights(0), 3);
    // configured for a network that does not exist: the population is zero
    p.set_min_allowed_weights(9, 10);
    assert_eq!(p.get_min_allowed_weights(9), 0);
}

#[test]
fn out_of_range_attribute_reads_give_the_default() {
    let mut p = registry_with_network();
    assert_eq!(p.append_module(0, &21, name("m1"), 100), Some(1));
    assert_eq!(p.append_module(0, &22, name("m2"), 100), Some(2));
    assert_eq!(p.get_subnetwork_n(0), 3);
    assert_eq!(p.get_incentive_for_uid(0, 999), 0);
    assert_eq!(p.get_emission_for_uid(0, 999), 0);
    assert_eq!(p.get_dividends_for_uid(0, 999), 0);
    assert_eq!(p.get_last_update_for_uid(0, 999), 0);
    assert_eq!(p.get_pruning_score_for_uid(0, 999), u16::MAX);
    assert_eq!(p.get_pruning_score_for_uid(0, 3), u16::MAX);
    assert_eq!(p.get_incentive_for_uid(7, 0), 0);
    assert_eq!(p.get_pruning_score_for_uid(7, 0), u16::MAX);
}

#[test]
fn in_range_attribute_reads_give_the_stored_value() {
    let mut p = registry_with_network();
    assert_eq!(p.append_module(0, &21, name("m1"), 100), Some(1));
    assert_eq!(p.get_incentive_for_uid(0, 1), 0);
    assert_eq!(p.get_emission_for_uid(0, 1), 0);
    assert_eq!(p.get_dividends_for_uid(0, 1), 0);
    assert_eq!(p.get_pruning_score_for_uid(0, 1), 0);
    p.set_last_update_for_uid(0, 1, 77);
    assert_eq!(p.get_last_update_for_uid(0, 1), 77);
    assert_eq!(p.get_last_update_for_uid(0, 0), 0);
    assert_eq!(p.get_last_update(0), vec![0u64, 77]);
}

#[test]
fn last_update_is_not_written_out_of_range() {
    let mut p = registry_with_network();
    assert_eq!(p.append_module(0, &21, name("m1"), 100), Some(1));
    p.set_last_update_for_uid(0, 2, 77);
    assert_eq!(p.get_last_update(0), vec![0u64, 0]);
    p.set_last_update_for_uid(0, 999, 77);
    assert_eq!(p.get_last_update(0), vec![0u64, 0]);
    p.set_last_update_for_uid(5, 0, 77);
    assert!(p.get_last_update(5).is_empty());
    assert!(!p.if_subnet_exist(5));
}

#[test]
fn membership_lists_the_networks_of_a_key() {
    let mut p = Pallet::new(4, 0);
    assert_eq!(p.add_network(&1, name("A"), 10, 100, 5, 10, 3), Ok(0));
    assert_eq!(p.add_network(&2, name("B"), 20, 100, 5, 10, 3), Ok(1));
    assert_eq!(p.add_network(&3, name("C"), 30, 100, 5, 10, 3), Ok(2));
    assert!(!p.is_key_registered_on_any_network(&21));
    assert!(p.get_registered_networks_for_key(&21).is_empty());
    assert_eq!(p.append_module(2, &21, name("m"), 1), Some(1));
    assert_eq!(p.append_module(0, &21, name("m"), 1), Some(1));
    assert_eq!(p.append_module(1, &22, name("m"), 1), Some(1));
    assert!(p.is_key_registered_on_any_network(&21));
    assert_eq!(p.get_registered_networks_for_key(&21), vec![2u16, 0]);
    assert_eq!(p.get_registered_networks_for_key(&22), vec![1u16]);
    assert_eq!(p.remove_network(name("C")), 2);
    assert_eq!(p.get_registered_networks_for_key(&21), vec![0u16]);
    assert_eq!(p.remove_network(name("A")), 0);
    assert!(!p.is_key_registered_on_any_network(&21));
    assert!(p.is_key_registered_on_any_network(&22));
}

#[test]
fn setters_write_what_getters_read() {
    let mut p = Pallet::new(4, 0);
    p.set_epoch(3, 11);
    p.set_last_adjustment_block(3, 12);
    p.set_blocks_since_last_step(3, 13);
    p.set_registrations_this_block(3, 14);
    p.set_last_mechanism_step_block(3, 15);
    p.set_registrations_this_interval(3, 16);
    p.set_weights_set_rate_limit(3, 17);
    p.set_adjustment_interval(3, 18);
    p.set_immunity_period(3, 19);
    p.set_max_allowed_uids(3, 20);
    p.set_target_registrations_per_interval(3, 21);
    p.set_max_registrations_per_block(3, 22);
    assert_eq!(p.get_epoch(3), 11);
    assert_eq!(p.get_last_adjustment_block(3), 12);
    assert_eq!(p.get_blocks_since_last_step(3), 13);
    assert_eq!(p.get_registrations_this_block(3), 14);
    assert_eq!(p.get_last_mechanism_step_block(3), 15);
    assert_eq!(p.get_registrations_this_interval(3), 16);
    assert_eq!(p.get_weights_set_rate_limit(3), 17);
    assert_eq!(p.get_adjustment_interval(3), 18);
    assert_eq!(p.get_immunity_period(3), 19);
    assert_eq!(p.get_max_allowed_uids(3), 20);
    assert_eq!(p.get_target_registrations_per_interval(3), 21);
    assert_eq!(p.get_max_registrations_per_block(3), 22);
    // a parameter says nothing about whether the network exists
    assert!(!p.if_subnet_exist(3));
    // other networks still read as zero
    assert_eq!(p.get_epoch(2), 0);
    assert_eq!(p.get_pending_emission(3), 0);
    p.set_epoch(3, 1);
    assert_eq!(p.get_epoch(3), 1);
}

#[test]
fn rate_limits_are_kept_per_account_and_globally() {
    let mut p = Pallet::new(4, 0);
    assert_eq!(p.get_last_tx_block(&5), 0);
    p.set_last_tx_block(&5, 1234);
    assert_eq!(p.get_last_tx_block(&5), 1234);
    assert_eq!(p.get_last_tx_block(&6), 0);
    p.set_last_tx_block(&5, 1300);
    assert_eq!(p.get_last_tx_block(&5), 1300);
    p.set_tx_rate_limit(10);
    assert_eq!(p.get_tx_rate_limit(), 10);
}

#[test]
fn attribute_writes_are_guarded_and_read_back() {
    let mut p = registry_with_network();
    assert_eq!(p.append_module(0, &21, name("m1"), 100), Some(1));
    p.set_emission_for_uid(0, 1, 70_000);
    p.set_incentive_for_uid(0, 1, 12);
    p.set_dividends_for_uid(0, 0, 34);
    assert_eq!(p.get_emission(0), vec![0u64, 70_000]);
    assert_eq!(p.get_incentive(0), vec![0u16, 12]);
    assert_eq!(p.get_dividends(0), vec![34u16, 0]);
    assert_eq!(p.get_emission_for_uid(0, 1), 70_000);
    assert_eq!(p.get_incentive_for_uid(0, 1), 12);
    assert_eq!(p.get_dividends_for_uid(0, 0), 34);
    // out of range: nothing is written and the vectors keep their length
    p.set_emission_for_uid(0, 2, 5);
    p.set_incentive_for_uid(0, 999, 5);
    p.set_dividends_for_uid(3, 0, 5);
    assert_eq!(p.get_emission(0), vec![0u64, 70_000]);
    assert_eq!(p.get_incentive(0), vec![0u16, 12]);
    assert!(p.get_dividends(3).is_empty());
}

#[test]
fn pruning_score_is_the_low_sixteen_bits_of_the_emission() {
    let mut p = registry_with_network();
    assert_eq!(p.append_module(0, &21, name("m1"), 100), Some(1));
    p.set_emission_for_uid(0, 0, 65_535);
    p.set_emission_for_uid(0, 1, 70_000);
    assert_eq!(p.get_pruning_score_for_uid(0, 0), 65_535);
    assert_eq!(p.get_pruning_score_for_uid(0, 1), 4_464);
    p.set_emission_for_uid(0, 1, 65_536);
    assert_eq!(p.get_pruning_score_for_uid(0, 1), 0);
    assert_eq!(p.get_pruning_score_for_uid(0, 2), u16::MAX);
}
