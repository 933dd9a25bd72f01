use pallet_subspace::registry::Pallet;
use pallet_subspace::types::{Error, Event, SubnetInfo, SubnetParams};

fn name(s: &str) -> Vec<u8> {
    s.as_bytes().to_vec()
}

fn create(p: &mut Pallet, founder: u64, n: &str, stake: u64) -> Result<u16, Error> {
    p.add_network(&founder, name(n), stake, 100, 5, 10, 3)
}

#[test]
fn new_registry_is_empty() {
    let p = Pallet::new(4, 1000);
    assert_eq!(p.get_max_allowed_subnets(), 4);
    assert_eq!(p.get_total_networks(), 0);
    assert_eq!(p.get_number_of_subnets(), 0);
    assert_eq!(p.get_block_emission(), 1000);
    assert_eq!(p.get_tx_rate_limit(), 0);
    assert!(!p.if_subnet_exist(0));
    assert!(p.get_subnets_info().is_empty());
    assert_eq!(p.get_subnet_info(0), None);
}

#[test]
fn creation_below_capacity_appends_identifiers() {
    let mut p = Pallet::new(4, 0);
    assert_eq!(create(&mut p, 1, "A", 10), Ok(0));
    assert_eq!(create(&mut p, 2, "B", 5), Ok(1));
    assert_eq!(create(&mut p, 3, "C", 20), Ok(2));
    assert_eq!(p.get_total_networks(), 3);
    assert_eq!(p.get_number_of_subnets(), 3);
    assert!(p.if_subnet_exist(0) && p.if_subnet_exist(1) && p.if_subnet_exist(2));
    assert!(!p.if_subnet_exist(3));
}

#[test]
fn creation_sets_parameters_founder_and_slot_count() {
    let mut p = Pallet::new(4, 0);
    assert_eq!(p.add_network(&7, name("A"), 10, 100, 5, 1, 3), Ok(0));
    assert_eq!(p.get_subnetwork_n(0), 1);
    assert_eq!(p.get_max_allowed_uids(0), 100);
    assert_eq!(p.get_immunity_period(0), 5);
    assert_eq!(p.get_min_allowed_weights(0), 1);
    assert_eq!(p.get_epoch(0), 3);
    assert_eq!(p.get_registrations_this_interval(0), 0);
    assert!(p.is_network_founder(0, &7));
    assert!(!p.is_network_founder(0, &8));
    assert_eq!(p.get_network_stake(0), 10);
    assert_eq!(p.get_emission(0), vec![0u64]);
    assert_eq!(p.get_incentive(0), vec![0u16]);
    assert_eq!(p.get_dividends(0), vec![0u16]);
    assert_eq!(p.get_last_update(0), vec![0u64]);
}

#[test]
fn creation_with_a_registered_name_is_turned_down() {
    let mut p = Pallet::new(4, 0);
    assert_eq!(create(&mut p, 1, "A", 10), Ok(0));
    let _ = p.take_events();
    assert_eq!(create(&mut p, 2, "A", 50), Err(Error::DuplicateName));
    assert_eq!(p.get_total_networks(), 1);
    assert_eq!(p.get_network_stake(0), 10);
    assert!(p.is_network_founder(0, &1));
    assert!(p.take_events().is_empty());
}

#[test]
fn do_add_network_checks_the_name_and_writes_nothing() {
    let mut p = Pallet::new(4, 0);
    assert_eq!(p.do_add_network(&1, name("A"), 10, 5, 10, 100, 3), Ok(()));
    assert_eq!(p.get_total_networks(), 0);
    assert!(!p.if_subnet_name_exists(name("A")));
    assert_eq!(create(&mut p, 1, "A", 10), Ok(0));
    assert_eq!(p.do_add_network(&2, name("A"), 10, 5, 10, 100, 3), Err(Error::DuplicateName));
    assert_eq!(p.do_add_network(&2, name("B"), 10, 5, 10, 100, 3), Ok(()));
}

#[test]
fn name_and_identifier_round_trip() {
    let mut p = Pallet::new(4, 0);
    assert_eq!(create(&mut p, 1, "alpha", 10), Ok(0));
    assert_eq!(create(&mut p, 2, "beta", 5), Ok(1));
    assert!(p.if_subnet_name_exists(name("alpha")));
    assert_eq!(p.get_netuid_for_name(name("alpha")), 0);
    assert_eq!(p.get_netuid_for_name(name("beta")), 1);
    assert_eq!(p.get_name_for_netuid(p.get_netuid_for_name(name("alpha"))), name("alpha"));
    assert_eq!(p.get_name_for_netuid(p.get_netuid_for_name(name("beta"))), name("beta"));
    assert_eq!(p.get_netuid_for_name(p.get_name_for_netuid(1)), 1);
}

#[test]
fn unknown_name_and_identifier_read_as_defaults() {
    let mut p = Pallet::new(4, 0);
    assert_eq!(create(&mut p, 1, "alpha", 10), Ok(0));
    assert!(!p.if_subnet_name_exists(name("gamma")));
    assert_eq!(p.get_netuid_for_name(name("gamma")), 0);
    assert_eq!(p.get_name_for_netuid(9), Vec::<u8>::new());
    assert_eq!(p.get_subnetwork_n(9), 0);
    assert_eq!(p.get_network_stake(9), 0);
}

#[test]
fn eviction_scan_seeded_with_zero_ends_on_identifier_zero() {
    let mut p = Pallet::new(2, 0);
    assert_eq!(create(&mut p, 1, "A", 10), Ok(0));
    assert_eq!(create(&mut p, 2, "B", 5), Ok(1));
    // both networks hold stake: the scan never leaves its starting point
    assert_eq!(p.least_staked_netuid(20), 0);
    assert_eq!(create(&mut p, 3, "C", 20), Ok(0));
    assert!(!p.if_subnet_name_exists(name("A")));
    assert!(p.if_subnet_name_exists(name("B")));
    assert_eq!(p.get_netuid_for_name(name("B")), 1);
    assert_eq!(p.get_netuid_for_name(name("C")), 0);
    assert_eq!(p.get_name_for_netuid(0), name("C"));
    assert_eq!(p.get_network_stake(0), 20);
    assert_eq!(p.get_network_stake(1), 5);
    assert_eq!(p.get_total_networks(), 2);
    assert_eq!(p.get_number_of_subnets(), 2);
    assert_eq!(p.least_staked_netuid(1), 0);
    assert_eq!(p.least_staked_netuid(0), 0);
}

#[test]
fn creation_at_capacity_evicts_the_unstaked_network_and_reuses_its_identifier() {
    let mut p = Pallet::new(2, 0);
    assert_eq!(create(&mut p, 1, "A", 10), Ok(0));
    assert_eq!(create(&mut p, 2, "B", 0), Ok(1));
    assert_eq!(p.least_staked_netuid(20), 1);
    assert_eq!(create(&mut p, 3, "C", 20), Ok(1));
    assert!(p.if_subnet_name_exists(name("A")));
    assert!(!p.if_subnet_name_exists(name("B")));
    assert_eq!(p.get_netuid_for_name(name("C")), 1);
    assert_eq!(p.get_name_for_netuid(1), name("C"));
    assert!(p.is_network_founder(1, &3));
    assert_eq!(p.get_network_stake(1), 20);
    assert_eq!(p.get_network_stake(0), 10);
    assert_eq!(p.get_total_networks(), 2);
    assert_eq!(p.get_number_of_subnets(), 2);
}

#[test]
fn eviction_scan_ends_on_the_last_unstaked_network() {
    let mut p = Pallet::new(3, 0);
    assert_eq!(create(&mut p, 1, "A", 0), Ok(0));
    assert_eq!(create(&mut p, 2, "B", 0), Ok(1));
    assert_eq!(create(&mut p, 3, "C", 7), Ok(2));
    assert_eq!(p.least_staked_netuid(1), 1);
    assert_eq!(p.least_staked_netuid(0), 0);
}

#[test]
fn creation_without_stake_at_capacity_evicts_identifier_zero() {
    let mut p = Pallet::new(2, 0);
    assert_eq!(create(&mut p, 1, "A", 10), Ok(0));
    assert_eq!(create(&mut p, 2, "B", 0), Ok(1));
    assert_eq!(create(&mut p, 3, "C", 0), Ok(0));
    assert!(!p.if_subnet_name_exists(name("A")));
    assert!(p.if_subnet_name_exists(name("B")));
    assert_eq!(p.get_netuid_for_name(name("C")), 0);
    assert_eq!(p.get_network_stake(0), 0);
    assert_eq!(p.get_total_networks(), 2);
}

#[test]
fn registry_without_capacity_keeps_one_network() {
    let mut p = Pallet::new(0, 0);
    assert_eq!(create(&mut p, 1, "A", 5), Ok(0));
    assert_eq!(p.get_total_networks(), 1);
    assert_eq!(create(&mut p, 2, "B", 5), Ok(0));
    assert_eq!(p.get_total_networks(), 1);
    assert!(!p.if_subnet_name_exists(name("A")));
    assert_eq!(p.get_name_for_netuid(0), name("B"));
}

#[test]
fn creation_after_a_removal_takes_the_live_count_as_identifier() {
    let mut p = Pallet::new(4, 0);
    assert_eq!(create(&mut p, 1, "A", 10), Ok(0));
    assert_eq!(create(&mut p, 2, "B", 20), Ok(1));
    assert_eq!(create(&mut p, 3, "C", 30), Ok(2));
    assert_eq!(p.remove_network(name("B")), 1);
    assert_eq!(p.get_total_networks(), 2);
    // the live count is 2, and identifier 2 is what the new network gets
    assert_eq!(create(&mut p, 4, "D", 40), Ok(2));
    assert_eq!(p.get_netuid_for_name(name("C")), 2);
    assert_eq!(p.get_netuid_for_name(name("D")), 2);
    assert_eq!(p.get_name_for_netuid(2), name("C"));
    assert!(p.is_network_founder(2, &4));
    assert_eq!(p.get_network_stake(2), 70);
    assert_eq!(p.get_total_networks(), 3);
    assert_eq!(p.get_number_of_subnets(), 2);
}

#[test]
fn removal_erases_every_record_of_the_network() {
    let mut p = Pallet::new(4, 0);
    assert_eq!(create(&mut p, 1, "A", 10), Ok(0));
    assert_eq!(create(&mut p, 2, "B", 20), Ok(1));
    assert_eq!(p.append_module(1, &2, name("m1"), 11), Some(1));
    assert_eq!(p.append_module(1, &5, name("m2"), 12), Some(2));
    p.set_last_adjustment_block(1, 9);
    p.set_blocks_since_last_step(1, 8);
    p.set_registrations_this_block(1, 7);
    p.set_last_mechanism_step_block(1, 6);
    p.set_registrations_this_interval(1, 5);
    p.set_weights_set_rate_limit(1, 4);
    p.set_adjustment_interval(1, 3);
    p.set_target_registrations_per_interval(1, 2);
    p.set_max_registrations_per_block(1, 1);
    p.set_last_update_for_uid(1, 2, 99);

    assert_eq!(p.remove_network(name("B")), 1);

    assert!(!p.if_subnet_exist(1));
    assert!(!p.if_subnet_name_exists(name("B")));
    assert_eq!(p.get_subnet_info(1), None);
    assert_eq!(p.get_subnetwork_n(1), 0);
    assert_eq!(p.get_network_stake(1), 0);
    assert_eq!(p.get_epoch(1), 0);
    assert_eq!(p.get_max_allowed_uids(1), 0);
    assert_eq!(p.get_immunity_period(1), 0);
    assert_eq!(p.get_min_allowed_weights(1), 0);
    assert_eq!(p.get_last_adjustment_block(1), 0);
    assert_eq!(p.get_blocks_since_last_step(1), 0);
    assert_eq!(p.get_registrations_this_block(1), 0);
    assert_eq!(p.get_last_mechanism_step_block(1), 0);
    assert_eq!(p.get_registrations_this_interval(1), 0);
    assert_eq!(p.get_pending_emission(1), 0);
    assert_eq!(p.get_weights_set_rate_limit(1), 0);
    assert_eq!(p.get_adjustment_interval(1), 0);
    assert_eq!(p.get_target_registrations_per_interval(1), 0);
    assert_eq!(p.get_max_registrations_per_block(1), 0);
    assert!(p.get_emission(1).is_empty());
    assert!(p.get_incentive(1).is_empty());
    assert!(p.get_dividends(1).is_empty());
    assert!(p.get_last_update(1).is_empty());
    assert!(!p.is_network_founder(1, &2));
    assert!(!p.is_uid_exist_on_network(1, 1));
    assert!(!p.is_key_registered_on_network(1, &2));
    assert_eq!(p.get_key_for_uid(1, 1), Err(Error::SlotNotFound));
    assert_eq!(p.get_uid_for_key(1, &5), Err(Error::NotRegistered));
    assert_eq!(p.get_name_for_uid(1, 1), Vec::<u8>::new());
    assert!(!p.if_module_name_exists(1, name("m1")));
    assert_eq!(p.get_uid_for_name(1, name("m2")), 0);
    assert_eq!(p.get_module_block_at_registration(1, 1), 0);
    assert_eq!(p.get_stake_for_key(1, &2), 0);
    assert!(!p.is_key_registered_on_any_network(&5));
    assert!(p.get_registered_networks_for_key(&2).is_empty());
    assert_eq!(p.get_total_networks(), 1);

    // the other network is untouched
    assert!(p.if_subnet_exist(0));
    assert_eq!(p.get_netuid_for_name(name("A")), 0);
    assert_eq!(p.get_network_stake(0), 10);
    assert_eq!(p.get_epoch(0), 3);
}

#[test]
fn second_removal_is_a_no_op_returning_zero() {
    let mut p = Pallet::new(4, 0);
    assert_eq!(create(&mut p, 1, "A", 10), Ok(0));
    assert_eq!(create(&mut p, 2, "B", 20), Ok(1));
    assert_eq!(p.remove_network(name("B")), 1);
    let _ = p.take_events();
    assert_eq!(p.remove_network(name("B")), 0);
    assert!(p.take_events().is_empty());
    assert!(p.if_subnet_exist(0));
    assert_eq!(p.get_total_networks(), 1);
    assert_eq!(p.get_network_stake(0), 10);
}

#[test]
fn removal_of_an_unknown_name_changes_nothing() {
    let mut p = Pallet::new(4, 0);
    assert_eq!(create(&mut p, 1, "A", 10), Ok(0));
    assert_eq!(p.remove_network(name("nobody")), 0);
    assert!(p.if_subnet_exist(0));
    assert_eq!(p.get_netuid_for_name(name("A")), 0);
    assert_eq!(p.get_total_networks(), 1);
}

#[test]
fn removal_by_identifier_resolves_the_name() {
    let mut p = Pallet::new(4, 0);
    assert_eq!(create(&mut p, 1, "A", 10), Ok(0));
    assert_eq!(create(&mut p, 2, "B", 20), Ok(1));
    assert_eq!(p.remove_network_for_netuid(1), 1);
    assert!(!p.if_subnet_exist(1));
    assert!(!p.if_subnet_name_exists(name("B")));
    // no network under that identifier: nothing to remove
    assert_eq!(p.remove_network_for_netuid(5), 0);
    assert!(p.if_subnet_exist(0));
    assert_eq!(p.get_total_networks(), 1);
}

#[test]
fn events_record_creations_releases_and_removals() {
    let mut p = Pallet::new(4, 0);
    assert_eq!(create(&mut p, 1, "A", 10), Ok(0));
    assert_eq!(create(&mut p, 2, "B", 20), Ok(1));
    assert_eq!(
        p.take_events(),
        vec![Event::NetworkAdded(0, name("A")), Event::NetworkAdded(1, name("B"))]
    );
    assert!(p.take_events().is_empty());
    assert_eq!(p.remove_network(name("A")), 0);
    assert_eq!(
        p.take_events(),
        vec![Event::StakeReleased(0, 1, 10), Event::NetworkRemoved(0)]
    );
}

#[test]
fn eviction_records_release_removal_and_creation_in_that_order() {
    let mut p = Pallet::new(1, 0);
    assert_eq!(create(&mut p, 1, "A", 10), Ok(0));
    let _ = p.take_events();
    assert_eq!(create(&mut p, 2, "B", 3), Ok(0));
    assert_eq!(
        p.take_events(),
        vec![
            Event::StakeReleased(0, 1, 10),
            Event::NetworkRemoved(0),
            Event::NetworkAdded(0, name("B")),
        ]
    );
}

#[test]
fn aggregate_equals_the_sum_of_the_staked_amounts() {
    let mut p = Pallet::new(4, 0);
    assert_eq!(create(&mut p, 1, "A", 10), Ok(0));
    assert_eq!(create(&mut p, 2, "B", 20), Ok(1));
    assert_eq!(p.append_module(0, &1, name("founder"), 1), Some(1));
    assert_eq!(p.append_module(1, &2, name("founder"), 1), Some(1));
    assert_eq!(p.get_stake_for_key(0, &1), 10);
    assert_eq!(p.get_stake_for_key(1, &2), 20);
    assert_eq!(p.get_network_stake(0), p.get_stake_for_key(0, &1));
    assert_eq!(p.get_network_stake(1), p.get_stake_for_key(1, &2));
    assert_eq!(p.remove_network(name("A")), 0);
    assert_eq!(p.get_network_stake(0), 0);
    assert_eq!(p.get_stake_for_key(0, &1), 0);
    assert_eq!(p.get_network_stake(1), 20);
}

#[test]
fn subnet_info_summarises_an_existing_network() {
    let mut p = Pallet::new(4, 0);
    assert_eq!(p.add_network(&1, name("A"), 10, 100, 5, 10, 3), Ok(0));
    p.set_blocks_since_last_step(0, 42);
    assert_eq!(
        p.get_subnet_info(0),
        Some(SubnetInfo {
            netuid: 0,
            name: name("A"),
            immunity_period: 5,
            min_allowed_weights: 1,
            subnetwork_n: 1,
            max_allowed_uids: 100,
            blocks_since_last_step: 42,
            epoch: 3,
        })
    );
    assert_eq!(p.get_subnet_info(1), None);
}

#[test]
fn subnets_info_lists_every_network_in_order() {
    let mut p = Pallet::new(4, 0);
    assert_eq!(create(&mut p, 1, "A", 10), Ok(0));
    assert_eq!(create(&mut p, 2, "B", 20), Ok(1));
    let infos = p.get_subnets_info();
    assert_eq!(infos.len(), 2);
    assert_eq!(infos[0], p.get_subnet_info(0));
    assert_eq!(infos[1], p.get_subnet_info(1));
    assert_eq!(infos[1].as_ref().map(|i| i.name.clone()), Some(name("B")));
}

#[test]
fn default_parameters_come_from_network_zero() {
    let mut p = Pallet::new(4, 0);
    assert_eq!(
        p.default_subnet_params(),
        SubnetParams { immunity_period: 0, min_allowed_weights: 0, max_allowed_uids: 0, epoch: 0 }
    );
    p.set_immunity_period(0, 7);
    p.set_min_allowed_weights(0, 9);
    p.set_max_allowed_uids(0, 100);
    p.set_epoch(0, 5);
    assert_eq!(
        p.default_subnet_params(),
        SubnetParams { immunity_period: 9, min_allowed_weights: 7, max_allowed_uids: 100, epoch: 5 }
    );
}

#[test]
fn creation_on_registration_uses_the_default_parameters() {
    let mut p = Pallet::new(4, 0);
    assert_eq!(p.add_network(&1, name("A"), 10, 100, 7, 9, 5), Ok(0));
    assert_eq!(p.add_network_from_registration(name("B"), 4, &2), Ok(1));
    assert_eq!(p.get_max_allowed_uids(1), 100);
    assert_eq!(p.get_immunity_period(1), 9);
    assert_eq!(p.get_epoch(1), 5);
    assert!(p.is_network_founder(1, &2));
    assert_eq!(p.get_network_stake(1), 4);
    assert_eq!(
        p.add_network_from_registration(name("B"), 4, &3),
        Err(Error::DuplicateName)
    );
}

#[test]
fn epoch_is_valid_below_the_largest_value() {
    assert!(Pallet::if_epoch_is_valid(0));
    assert!(Pallet::if_epoch_is_valid(u16::MAX - 1));
    assert!(!Pallet::if_epoch_is_valid(u16::MAX));
}

#[test]
fn counters_take_a_creation_unless_they_would_overflow() {
    let mut p = Pallet::new(2, 0);
    assert!(p.add_network_fits(u64::MAX));
    assert_eq!(create(&mut p, 1, "A", u64::MAX), Ok(0));
    assert_eq!(p.get_network_stake(0), u64::MAX);
    assert_eq!(create(&mut p, 2, "B", 0), Ok(1));
    // the registry is full: the network without stake makes room
    assert!(p.add_network_fits(u64::MAX));
    // without incoming stake network 0 makes room, and its aggregate goes
    assert!(p.add_network_fits(0));
    assert_eq!(p.remove_network(name("B")), 1);
    // there is room, and the live count is a fresh identifier
    assert!(p.add_network_fits(u64::MAX));
    assert_eq!(p.remove_network(name("A")), 0);
    assert_eq!(create(&mut p, 1, "A", 1), Ok(0));
    assert_eq!(create(&mut p, 2, "B", u64::MAX), Ok(1));
    assert_eq!(p.remove_network(name("A")), 0);
    // the live count is 1, and identifier 1 holds the largest aggregate
    assert!(!p.add_network_fits(1));
    assert!(p.add_network_fits(0));
}
