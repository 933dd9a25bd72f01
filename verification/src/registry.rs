//! The registry itself: the stores, and the operations on them.

use vstd::prelude::*;
use crate::state::{first_key_of, last_key_of, networks_of, released, stake_sum, State};
use crate::state::{lemma_add_network_wf, lemma_append_module_wf, lemma_remove_network_wf};
use crate::state::{lemma_networks_counted, lemma_set_last_update_wf};
use crate::state::{lemma_set_dividends_wf, lemma_set_emission_wf, lemma_set_incentive_wf};
use crate::store::{get_or, has_key, lemma_del, put, value_of, Store};
use crate::types::{AccountId, Error, Event, EventView, SubnetInfo, SubnetParams};

verus! {

/// A copy of `v`.
fn copy_of<T: Copy>(v: &Vec<T>) -> (r: Vec<T>)
    ensures
        r@ == v@,
{
    let mut r: Vec<T> = Vec::new();
    let mut i: usize = 0;
    while i < v.len()
        invariant
            i <= v.len(),
            r@ == v@.take(i as int),
        decreases v.len() - i,
    {
        r.push(v[i]);
        proof {
            assert(v@.take(i as int + 1) =~= v@.take(i as int).push(v@[i as int]));
        }
        i += 1;
    }
    proof {
        assert(v@.take(v.len() as int) =~= v@);
    }
    r
}

/// The value that `store` holds for `netuid`, zero where it holds none.
fn read_u16(store: &Store<u16, u16>, netuid: u16) -> (r: u16)
    requires
        store.wf(),
    ensures
        r == get_or(store@, netuid, 0u16),
{
    match store.get(&netuid) {
        Some(v) => *v,
        None => 0,
    }
}

/// The value that `store` holds for `netuid`, zero where it holds none.
fn read_u64(store: &Store<u16, u64>, netuid: u16) -> (r: u64)
    requires
        store.wf(),
    ensures
        r == get_or(store@, netuid, 0u64),
{
    match store.get(&netuid) {
        Some(v) => *v,
        None => 0,
    }
}

/// The vector that `store` holds for `netuid`, the empty one where it holds
/// none.
fn read_vec<T: Copy>(store: &Store<u16, Vec<T>>, netuid: u16) -> (r: Vec<T>)
    requires
        store.wf(),
    ensures
        r@ == get_or(store@, netuid, Seq::<T>::empty()),
{
    match store.get(&netuid) {
        Some(v) => copy_of(v),
        None => Vec::new(),
    }
}

/// The registry of networks, modules and stake.
pub struct Pallet {
    max_allowed_subnets: u16,
    total_networks: u16,
    block_emission: u64,
    tx_rate_limit: u64,
    subnetwork_n: Store<u16, u16>,
    subnet_namespace: Store<Vec<u8>, u16>,
    subnet_founder: Store<u16, AccountId>,
    epoch: Store<u16, u16>,
    max_allowed_uids: Store<u16, u16>,
    immunity_period: Store<u16, u16>,
    min_allowed_weights: Store<u16, u16>,
    registrations_this_interval: Store<u16, u16>,
    registrations_this_block: Store<u16, u16>,
    last_adjustment_block: Store<u16, u64>,
    blocks_since_last_step: Store<u16, u64>,
    last_mechanism_step_block: Store<u16, u64>,
    pending_emission: Store<u16, u64>,
    weights_set_rate_limit: Store<u16, u64>,
    adjustment_interval: Store<u16, u16>,
    target_registrations_per_interval: Store<u16, u16>,
    max_registrations_per_block: Store<u16, u16>,
    emission: Store<u16, Vec<u64>>,
    incentive: Store<u16, Vec<u16>>,
    dividends: Store<u16, Vec<u16>>,
    last_update: Store<u16, Vec<u64>>,
    uids: Store<(u16, AccountId), u16>,
    keys: Store<(u16, u16), AccountId>,
    names: Store<(u16, u16), Vec<u8>>,
    module_namespace: Store<(u16, Vec<u8>), u16>,
    block_at_registration: Store<(u16, u16), u64>,
    stake: Store<(u16, AccountId), u64>,
    total_subnet_stake: Store<u16, u64>,
    is_network_member: Store<(AccountId, u16), bool>,
    last_tx_block: Store<AccountId, u64>,
    events: Vec<Event>,
}

impl View for Pallet {
    type V = State;

    closed spec fn view(&self) -> State {
        State {
            max_allowed_subnets: self.max_allowed_subnets,
            total_networks: self.total_networks,
            block_emission: self.block_emission,
            tx_rate_limit: self.tx_rate_limit,
            subnetwork_n: self.subnetwork_n@,
            subnet_namespace: self.subnet_namespace@,
            subnet_founder: self.subnet_founder@,
            epoch: self.epoch@,
            max_allowed_uids: self.max_allowed_uids@,
            immunity_period: self.immunity_period@,
            min_allowed_weights: self.min_allowed_weights@,
            registrations_this_interval: self.registrations_this_interval@,
            registrations_this_block: self.registrations_this_block@,
            last_adjustment_block: self.last_adjustment_block@,
            blocks_since_last_step: self.blocks_since_last_step@,
            last_mechanism_step_block: self.last_mechanism_step_block@,
            pending_emission: self.pending_emission@,
            weights_set_rate_limit: self.weights_set_rate_limit@,
            adjustment_interval: self.adjustment_interval@,
            target_registrations_per_interval: self.target_registrations_per_interval@,
            max_registrations_per_block: self.max_registrations_per_block@,
            emission: self.emission@,
            incentive: self.incentive@,
            dividends: self.dividends@,
            last_update: self.last_update@,
            uids: self.uids@,
            keys: self.keys@,
            names: self.names@,
            module_namespace: self.module_namespace@,
            block_at_registration: self.block_at_registration@,
            stake: self.stake@,
            total_subnet_stake: self.total_subnet_stake@,
            is_network_member: self.is_network_member@,
            last_tx_block: self.last_tx_block@,
            events: Seq::new(self.events@.len(), |i: int| self.events@[i]@),
        }
    }
}

impl Pallet {
    /// What holds of the registry between any two operations: see
    /// `State::wf`.
    pub open spec fn wf(&self) -> bool {
        self@.wf()
    }

    /// A registry without networks that makes room by eviction once
    /// `max_allowed_subnets` networks exist.
    pub fn new(max_allowed_subnets: u16, block_emission: u64) -> (p: Pallet)
        ensures
            p.wf(),
            p@ == State::empty(max_allowed_subnets, block_emission),
    {
        let p = Pallet {
            max_allowed_subnets,
            total_networks: 0,
            block_emission,
            tx_rate_limit: 0,
            subnetwork_n: Store::new(),
            subnet_namespace: Store::new(),
            subnet_founder: Store::new(),
            epoch: Store::new(),
            max_allowed_uids: Store::new(),
            immunity_period: Store::new(),
            min_allowed_weights: Store::new(),
            registrations_this_interval: Store::new(),
            registrations_this_block: Store::new(),
            last_adjustment_block: Store::new(),
            blocks_since_last_step: Store::new(),
            last_mechanism_step_block: Store::new(),
            pending_emission: Store::new(),
            weights_set_rate_limit: Store::new(),
            adjustment_interval: Store::new(),
            target_registrations_per_interval: Store::new(),
            max_registrations_per_block: Store::new(),
            emission: Store::new(),
            incentive: Store::new(),
            dividends: Store::new(),
            last_update: Store::new(),
            uids: Store::new(),
            keys: Store::new(),
            names: Store::new(),
            module_namespace: Store::new(),
            block_at_registration: Store::new(),
            stake: Store::new(),
            total_subnet_stake: Store::new(),
            is_network_member: Store::new(),
            last_tx_block: Store::new(),
            events: Vec::new(),
        };
        proof {
            assert(p@.events =~= Seq::<EventView>::empty());
            assert(stake_sum(p@.stake, 0) == 0);
        }
        p
    }

    /// Hands out what was recorded for the surroundings since the last call,
    /// oldest first, and forgets it.
    pub fn take_events(&mut self) -> (r: Vec<Event>)
        requires
            old(self).wf(),
        ensures
            final(self).wf(),
            r@.len() == old(self)@.events.len(),
            forall|i: int| 0 <= i < r@.len() ==> (#[trigger] r@[i])@ == old(self)@.events[i],
            final(self)@ == (State { events: Seq::empty(), ..old(self)@ }),
    {
        let mut out: Vec<Event> = Vec::new();
        core::mem::swap(&mut self.events, &mut out);
        proof {
            assert(self@.events =~= Seq::<EventView>::empty());
        }
        out
    }

    /// How many networks may exist before a creation evicts one.
    pub fn get_max_allowed_subnets(&self) -> (r: u16)
        ensures
            r == self@.max_allowed_subnets,
    {
        self.max_allowed_subnets
    }

    /// The live network count.
    pub fn get_total_networks(&self) -> (r: u16)
        ensures
            r == self@.total_networks,
    {
        self.total_networks
    }

    /// Whether a network exists under `netuid`: whether the slot-count store
    /// has an entry for it. No other read tells a missing network from one
    /// whose values are zero.
    pub fn if_subnet_exist(&self, netuid: u16) -> (r: bool)
        requires
            self.wf(),
        ensures
            r == self@.exists_network(netuid),
    {
        self.subnetwork_n.contains_key(&netuid)
    }

    /// The aggregate stake of `netuid`, zero where none is recorded.
    pub fn get_network_stake(&self, netuid: u16) -> (r: u64)
        requires
            self.wf(),
        ensures
            r == self@.network_stake(netuid),
    {
        read_u64(&self.total_subnet_stake, netuid)
    }

    /// Whether `epoch` is allowed as an epoch length: any but the largest.
    pub fn if_epoch_is_valid(epoch: u16) -> (r: bool)
        ensures
            r == (epoch < u16::MAX),
    {
        epoch < u16::MAX
    }

    /// The number of filled slots of `netuid`, zero where there is no such
    /// network.
    pub fn get_subnetwork_n(&self, netuid: u16) -> (r: u16)
        requires
            self.wf(),
        ensures
            r == get_or(self@.subnetwork_n, netuid, 0u16),
    {
        read_u16(&self.subnetwork_n, netuid)
    }

    /// Whether `key` founded `netuid`. Where no founder is recorded the
    /// account 0 stands in.
    pub fn is_network_founder(&self, netuid: u16, key: &AccountId) -> (r: bool)
        requires
            self.wf(),
        ensures
            r == (get_or(self@.subnet_founder, netuid, 0u64) == *key),
    {
        let founder: AccountId = match self.subnet_founder.get(&netuid) {
            Some(v) => *v,
            None => 0,
        };
        founder == *key
    }

    /// Whether a network is registered under `name`.
    pub fn if_subnet_name_exists(&self, name: Vec<u8>) -> (r: bool)
        requires
            self.wf(),
        ensures
            r == has_key(self@.subnet_namespace, name@),
    {
        self.subnet_namespace.contains_key(&name)
    }

    /// The identifier registered under `name`, zero where there is none: a
    /// zero says nothing about whether the name exists.
    pub fn get_netuid_for_name(&self, name: Vec<u8>) -> (r: u16)
        requires
            self.wf(),
        ensures
            r == get_or(self@.subnet_namespace, name@, 0u16),
    {
        match self.subnet_namespace.get(&name) {
            Some(v) => *v,
            None => 0,
        }
    }

    /// The name registered for `netuid`, the empty name where there is none.
    pub fn get_name_for_netuid(&self, netuid: u16) -> (r: Vec<u8>)
        requires
            self.wf(),
        ensures
            r@ == self@.name_of(netuid),
    {
        let ghost s = self@.subnet_namespace;
        let mut i: usize = 0;
        proof {
            assert(s.skip(0) =~= s);
        }
        while i < self.subnet_namespace.len()
            invariant
                i <= s.len(),
                s == self@.subnet_namespace,
                first_key_of(s, netuid) == first_key_of(s.skip(i as int), netuid),
            decreases s.len() - i,
        {
            proof {
                assert(s.skip(i as int).skip(1) =~= s.skip(i as int + 1));
            }
            if *self.subnet_namespace.value_at(i) == netuid {
                return copy_of(self.subnet_namespace.key_at(i));
            }
            i += 1;
        }
        Vec::new()
    }

    /// Whether slot `uid` of `netuid` has a key.
    pub fn is_uid_exist_on_network(&self, netuid: u16, uid: u16) -> (r: bool)
        requires
            self.wf(),
        ensures
            r == has_key(self@.keys, (netuid, uid)),
    {
        self.keys.contains_key(&(netuid, uid))
    }

    /// Whether `key` holds a slot on `netuid`.
    pub fn is_key_registered_on_network(&self, netuid: u16, key: &AccountId) -> (r: bool)
        requires
            self.wf(),
        ensures
            r == has_key(self@.uids, (netuid, *key)),
    {
        self.uids.contains_key(&(netuid, *key))
    }

    /// The key of slot `module_uid` of `netuid`.
    pub fn get_key_for_uid(&self, netuid: u16, module_uid: u16) -> (r: Result<AccountId, Error>)
        requires
            self.wf(),
        ensures
            r == self@.key_for_uid(netuid, module_uid),
    {
        match self.keys.get(&(netuid, module_uid)) {
            Some(v) => Ok(*v),
            None => Err(Error::SlotNotFound),
        }
    }

    /// The slot that `key` holds on `netuid`.
    pub fn get_uid_for_key(&self, netuid: u16, key: &AccountId) -> (r: Result<u16, Error>)
        requires
            self.wf(),
        ensures
            r == self@.uid_for_key(netuid, *key),
    {
        match self.uids.get(&(netuid, *key)) {
            Some(v) => Ok(*v),
            None => Err(Error::NotRegistered),
        }
    }

    /// The slot of the module called `name` on `netuid`, zero where there is
    /// none.
    pub fn get_uid_for_name(&self, netuid: u16, name: Vec<u8>) -> (r: u16)
        requires
            self.wf(),
        ensures
            r == get_or(self@.module_namespace, (netuid, name@), 0u16),
    {
        match self.module_namespace.get(&(netuid, name)) {
            Some(v) => *v,
            None => 0,
        }
    }

    /// The name of the module in slot `uid` of `netuid`, the empty name where
    /// there is none.
    pub fn get_name_for_uid(&self, netuid: u16, uid: u16) -> (r: Vec<u8>)
        requires
            self.wf(),
        ensures
            r@ == get_or(self@.names, (netuid, uid), Seq::<u8>::empty()),
    {
        match self.names.get(&(netuid, uid)) {
            Some(v) => copy_of(v),
            None => Vec::new(),
        }
    }

    /// Whether a module on `netuid` is called `name`.
    pub fn if_module_name_exists(&self, netuid: u16, name: Vec<u8>) -> (r: bool)
        requires
            self.wf(),
        ensures
            r == has_key(self@.module_namespace, (netuid, name@)),
    {
        self.module_namespace.contains_key(&(netuid, name))
    }

    /// The stake of the key in slot `module_uid` of `netuid`.
    pub fn get_stake_for_uid(&self, netuid: u16, module_uid: u16) -> (r: Result<u64, Error>)
        requires
            self.wf(),
        ensures
            r == match self@.key_for_uid(netuid, module_uid) {
                Ok(key) => Ok(self@.stake_for_key(netuid, key)),
                Err(e) => Err(e),
            },
    {
        match self.get_key_for_uid(netuid, module_uid) {
            Ok(key) => Ok(self.get_stake_for_key(netuid, &key)),
            Err(e) => Err(e),
        }
    }

    /// The stake of `key` on `netuid`: zero where the key holds no slot
    /// there, whatever the ledger holds.
    pub fn get_stake_for_key(&self, netuid: u16, key: &AccountId) -> (r: u64)
        requires
            self.wf(),
        ensures
            r == self@.stake_for_key(netuid, *key),
    {
        if self.is_key_registered_on_network(netuid, key) {
            match self.stake.get(&(netuid, *key)) {
                Some(v) => *v,
                None => 0,
            }
        } else {
            0
        }
    }

    /// The number of existing networks.
    pub fn get_number_of_subnets(&self) -> (r: u16)
        requires
            self.wf(),
        ensures
            r == self@.subnetwork_n.len(),
            r <= self@.total_networks,
    {
        proof {
            lemma_networks_counted(self@);
        }
        let mut number_of_subnets: u16 = 0;
        let mut i: usize = 0;
        while i < self.subnetwork_n.len()
            invariant
                i <= self@.subnetwork_n.len(),
                self@.subnetwork_n.len() <= u16::MAX,
                number_of_subnets == i,
            decreases self@.subnetwork_n.len() - i,
        {
            number_of_subnets = number_of_subnets + 1;
            i += 1;
        }
        number_of_subnets
    }

    /// The networks on which `key` is flagged as registered, in the order in
    /// which the memberships were first recorded.
    pub fn get_registered_networks_for_key(&self, key: &AccountId) -> (r: Vec<u16>)
        requires
            self.wf(),
        ensures
            r@ == networks_of(self@.is_network_member, *key),
    {
        let ghost s = self@.is_network_member;
        let mut all_networks: Vec<u16> = Vec::new();
        let mut i: usize = 0;
        while i < self.is_network_member.len()
            invariant
                i <= s.len(),
                s == self@.is_network_member,
                all_networks@ == networks_of(s.take(i as int), *key),
            decreases s.len() - i,
        {
            proof {
                assert(s.take(i as int + 1).drop_last() =~= s.take(i as int));
            }
            let member: &(AccountId, u16) = self.is_network_member.key_at(i);
            if member.0 == *key && *self.is_network_member.value_at(i) {
                all_networks.push(member.1);
            }
            i += 1;
        }
        proof {
            assert(s.take(s.len() as int) =~= s);
        }
        all_networks
    }

    /// Whether `key` is flagged as registered on any network.
    pub fn is_key_registered_on_any_network(&self, key: &AccountId) -> (r: bool)
        requires
            self.wf(),
        ensures
            r == exists|i: int|
                0 <= i < self@.is_network_member.len() && (
                #[trigger] self@.is_network_member[i]).0.0 == *key
                    && self@.is_network_member[i].1,
    {
        let ghost s = self@.is_network_member;
        let mut i: usize = 0;
        while i < self.is_network_member.len()
            invariant
                i <= s.len(),
                s == self@.is_network_member,
                forall|j: int| 0 <= j < i ==> !((#[trigger] s[j]).0.0 == *key && s[j].1),
            decreases s.len() - i,
        {
            let member: &(AccountId, u16) = self.is_network_member.key_at(i);
            if member.0 == *key && *self.is_network_member.value_at(i) {
                return true;
            }
            i += 1;
        }
        false
    }

    /// Sets the epoch length of `netuid`.
    pub fn set_epoch(&mut self, netuid: u16, epoch: u16)
        requires
            old(self).wf(),
        ensures
            final(self).wf(),
            final(self)@ == (State {
                epoch: put(old(self)@.epoch, netuid, epoch),
                ..old(self)@
            }),
    {
        self.epoch.insert(netuid, epoch);
    }

    /// Sets the block of the last adjustment of `netuid`.
    pub fn set_last_adjustment_block(&mut self, netuid: u16, last_adjustment_block: u64)
        requires
            old(self).wf(),
        ensures
            final(self).wf(),
            final(self)@ == (State {
                last_adjustment_block: put(old(self)@.last_adjustment_block, netuid, last_adjustment_block),
                ..old(self)@
            }),
    {
        self.last_adjustment_block.insert(netuid, last_adjustment_block);
    }

    /// Sets the number of blocks since the last step of `netuid`.
    pub fn set_blocks_since_last_step(&mut self, netuid: u16, blocks_since_last_step: u64)
        requires
            old(self).wf(),
        ensures
            final(self).wf(),
            final(self)@ == (State {
                blocks_since_last_step: put(old(self)@.blocks_since_last_step, netuid, blocks_since_last_step),
                ..old(self)@
            }),
    {
        self.blocks_since_last_step.insert(netuid, blocks_since_last_step);
    }

    /// Sets the number of registrations on `netuid` in this block.
    pub fn set_registrations_this_block(&mut self, netuid: u16, registrations_this_block: u16)
        requires
            old(self).wf(),
        ensures
            final(self).wf(),
            final(self)@ == (State {
                registrations_this_block: put(old(self)@.registrations_this_block, netuid, registrations_this_block),
                ..old(self)@
            }),
    {
        self.registrations_this_block.insert(netuid, registrations_this_block);
    }

    /// Sets the block of the last mechanism step of `netuid`.
    pub fn set_last_mechanism_step_block(&mut self, netuid: u16, last_mechanism_step_block: u64)
        requires
            old(self).wf(),
        ensures
            final(self).wf(),
            final(self)@ == (State {
                last_mechanism_step_block: put(old(self)@.last_mechanism_step_block, netuid, last_mechanism_step_block),
                ..old(self)@
            }),
    {
        self.last_mechanism_step_block.insert(netuid, last_mechanism_step_block);
    }

    /// Sets the number of registrations on `netuid` in this interval.
    pub fn set_registrations_this_interval(&mut self, netuid: u16, registrations_this_interval: u16)
        requires
            old(self).wf(),
        ensures
            final(self).wf(),
            final(self)@ == (State {
                registrations_this_interval: put(old(self)@.registrations_this_interval, netuid, registrations_this_interval),
                ..old(self)@
            }),
    {
        self.registrations_this_interval.insert(netuid, registrations_this_interval);
    }

    /// Sets the rate limit for setting weights on `netuid`.
    pub fn set_weights_set_rate_limit(&mut self, netuid: u16, weights_set_rate_limit: u64)
        requires
            old(self).wf(),
        ensures
            final(self).wf(),
            final(self)@ == (State {
                weights_set_rate_limit: put(old(self)@.weights_set_rate_limit, netuid, weights_set_rate_limit),
                ..old(self)@
            }),
    {
        self.weights_set_rate_limit.insert(netuid, weights_set_rate_limit);
    }

    /// Sets the adjustment interval of `netuid`.
    pub fn set_adjustment_interval(&mut self, netuid: u16, adjustment_interval: u16)
        requires
            old(self).wf(),
        ensures
            final(self).wf(),
            final(self)@ == (State {
                adjustment_interval: put(old(self)@.adjustment_interval, netuid, adjustment_interval),
                ..old(self)@
            }),
    {
        self.adjustment_interval.insert(netuid, adjustment_interval);
    }

    /// Sets the immunity period of `netuid`.
    pub fn set_immunity_period(&mut self, netuid: u16, immunity_period: u16)
        requires
            old(self).wf(),
        ensures
            final(self).wf(),
            final(self)@ == (State {
                immunity_period: put(old(self)@.immunity_period, netuid, immunity_period),
                ..old(self)@
            }),
    {
        self.immunity_period.insert(netuid, immunity_period);
    }

    /// Sets the configured minimum number of weights of `netuid`.
    pub fn set_min_allowed_weights(&mut self, netuid: u16, min_allowed_weights: u16)
        requires
            old(self).wf(),
        ensures
            final(self).wf(),
            final(self)@ == (State {
                min_allowed_weights: put(old(self)@.min_allowed_weights, netuid, min_allowed_weights),
                ..old(self)@
            }),
    {
        self.min_allowed_weights.insert(netuid, min_allowed_weights);
    }

    /// Sets the largest number of slots of `netuid`.
    pub fn set_max_allowed_uids(&mut self, netuid: u16, max_allowed: u16)
        requires
            old(self).wf(),
        ensures
            final(self).wf(),
            final(self)@ == (State {
                max_allowed_uids: put(old(self)@.max_allowed_uids, netuid, max_allowed),
                ..old(self)@
            }),
    {
        self.max_allowed_uids.insert(netuid, max_allowed);
    }

    /// Sets the target number of registrations per interval of `netuid`.
    pub fn set_target_registrations_per_interval(&mut self, netuid: u16, target_registrations_per_interval: u16)
        requires
            old(self).wf(),
        ensures
            final(self).wf(),
            final(self)@ == (State {
                target_registrations_per_interval: put(old(self)@.target_registrations_per_interval, netuid, target_registrations_per_interval),
                ..old(self)@
            }),
    {
        self.target_registrations_per_interval.insert(netuid, target_registrations_per_interval);
    }

    /// Sets the largest number of registrations per block of `netuid`.
    pub fn set_max_registrations_per_block(&mut self, netuid: u16, max_registrations_per_block: u16)
        requires
            old(self).wf(),
        ensures
            final(self).wf(),
            final(self)@ == (State {
                max_registrations_per_block: put(old(self)@.max_registrations_per_block, netuid, max_registrations_per_block),
                ..old(self)@
            }),
    {
        self.max_registrations_per_block.insert(netuid, max_registrations_per_block);
    }

    /// The epoch length of `netuid`, zero where none is set.
    pub fn get_epoch(&self, netuid: u16) -> (r: u16)
        requires
            self.wf(),
        ensures
            r == get_or(self@.epoch, netuid, 0u16),
    {
        read_u16(&self.epoch, netuid)
    }

    /// The pending emission of `netuid`, zero where none is set.
    pub fn get_pending_emission(&self, netuid: u16) -> (r: u64)
        requires
            self.wf(),
        ensures
            r == get_or(self@.pending_emission, netuid, 0u64),
    {
        read_u64(&self.pending_emission, netuid)
    }

    /// The block of the last adjustment of `netuid`, zero where none is set.
    pub fn get_last_adjustment_block(&self, netuid: u16) -> (r: u64)
        requires
            self.wf(),
        ensures
            r == get_or(self@.last_adjustment_block, netuid, 0u64),
    {
        read_u64(&self.last_adjustment_block, netuid)
    }

    /// The number of blocks since the last step of `netuid`, zero where none is set.
    pub fn get_blocks_since_last_step(&self, netuid: u16) -> (r: u64)
        requires
            self.wf(),
        ensures
            r == get_or(self@.blocks_since_last_step, netuid, 0u64),
    {
        read_u64(&self.blocks_since_last_step, netuid)
    }

    /// The number of registrations on `netuid` in this block, zero where none is set.
    pub fn get_registrations_this_block(&self, netuid: u16) -> (r: u16)
        requires
            self.wf(),
        ensures
            r == get_or(self@.registrations_this_block, netuid, 0u16),
    {
        read_u16(&self.registrations_this_block, netuid)
    }

    /// The block of the last mechanism step of `netuid`, zero where none is set.
    pub fn get_last_mechanism_step_block(&self, netuid: u16) -> (r: u64)
        requires
            self.wf(),
        ensures
            r == get_or(self@.last_mechanism_step_block, netuid, 0u64),
    {
        read_u64(&self.last_mechanism_step_block, netuid)
    }

    /// The number of registrations on `netuid` in this interval, zero where none is set.
    pub fn get_registrations_this_interval(&self, netuid: u16) -> (r: u16)
        requires
            self.wf(),
        ensures
            r == get_or(self@.registrations_this_interval, netuid, 0u16),
    {
        read_u16(&self.registrations_this_interval, netuid)
    }

    /// The rate limit for setting weights on `netuid`, zero where none is set.
    pub fn get_weights_set_rate_limit(&self, netuid: u16) -> (r: u64)
        requires
            self.wf(),
        ensures
            r == get_or(self@.weights_set_rate_limit, netuid, 0u64),
    {
        read_u64(&self.weights_set_rate_limit, netuid)
    }

    /// The adjustment interval of `netuid`, zero where none is set.
    pub fn get_adjustment_interval(&self, netuid: u16) -> (r: u16)
        requires
            self.wf(),
        ensures
            r == get_or(self@.adjustment_interval, netuid, 0u16),
    {
        read_u16(&self.adjustment_interval, netuid)
    }

    /// The immunity period of `netuid`, zero where none is set.
    pub fn get_immunity_period(&self, netuid: u16) -> (r: u16)
        requires
            self.wf(),
        ensures
            r == get_or(self@.immunity_period, netuid, 0u16),
    {
        read_u16(&self.immunity_period, netuid)
    }

    /// The largest number of slots of `netuid`, zero where none is set.
    pub fn get_max_allowed_uids(&self, netuid: u16) -> (r: u16)
        requires
            self.wf(),
        ensures
            r == get_or(self@.max_allowed_uids, netuid, 0u16),
    {
        read_u16(&self.max_allowed_uids, netuid)
    }

    /// The target number of registrations per interval of `netuid`, zero where none is set.
    pub fn get_target_registrations_per_interval(&self, netuid: u16) -> (r: u16)
        requires
            self.wf(),
        ensures
            r == get_or(self@.target_registrations_per_interval, netuid, 0u16),
    {
        read_u16(&self.target_registrations_per_interval, netuid)
    }

    /// The largest number of registrations per block of `netuid`, zero where none is set.
    pub fn get_max_registrations_per_block(&self, netuid: u16) -> (r: u16)
        requires
            self.wf(),
        ensures
            r == get_or(self@.max_registrations_per_block, netuid, 0u16),
    {
        read_u16(&self.max_registrations_per_block, netuid)
    }

    /// The emission of each slot of `netuid`.
    pub fn get_emission(&self, netuid: u16) -> (r: Vec<u64>)
        requires
            self.wf(),
        ensures
            r@ == get_or(self@.emission, netuid, Seq::<u64>::empty()),
    {
        read_vec(&self.emission, netuid)
    }

    /// The incentive of each slot of `netuid`.
    pub fn get_incentive(&self, netuid: u16) -> (r: Vec<u16>)
        requires
            self.wf(),
        ensures
            r@ == get_or(self@.incentive, netuid, Seq::<u16>::empty()),
    {
        read_vec(&self.incentive, netuid)
    }

    /// The dividends of each slot of `netuid`.
    pub fn get_dividends(&self, netuid: u16) -> (r: Vec<u16>)
        requires
            self.wf(),
        ensures
            r@ == get_or(self@.dividends, netuid, Seq::<u16>::empty()),
    {
        read_vec(&self.dividends, netuid)
    }

    /// The block of the last update of each slot of `netuid`.
    pub fn get_last_update(&self, netuid: u16) -> (r: Vec<u64>)
        requires
            self.wf(),
        ensures
            r@ == get_or(self@.last_update, netuid, Seq::<u64>::empty()),
    {
        read_vec(&self.last_update, netuid)
    }

    /// The emission of slot `uid` of `netuid`, zero where the vector has no such index.
    pub fn get_emission_for_uid(&self, netuid: u16, uid: u16) -> (r: u64)
        requires
            self.wf(),
        ensures
            r == ({
                let v = get_or(self@.emission, netuid, Seq::<u64>::empty());
                if uid < v.len() {
                    v[uid as int]
                } else {
                    0u64
                }
            }),
    {
        match self.emission.get(&netuid) {
            Some(v) => {
                if (uid as usize) < v.len() {
                    v[uid as usize]
                } else {
                    0
                }
            },
            None => 0,
        }
    }

    /// The incentive of slot `uid` of `netuid`, zero where the vector has no such index.
    pub fn get_incentive_for_uid(&self, netuid: u16, uid: u16) -> (r: u16)
        requires
            self.wf(),
        ensures
            r == ({
                let v = get_or(self@.incentive, netuid, Seq::<u16>::empty());
                if uid < v.len() {
                    v[uid as int]
                } else {
                    0u16
                }
            }),
    {
        match self.incentive.get(&netuid) {
            Some(v) => {
                if (uid as usize) < v.len() {
                    v[uid as usize]
                } else {
                    0
                }
            },
            None => 0,
        }
    }

    /// The dividends of slot `uid` of `netuid`, zero where the vector has no such index.
    pub fn get_dividends_for_uid(&self, netuid: u16, uid: u16) -> (r: u16)
        requires
            self.wf(),
        ensures
            r == ({
                let v = get_or(self@.dividends, netuid, Seq::<u16>::empty());
                if uid < v.len() {
                    v[uid as int]
                } else {
                    0u16
                }
            }),
    {
        match self.dividends.get(&netuid) {
            Some(v) => {
                if (uid as usize) < v.len() {
                    v[uid as usize]
                } else {
                    0
                }
            },
            None => 0,
        }
    }

    /// The block of the last update of slot `uid` of `netuid`, zero where the vector has no such index.
    pub fn get_last_update_for_uid(&self, netuid: u16, uid: u16) -> (r: u64)
        requires
            self.wf(),
        ensures
            r == ({
                let v = get_or(self@.last_update, netuid, Seq::<u64>::empty());
                if uid < v.len() {
                    v[uid as int]
                } else {
                    0u64
                }
            }),
    {
        match self.last_update.get(&netuid) {
            Some(v) => {
                if (uid as usize) < v.len() {
                    v[uid as usize]
                } else {
                    0
                }
            },
            None => 0,
        }
    }

    /// The pruning score of slot `uid` of `netuid`: the low sixteen bits of
    /// its emission, and the largest score where the vector has no such
    /// index.
    pub fn get_pruning_score_for_uid(&self, netuid: u16, uid: u16) -> (r: u16)
        requires
            self.wf(),
        ensures
            r == ({
                let v = get_or(self@.emission, netuid, Seq::<u64>::empty());
                if uid < v.len() {
                    (v[uid as int] % 0x10000) as u16
                } else {
                    u16::MAX
                }
            }),
    {
        match self.emission.get(&netuid) {
            Some(v) => {
                if (uid as usize) < v.len() {
                    let e: u64 = v[uid as usize];
                    (e % 0x10000) as u16
                } else {
                    u16::MAX
                }
            },
            None => u16::MAX,
        }
    }

    /// The minimum number of weights of `netuid`: the configured value, but
    /// never more than the network has slots.
    pub fn get_min_allowed_weights(&self, netuid: u16) -> (r: u16)
        requires
            self.wf(),
        ensures
            r == self@.min_allowed_weights_of(netuid),
            r <= get_or(self@.subnetwork_n, netuid, 0u16),
            r <= get_or(self@.min_allowed_weights, netuid, 0u16),
    {
        let min_allowed_weights: u16 = read_u16(&self.min_allowed_weights, netuid);
        let n: u16 = self.get_subnetwork_n(netuid);
        if n < min_allowed_weights {
            n
        } else {
            min_allowed_weights
        }
    }

    /// The block at which the module in slot `module_uid` of `netuid` was
    /// registered, zero where none is recorded.
    pub fn get_module_block_at_registration(&self, netuid: u16, module_uid: u16) -> (r: u64)
        requires
            self.wf(),
        ensures
            r == get_or(self@.block_at_registration, (netuid, module_uid), 0u64),
    {
        match self.block_at_registration.get(&(netuid, module_uid)) {
            Some(v) => *v,
            None => 0,
        }
    }

    /// The emission of one block.
    pub fn get_block_emission(&self) -> (r: u64)
        ensures
            r == self@.block_emission,
    {
        self.block_emission
    }

    /// The block of the last transaction of `key`, zero where none is
    /// recorded.
    pub fn get_last_tx_block(&self, key: &AccountId) -> (r: u64)
        requires
            self.wf(),
        ensures
            r == get_or(self@.last_tx_block, *key, 0u64),
    {
        match self.last_tx_block.get(key) {
            Some(v) => *v,
            None => 0,
        }
    }

    /// Records the block of the last transaction of `key`.
    pub fn set_last_tx_block(&mut self, key: &AccountId, last_tx_block: u64)
        requires
            old(self).wf(),
        ensures
            final(self).wf(),
            final(self)@ == (State {
                last_tx_block: put(old(self)@.last_tx_block, *key, last_tx_block),
                ..old(self)@
            }),
    {
        self.last_tx_block.insert(*key, last_tx_block);
    }

    /// The number of blocks that must pass between two transactions of one
    /// account.
    pub fn get_tx_rate_limit(&self) -> (r: u64)
        ensures
            r == self@.tx_rate_limit,
    {
        self.tx_rate_limit
    }

    /// Sets the number of blocks that must pass between two transactions of
    /// one account.
    pub fn set_tx_rate_limit(&mut self, tx_rate_limit: u64)
        requires
            old(self).wf(),
        ensures
            final(self).wf(),
            final(self)@ == (State { tx_rate_limit, ..old(self)@ }),
    {
        self.tx_rate_limit = tx_rate_limit;
    }

    /// The parameters that a network gets when it is created on behalf of a
    /// module: those of network 0, where the immunity period is read from
    /// the minimum number of weights as configured, and the minimum number
    /// of weights from the immunity period.
    pub fn default_subnet_params(&self) -> (r: SubnetParams)
        requires
            self.wf(),
        ensures
            r == self@.default_params(),
    {
        let netuid: u16 = 0;
        SubnetParams {
            immunity_period: read_u16(&self.min_allowed_weights, netuid),
            min_allowed_weights: read_u16(&self.immunity_period, netuid),
            max_allowed_uids: read_u16(&self.max_allowed_uids, netuid),
            epoch: read_u16(&self.epoch, netuid),
        }
    }

    /// The summary of `netuid`, if the network exists.
    pub fn get_subnet_info(&self, netuid: u16) -> (r: Option<SubnetInfo>)
        requires
            self.wf(),
        ensures
            match r {
                Some(info) => self@.exists_network(netuid) && info@ == self@.subnet_info(netuid),
                None => !self@.exists_network(netuid),
            },
    {
        if !self.if_subnet_exist(netuid) {
            return None;
        }
        let immunity_period: u16 = self.get_immunity_period(netuid);
        let name: Vec<u8> = self.get_name_for_netuid(netuid);
        let min_allowed_weights: u16 = self.get_min_allowed_weights(netuid);
        let subnetwork_n: u16 = self.get_subnetwork_n(netuid);
        let max_allowed_uids: u16 = self.get_max_allowed_uids(netuid);
        let blocks_since_last_step: u64 = self.get_blocks_since_last_step(netuid);
        let epoch: u16 = self.get_epoch(netuid);
        Some(
            SubnetInfo {
                immunity_period,
                name,
                netuid,
                min_allowed_weights,
                subnetwork_n,
                max_allowed_uids,
                blocks_since_last_step,
                epoch,
            },
        )
    }

    /// The summaries of all existing networks, in the order in which their
    /// identifiers were first used.
    pub fn get_subnets_info(&self) -> (r: Vec<Option<SubnetInfo>>)
        requires
            self.wf(),
        ensures
            r@.len() == self@.subnetwork_n.len(),
            forall|i: int|
                0 <= i < r@.len() ==> match #[trigger] r@[i] {
                    Some(info) => info@ == self@.subnet_info(self@.subnetwork_n[i].0),
                    None => false,
                },
    {
        let mut subnets_info: Vec<Option<SubnetInfo>> = Vec::new();
        let mut i: usize = 0;
        while i < self.subnetwork_n.len()
            invariant
                self.wf(),
                i <= self@.subnetwork_n.len(),
                subnets_info@.len() == i,
                forall|j: int|
                    0 <= j < i ==> match #[trigger] subnets_info@[j] {
                        Some(info) => info@ == self@.subnet_info(self@.subnetwork_n[j].0),
                        None => false,
                    },
            decreases self@.subnetwork_n.len() - i,
        {
            let netuid: u16 = *self.subnetwork_n.key_at(i);
            proof {
                crate::store::lemma_index_of(self@.subnetwork_n, i as int);
            }
            subnets_info.push(self.get_subnet_info(netuid));
            i += 1;
        }
        subnets_info
    }

    /// Sets the block of the last update of slot `uid` of `netuid`. Where
    /// the vector has no such index nothing is written: the vector never
    /// grows.
    pub fn set_last_update_for_uid(&mut self, netuid: u16, uid: u16, last_update: u64)
        requires
            old(self).wf(),
        ensures
            final(self).wf(),
            final(self)@ == old(self)@.set_last_update(netuid, uid, last_update),
    {
        let mut updated_last_update_vec: Vec<u64> = self.get_last_update(netuid);
        if (uid as usize) < updated_last_update_vec.len() {
            updated_last_update_vec[uid as usize] = last_update;
            proof {
                lemma_set_last_update_wf(self@, netuid, uid, last_update);
            }
            self.last_update.insert(netuid, updated_last_update_vec);
        }
    }
    /// Sets the emission of slot `uid` of `netuid`. Where
    /// the vector has no such index nothing is written: the vector never
    /// grows.
    pub fn set_emission_for_uid(&mut self, netuid: u16, uid: u16, emission: u64)
        requires
            old(self).wf(),
        ensures
            final(self).wf(),
            final(self)@ == old(self)@.set_emission(netuid, uid, emission),
    {
        let mut updated: Vec<u64> = read_vec(&self.emission, netuid);
        if (uid as usize) < updated.len() {
            updated[uid as usize] = emission;
            proof {
                lemma_set_emission_wf(self@, netuid, uid, emission);
            }
            self.emission.insert(netuid, updated);
        }
    }

    /// Sets the incentive of slot `uid` of `netuid`. Where
    /// the vector has no such index nothing is written: the vector never
    /// grows.
    pub fn set_incentive_for_uid(&mut self, netuid: u16, uid: u16, incentive: u16)
        requires
            old(self).wf(),
        ensures
            final(self).wf(),
            final(self)@ == old(self)@.set_incentive(netuid, uid, incentive),
    {
        let mut updated: Vec<u16> = read_vec(&self.incentive, netuid);
        if (uid as usize) < updated.len() {
            updated[uid as usize] = incentive;
            proof {
                lemma_set_incentive_wf(self@, netuid, uid, incentive);
            }
            self.incentive.insert(netuid, updated);
        }
    }

    /// Sets the dividends of slot `uid` of `netuid`. Where
    /// the vector has no such index nothing is written: the vector never
    /// grows.
    pub fn set_dividends_for_uid(&mut self, netuid: u16, uid: u16, dividends: u16)
        requires
            old(self).wf(),
        ensures
            final(self).wf(),
            final(self)@ == old(self)@.set_dividends(netuid, uid, dividends),
    {
        let mut updated: Vec<u16> = read_vec(&self.dividends, netuid);
        if (uid as usize) < updated.len() {
            updated[uid as usize] = dividends;
            proof {
                lemma_set_dividends_wf(self@, netuid, uid, dividends);
            }
            self.dividends.insert(netuid, updated);
        }
    }

    /// The network that a creation with `stake` evicts when the registry is
    /// full: see `State::least_staked`. Every aggregate is read, one by one.
    pub fn least_staked_netuid(&self, stake: u64) -> (r: u16)
        requires
            self.wf(),
        ensures
            r == self@.least_staked(stake),
    {
        let mut min_stake: u64 = 0;
        let mut min_stake_netuid: u16 = 0;
        if stake > min_stake {
            let ghost s = self@.total_subnet_stake;
            let mut i: usize = 0;
            while i < self.total_subnet_stake.len()
                invariant
                    i <= s.len(),
                    s == self@.total_subnet_stake,
                    min_stake == 0,
                    min_stake_netuid == match last_key_of(s.take(i as int), 0u64) {
                        Some(n) => n,
                        None => 0u16,
                    },
                decreases s.len() - i,
            {
                proof {
                    assert(s.take(i as int + 1).drop_last() =~= s.take(i as int));
                }
                let net_stake: u64 = *self.total_subnet_stake.value_at(i);
                if net_stake <= min_stake {
                    min_stake = net_stake;
                    min_stake_netuid = *self.total_subnet_stake.key_at(i);
                }
                i += 1;
            }
            proof {
                assert(s.take(s.len() as int) =~= s);
            }
        }
        min_stake_netuid
    }

    /// Whether the counters can take a creation with `stake`: whether the
    /// live count and the aggregate of the identifier that the creation
    /// assigns stay within their types. Nothing is written.
    pub fn add_network_fits(&self, stake: u64) -> (r: bool)
        requires
            self.wf(),
        ensures
            r == self@.add_fits(stake),
    {
        let mut total: u16 = self.total_networks;
        let target: u16;
        let mut aggregate: u64;
        if self.total_networks >= self.max_allowed_subnets {
            target = self.least_staked_netuid(stake);
            aggregate = read_u64(&self.total_subnet_stake, target);
            let gone: Vec<u8> = self.get_name_for_netuid(target);
            match self.subnet_namespace.get(&gone) {
                Some(removed) => {
                    proof {
                        let i = crate::store::index_of(self@.subnet_namespace, gone@);
                        assert(0 <= i < self@.subnet_namespace.len());
                        lemma_del(self@.total_subnet_stake, *removed, target);
                    }
                    total = total - 1;
                    if *removed == target {
                        aggregate = 0;
                    }
                },
                None => {},
            }
        } else {
            target = total;
            aggregate = read_u64(&self.total_subnet_stake, target);
        }
        total < u16::MAX && aggregate <= u64::MAX - stake
    }

    /// Whether a network called `name` may be created by `key`: it may
    /// unless a network has that name already. Nothing is written.
    pub fn do_add_network(
        &self,
        key: &AccountId,
        name: Vec<u8>,
        stake: u64,
        immunity_period: u16,
        min_allowed_weights: u16,
        max_allowed_uids: u16,
        epoch: u16,
    ) -> (r: Result<(), Error>)
        requires
            self.wf(),
        ensures
            r == if has_key(self@.subnet_namespace, name@) {
                Err::<(), Error>(Error::DuplicateName)
            } else {
                Ok::<(), Error>(())
            },
    {
        if self.if_subnet_name_exists(name) {
            return Err(Error::DuplicateName);
        }
        Ok(())
    }

    /// Creates a network for a module that is about to register, with the
    /// default parameters.
    pub fn add_network_from_registration(&mut self, name: Vec<u8>, stake: u64, key: &AccountId) -> (r:
        Result<u16, Error>)
        requires
            old(self).wf(),
            !has_key(old(self)@.subnet_namespace, name@) ==> old(self)@.add_fits(stake),
        ensures
            final(self).wf(),
            has_key(old(self)@.subnet_namespace, name@) ==> r == Err::<u16, Error>(
                Error::DuplicateName,
            ) && final(self)@ == old(self)@,
            !has_key(old(self)@.subnet_namespace, name@) ==> r == Ok::<u16, Error>(
                old(self)@.target(stake),
            ) && final(self)@ == old(self)@.add_network(
                *key,
                name@,
                stake,
                old(self)@.default_params().max_allowed_uids,
                old(self)@.default_params().immunity_period,
                old(self)@.default_params().min_allowed_weights,
                old(self)@.default_params().epoch,
            ),
    {
        let default_params: SubnetParams = self.default_subnet_params();
        self.add_network(
            key,
            name,
            stake,
            default_params.max_allowed_uids,
            default_params.immunity_period,
            default_params.min_allowed_weights,
            default_params.epoch,
        )
    }

    /// Creates a network called `name` for the founder `key`.
    ///
    /// A name that is registered already is turned down and nothing is
    /// written. Otherwise the network gets the live count as its identifier
    /// while there is room; once the registry is full, the least staked
    /// network is torn down and its identifier is used again. The new
    /// network has one slot, its parameters are set, the founder's stake
    /// enters the ledger and the creation is recorded.
    pub fn add_network(
        &mut self,
        key: &AccountId,
        name: Vec<u8>,
        stake: u64,
        max_allowed_uids: u16,
        immunity_period: u16,
        min_allowed_weights: u16,
        epoch: u16,
    ) -> (r: Result<u16, Error>)
        requires
            old(self).wf(),
            !has_key(old(self)@.subnet_namespace, name@) ==> old(self)@.add_fits(stake),
        ensures
            final(self).wf(),
            has_key(old(self)@.subnet_namespace, name@) ==> r == Err::<u16, Error>(
                Error::DuplicateName,
            ) && final(self)@ == old(self)@,
            !has_key(old(self)@.subnet_namespace, name@) ==> r == Ok::<u16, Error>(
                old(self)@.target(stake),
            ) && final(self)@ == old(self)@.add_network(
                *key,
                name@,
                stake,
                max_allowed_uids,
                immunity_period,
                min_allowed_weights,
                epoch,
            ),
    {
        if self.subnet_namespace.contains_key(&name) {
            return Err(Error::DuplicateName);
        }
        proof {
            lemma_add_network_wf(
                self@,
                *key,
                name@,
                stake,
                max_allowed_uids,
                immunity_period,
                min_allowed_weights,
                epoch,
            );
        }
        let total_networks: u16 = self.total_networks;
        let max_networks: u16 = self.max_allowed_subnets;
        let netuid: u16;
        if total_networks >= max_networks {
            netuid = self.least_staked_netuid(stake);
            self.remove_network_for_netuid(netuid);
        } else {
            netuid = total_networks;
        }
        let ghost v = self@;
        assert(v == old(self)@.vacated(stake));
        assert(netuid == old(self)@.target(stake));

        self.epoch.insert(netuid, epoch);
        self.max_allowed_uids.insert(netuid, max_allowed_uids);
        self.immunity_period.insert(netuid, immunity_period);
        self.min_allowed_weights.insert(netuid, min_allowed_weights);
        self.registrations_this_interval.insert(netuid, 0);
        let recorded_name: Vec<u8> = copy_of(&name);
        self.subnet_namespace.insert(name, netuid);
        self.total_networks = self.total_networks + 1;
        self.subnet_founder.insert(netuid, *key);
        self.subnetwork_n.insert(netuid, 1);

        let mut emission: Vec<u64> = Vec::new();
        emission.push(0);
        let mut incentive: Vec<u16> = Vec::new();
        incentive.push(0);
        let mut dividends: Vec<u16> = Vec::new();
        dividends.push(0);
        let mut last_update: Vec<u64> = Vec::new();
        last_update.push(0);
        proof {
            assert(emission@ =~= seq![0u64]);
            assert(incentive@ =~= seq![0u16]);
            assert(dividends@ =~= seq![0u16]);
            assert(last_update@ =~= seq![0u64]);
        }
        self.emission.insert(netuid, emission);
        self.incentive.insert(netuid, incentive);
        self.dividends.insert(netuid, dividends);
        self.last_update.insert(netuid, last_update);

        let held: u64 = match self.stake.get(&(netuid, *key)) {
            Some(amount) => *amount,
            None => 0,
        };
        let aggregate: u64 = read_u64(&self.total_subnet_stake, netuid);
        self.stake.insert((netuid, *key), held + stake);
        self.total_subnet_stake.insert(netuid, aggregate + stake);

        self.events.push(Event::NetworkAdded(netuid, recorded_name));
        proof {
            assert(self@.events =~= v.events.push(EventView::NetworkAdded(netuid, name@)));
        }
        Ok(netuid)
    }

    /// Tears down the network registered for `netuid`, if any: see
    /// `remove_network`. Where no name is registered for `netuid`, the
    /// network called by the empty name is the one torn down.
    pub fn remove_network_for_netuid(&mut self, netuid: u16) -> (r: u16)
        requires
            old(self).wf(),
        ensures
            final(self).wf(),
            final(self)@ == old(self)@.remove_network(old(self)@.name_of(netuid)),
            r == old(self)@.removed_netuid(old(self)@.name_of(netuid)),
    {
        let name: Vec<u8> = self.get_name_for_netuid(netuid);
        self.remove_network(name)
    }

    /// Records one release for each amount staked on `netuid`.
    fn release_stake(&mut self, netuid: u16)
        ensures
            final(self)@ == (State {
                events: old(self)@.events + released(old(self)@.stake, netuid),
                ..old(self)@
            }),
    {
        let ghost before = self@;
        let ghost s = self@.stake;
        let mut i: usize = 0;
        proof {
            assert(before.events + released(s.take(0), netuid) =~= before.events);
        }
        while i < self.stake.len()
            invariant
                i <= s.len(),
                s == before.stake,
                self@ == (State {
                    events: before.events + released(s.take(i as int), netuid),
                    ..before
                }),
            decreases s.len() - i,
        {
            proof {
                assert(s.take(i as int + 1).drop_last() =~= s.take(i as int));
            }
            let entry: &(u16, AccountId) = self.stake.key_at(i);
            if entry.0 == netuid {
                let account: AccountId = entry.1;
                let amount: u64 = *self.stake.value_at(i);
                let ghost recorded = self@.events;
                self.events.push(Event::StakeReleased(netuid, account, amount));
                proof {
                    let t = s.take(i as int + 1);
                    assert(self@.events =~= recorded.push(
                        EventView::StakeReleased(netuid, account, amount),
                    ));
                    assert(t.last() == s[i as int]);
                    assert(released(t, netuid) == released(s.take(i as int), netuid).push(
                        EventView::StakeReleased(netuid, account, amount),
                    ));
                    assert(self@.events =~= before.events + released(t, netuid));
                }
            }
            i += 1;
        }
        proof {
            assert(s.take(s.len() as int) =~= s);
        }
    }

    /// Tears down the network called `name` and returns its identifier.
    ///
    /// Where no network has that name nothing is written and zero comes
    /// back: a zero says nothing about whether a network was removed, for
    /// zero is an identifier too. Otherwise every record that belongs to the
    /// network is erased, each amount staked on it is released once, the
    /// live count goes down by one and the removal is recorded. The name
    /// and the slot count, by which the network is known to exist, are
    /// erased last.
    pub fn remove_network(&mut self, name: Vec<u8>) -> (r: u16)
        requires
            old(self).wf(),
        ensures
            final(self).wf(),
            final(self)@ == old(self)@.remove_network(name@),
            r == old(self)@.removed_netuid(name@),
    {
        let netuid: u16 = match self.subnet_namespace.get(&name) {
            Some(v) => *v,
            None => {
                return 0;
            },
        };
        proof {
            lemma_remove_network_wf(self@, name@);
            let i = crate::store::index_of(self@.subnet_namespace, name@);
            assert(0 <= i < self@.subnet_namespace.len());
        }
        self.uids.clear_network(netuid);
        self.keys.clear_network(netuid);
        self.names.clear_network(netuid);
        self.module_namespace.clear_network(netuid);
        self.block_at_registration.clear_network(netuid);
        self.is_network_member.clear_network(netuid);
        self.emission.remove(&netuid);
        self.incentive.remove(&netuid);
        self.dividends.remove(&netuid);
        self.last_update.remove(&netuid);
        self.subnet_founder.remove(&netuid);

        self.epoch.remove(&netuid);
        self.max_allowed_uids.remove(&netuid);
        self.immunity_period.remove(&netuid);
        self.min_allowed_weights.remove(&netuid);
        self.registrations_this_interval.remove(&netuid);
        self.registrations_this_block.remove(&netuid);
        self.last_adjustment_block.remove(&netuid);
        self.blocks_since_last_step.remove(&netuid);
        self.last_mechanism_step_block.remove(&netuid);
        self.pending_emission.remove(&netuid);
        self.weights_set_rate_limit.remove(&netuid);
        self.adjustment_interval.remove(&netuid);
        self.target_registrations_per_interval.remove(&netuid);
        self.max_registrations_per_block.remove(&netuid);

        self.release_stake(netuid);
        self.stake.clear_network(netuid);
        self.total_subnet_stake.remove(&netuid);

        self.subnet_namespace.remove(&name);
        self.subnetwork_n.remove(&netuid);
        self.total_networks = self.total_networks - 1;

        let ghost recorded = self@.events;
        self.events.push(Event::NetworkRemoved(netuid));
        proof {
            assert(self@.events =~= recorded.push(EventView::NetworkRemoved(netuid)));
        }
        netuid
    }

    /// Records a module of `key` called `name` in the next slot of `netuid`
    /// and returns the slot, where `State::can_append` allows it; otherwise
    /// nothing is written. Whether the module is admitted is for the caller
    /// to decide beforehand.
    pub fn append_module(&mut self, netuid: u16, key: &AccountId, name: Vec<u8>, block: u64) -> (r:
        Option<u16>)
        requires
            old(self).wf(),
        ensures
            final(self).wf(),
            old(self)@.can_append(netuid, *key, name@) ==> r == Some(
                value_of(old(self)@.subnetwork_n, netuid),
            ) && final(self)@ == old(self)@.append_module(netuid, *key, name@, block),
            !old(self)@.can_append(netuid, *key, name@) ==> r.is_none() && final(self)@ == old(
                self,
            )@,
    {
        let uid: u16 = match self.subnetwork_n.get(&netuid) {
            Some(n) => *n,
            None => {
                return None;
            },
        };
        if uid == u16::MAX || self.keys.contains_key(&(netuid, uid)) || self.uids.contains_key(
            &(netuid, *key),
        ) {
            return None;
        }
        let recorded_name: Vec<u8> = copy_of(&name);
        let indexed_name: Vec<u8> = copy_of(&name);
        if self.module_namespace.contains_key(&(netuid, indexed_name)) {
            return None;
        }
        proof {
            lemma_append_module_wf(self@, netuid, *key, name@, block);
        }
        let mut emission: Vec<u64> = read_vec(&self.emission, netuid);
        emission.push(0);
        let mut incentive: Vec<u16> = read_vec(&self.incentive, netuid);
        incentive.push(0);
        let mut dividends: Vec<u16> = read_vec(&self.dividends, netuid);
        dividends.push(0);
        let mut last_update: Vec<u64> = read_vec(&self.last_update, netuid);
        last_update.push(0);
        self.emission.insert(netuid, emission);
        self.incentive.insert(netuid, incentive);
        self.dividends.insert(netuid, dividends);
        self.last_update.insert(netuid, last_update);

        self.keys.insert((netuid, uid), *key);
        self.uids.insert((netuid, *key), uid);
        self.names.insert((netuid, uid), recorded_name);
        self.module_namespace.insert((netuid, name), uid);
        self.block_at_registration.insert((netuid, uid), block);
        self.is_network_member.insert((*key, netuid), true);
        self.subnetwork_n.insert(netuid, uid + 1);
        Some(uid)
    }
}

} // verus!
