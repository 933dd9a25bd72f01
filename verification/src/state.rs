//! The registry as a mathematical value: what every store holds, what makes
//! such a value well formed, and what each operation turns it into.

use vstd::prelude::*;
use crate::store::{del, distinct_keys, drop_net, get_or, has_key, has_value, index_of, put};
use crate::store::value_of;
use crate::store::{lemma_del, lemma_drop_net, lemma_drop_net_distinct, lemma_put};
use crate::types::Error;
use crate::types::SubnetParams;
use crate::types::EventView;
use crate::types::SubnetInfoView;

verus! {

/// The key of the first entry of `s` that holds the value `v`.
pub open spec fn first_key_of<K, V>(s: Seq<(K, V)>, v: V) -> Option<K>
    decreases s.len(),
{
    if s.len() == 0 {
        None
    } else if s[0].1 == v {
        Some(s[0].0)
    } else {
        first_key_of(s.skip(1), v)
    }
}

/// The key of the last entry of `s` that holds the value `v`.
pub open spec fn last_key_of<K, V>(s: Seq<(K, V)>, v: V) -> Option<K>
    decreases s.len(),
{
    if s.len() == 0 {
        None
    } else if s.last().1 == v {
        Some(s.last().0)
    } else {
        last_key_of(s.drop_last(), v)
    }
}

/// The sum of the amounts that the ledger `s` holds for network `n`.
pub open spec fn stake_sum(s: Seq<((u16, u64), u64)>, n: u16) -> int
    decreases s.len(),
{
    if s.len() == 0 {
        0
    } else {
        stake_sum(s.drop_last(), n) + if s.last().0.0 == n {
            s.last().1 as int
        } else {
            0
        }
    }
}

/// One release for each entry that the ledger `s` holds for network `n`, in
/// the order of the entries.
pub open spec fn released(s: Seq<((u16, u64), u64)>, n: u16) -> Seq<EventView>
    decreases s.len(),
{
    if s.len() == 0 {
        Seq::empty()
    } else if s.last().0.0 == n {
        released(s.drop_last(), n).push(EventView::StakeReleased(n, s.last().0.1, s.last().1))
    } else {
        released(s.drop_last(), n)
    }
}

/// The sum of the amounts of the releases among `events`.
pub open spec fn released_amount(events: Seq<EventView>) -> int
    decreases events.len(),
{
    if events.len() == 0 {
        0
    } else {
        released_amount(events.drop_last()) + match events.last() {
            EventView::StakeReleased(_, _, amount) => amount as int,
            _ => 0,
        }
    }
}

/// The networks on which the membership index `s` flags `key`, in the order
/// of the entries.
pub open spec fn networks_of(s: Seq<((u64, u16), bool)>, key: u64) -> Seq<u16>
    decreases s.len(),
{
    if s.len() == 0 {
        Seq::empty()
    } else if s.last().0.0 == key && s.last().1 {
        networks_of(s.drop_last(), key).push(s.last().0.1)
    } else {
        networks_of(s.drop_last(), key)
    }
}

/// The smaller of two numbers.
pub open spec fn lesser(a: u16, b: u16) -> u16 {
    if a < b {
        a
    } else {
        b
    }
}

/// Everything the registry holds. A store is the sequence of its entries, in
/// the order in which their keys were first written.
pub struct State {
    /// How many networks may exist before a creation evicts one.
    pub max_allowed_subnets: u16,
    /// The live network count.
    pub total_networks: u16,
    pub block_emission: u64,
    pub tx_rate_limit: u64,
    /// Network identifier to slot count: a network exists where this store
    /// has an entry.
    pub subnetwork_n: Seq<(u16, u16)>,
    /// Network name to identifier.
    pub subnet_namespace: Seq<(Seq<u8>, u16)>,
    pub subnet_founder: Seq<(u16, u64)>,
    pub epoch: Seq<(u16, u16)>,
    pub max_allowed_uids: Seq<(u16, u16)>,
    pub immunity_period: Seq<(u16, u16)>,
    pub min_allowed_weights: Seq<(u16, u16)>,
    pub registrations_this_interval: Seq<(u16, u16)>,
    pub registrations_this_block: Seq<(u16, u16)>,
    pub last_adjustment_block: Seq<(u16, u64)>,
    pub blocks_since_last_step: Seq<(u16, u64)>,
    pub last_mechanism_step_block: Seq<(u16, u64)>,
    pub pending_emission: Seq<(u16, u64)>,
    pub weights_set_rate_limit: Seq<(u16, u64)>,
    pub adjustment_interval: Seq<(u16, u16)>,
    pub target_registrations_per_interval: Seq<(u16, u16)>,
    pub max_registrations_per_block: Seq<(u16, u16)>,
    /// The attribute vectors of each network, indexed by slot.
    pub emission: Seq<(u16, Seq<u64>)>,
    pub incentive: Seq<(u16, Seq<u16>)>,
    pub dividends: Seq<(u16, Seq<u16>)>,
    pub last_update: Seq<(u16, Seq<u64>)>,
    /// (network, key) to slot, and (network, slot) to key.
    pub uids: Seq<((u16, u64), u16)>,
    pub keys: Seq<((u16, u16), u64)>,
    /// (network, slot) to module name, and (network, module name) to slot.
    pub names: Seq<((u16, u16), Seq<u8>)>,
    pub module_namespace: Seq<((u16, Seq<u8>), u16)>,
    pub block_at_registration: Seq<((u16, u16), u64)>,
    /// (network, account) to amount, and network to the sum of its amounts.
    pub stake: Seq<((u16, u64), u64)>,
    pub total_subnet_stake: Seq<(u16, u64)>,
    /// (account, network) to whether the account is registered there.
    pub is_network_member: Seq<((u64, u16), bool)>,
    pub last_tx_block: Seq<(u64, u64)>,
    /// What was recorded for the surroundings and not yet collected.
    pub events: Seq<EventView>,
}

impl State {
    /// A registry with nothing in it.
    pub open spec fn empty(max_allowed_subnets: u16, block_emission: u64) -> State {
        State {
            max_allowed_subnets,
            total_networks: 0,
            block_emission,
            tx_rate_limit: 0,
            subnetwork_n: Seq::empty(),
            subnet_namespace: Seq::empty(),
            subnet_founder: Seq::empty(),
            epoch: Seq::empty(),
            max_allowed_uids: Seq::empty(),
            immunity_period: Seq::empty(),
            min_allowed_weights: Seq::empty(),
            registrations_this_interval: Seq::empty(),
            registrations_this_block: Seq::empty(),
            last_adjustment_block: Seq::empty(),
            blocks_since_last_step: Seq::empty(),
            last_mechanism_step_block: Seq::empty(),
            pending_emission: Seq::empty(),
            weights_set_rate_limit: Seq::empty(),
            adjustment_interval: Seq::empty(),
            target_registrations_per_interval: Seq::empty(),
            max_registrations_per_block: Seq::empty(),
            emission: Seq::empty(),
            incentive: Seq::empty(),
            dividends: Seq::empty(),
            last_update: Seq::empty(),
            uids: Seq::empty(),
            keys: Seq::empty(),
            names: Seq::empty(),
            module_namespace: Seq::empty(),
            block_at_registration: Seq::empty(),
            stake: Seq::empty(),
            total_subnet_stake: Seq::empty(),
            is_network_member: Seq::empty(),
            last_tx_block: Seq::empty(),
            events: Seq::empty(),
        }
    }

    /// No store holds a key twice.
    pub open spec fn stores_wf(self) -> bool {
        &&& distinct_keys(self.subnetwork_n)
        &&& distinct_keys(self.subnet_namespace)
        &&& distinct_keys(self.subnet_founder)
        &&& distinct_keys(self.epoch)
        &&& distinct_keys(self.max_allowed_uids)
        &&& distinct_keys(self.immunity_period)
        &&& distinct_keys(self.min_allowed_weights)
        &&& distinct_keys(self.registrations_this_interval)
        &&& distinct_keys(self.registrations_this_block)
        &&& distinct_keys(self.last_adjustment_block)
        &&& distinct_keys(self.blocks_since_last_step)
        &&& distinct_keys(self.last_mechanism_step_block)
        &&& distinct_keys(self.pending_emission)
        &&& distinct_keys(self.weights_set_rate_limit)
        &&& distinct_keys(self.adjustment_interval)
        &&& distinct_keys(self.target_registrations_per_interval)
        &&& distinct_keys(self.max_registrations_per_block)
        &&& distinct_keys(self.emission)
        &&& distinct_keys(self.incentive)
        &&& distinct_keys(self.dividends)
        &&& distinct_keys(self.last_update)
        &&& distinct_keys(self.uids)
        &&& distinct_keys(self.keys)
        &&& distinct_keys(self.names)
        &&& distinct_keys(self.module_namespace)
        &&& distinct_keys(self.block_at_registration)
        &&& distinct_keys(self.stake)
        &&& distinct_keys(self.total_subnet_stake)
        &&& distinct_keys(self.is_network_member)
        &&& distinct_keys(self.last_tx_block)
    }

    /// The live network count is the number of registered names.
    pub open spec fn counted(self) -> bool {
        self.total_networks == self.subnet_namespace.len()
    }

    /// Within a network, key to slot and slot to key are inverse to each
    /// other.
    pub open spec fn slots_paired(self) -> bool {
        &&& forall|n: u16, u: u16| #[trigger]
            has_key(self.keys, (n, u)) ==> has_key(self.uids, (n, value_of(self.keys, (n, u))))
                && value_of(self.uids, (n, value_of(self.keys, (n, u)))) == u
        &&& forall|n: u16, k: u64| #[trigger]
            has_key(self.uids, (n, k)) ==> has_key(self.keys, (n, value_of(self.uids, (n, k))))
                && value_of(self.keys, (n, value_of(self.uids, (n, k)))) == k
    }

    /// The aggregate of each network is the sum of the amounts staked on it.
    pub open spec fn ledger_balanced(self) -> bool {
        forall|n: u16| #[trigger]
            stake_sum(self.stake, n) == get_or(self.total_subnet_stake, n, 0u64)
    }

    /// Each attribute vector of an existing network has one entry for each
    /// of its slots.
    pub open spec fn vectors_sized(self) -> bool {
        forall|n: u16| #[trigger]
            has_key(self.subnetwork_n, n) ==> {
                &&& has_key(self.emission, n)
                &&& has_key(self.incentive, n)
                &&& has_key(self.dividends, n)
                &&& has_key(self.last_update, n)
                &&& value_of(self.emission, n).len() == value_of(self.subnetwork_n, n)
                &&& value_of(self.incentive, n).len() == value_of(self.subnetwork_n, n)
                &&& value_of(self.dividends, n).len() == value_of(self.subnetwork_n, n)
                &&& value_of(self.last_update, n).len() == value_of(self.subnetwork_n, n)
            }
    }

    /// An aggregate is recorded for the existing networks and for no other.
    pub open spec fn ledger_scoped(self) -> bool {
        forall|n: u16| #[trigger]
            has_key(self.total_subnet_stake, n) <==> has_key(self.subnetwork_n, n)
    }

    /// Every existing network has a name.
    pub open spec fn networks_named(self) -> bool {
        forall|n: u16| #[trigger]
            has_key(self.subnetwork_n, n) ==> has_value(self.subnet_namespace, n)
    }

    /// What holds of the registry between any two operations.
    pub open spec fn wf(self) -> bool {
        &&& self.stores_wf()
        &&& self.counted()
        &&& self.networks_named()
        &&& self.slots_paired()
        &&& self.ledger_balanced()
        &&& self.ledger_scoped()
        &&& self.vectors_sized()
    }

    /// No two names stand for one identifier.
    pub open spec fn names_unique(self) -> bool {
        forall|i: int, j: int|
            0 <= i < j < self.subnet_namespace.len() ==> (#[trigger] self.subnet_namespace[i]).1
                != (#[trigger] self.subnet_namespace[j]).1
    }

    /// Names and networks correspond one to one: every name stands for an
    /// existing network and no two names stand for one network. That every
    /// existing network has a name holds of every well-formed registry.
    pub open spec fn named(self) -> bool {
        &&& self.names_unique()
        &&& forall|i: int|
            0 <= i < self.subnet_namespace.len() ==> has_key(
                self.subnetwork_n,
                (#[trigger] self.subnet_namespace[i]).1,
            )
    }

    /// The identifiers of the existing networks are those below the live
    /// count.
    pub open spec fn dense(self) -> bool {
        forall|n: u16| #[trigger] has_key(self.subnetwork_n, n) <==> n < self.total_networks
    }

    /// `netuid` exists and no existing network has a smaller aggregate.
    pub open spec fn is_least_staked(self, netuid: u16) -> bool {
        &&& self.exists_network(netuid)
        &&& forall|n: u16| #[trigger]
            self.exists_network(n) ==> self.network_stake(netuid) <= self.network_stake(n)
    }

    /// No store holds a record that belongs to `netuid`, so that every read
    /// for it gives the default.
    pub open spec fn no_trace_of(self, netuid: u16) -> bool {
        &&& !has_key(self.subnetwork_n, netuid)
        &&& !has_key(self.subnet_founder, netuid)
        &&& !has_key(self.epoch, netuid)
        &&& !has_key(self.max_allowed_uids, netuid)
        &&& !has_key(self.immunity_period, netuid)
        &&& !has_key(self.min_allowed_weights, netuid)
        &&& !has_key(self.registrations_this_interval, netuid)
        &&& !has_key(self.registrations_this_block, netuid)
        &&& !has_key(self.last_adjustment_block, netuid)
        &&& !has_key(self.blocks_since_last_step, netuid)
        &&& !has_key(self.last_mechanism_step_block, netuid)
        &&& !has_key(self.pending_emission, netuid)
        &&& !has_key(self.weights_set_rate_limit, netuid)
        &&& !has_key(self.adjustment_interval, netuid)
        &&& !has_key(self.target_registrations_per_interval, netuid)
        &&& !has_key(self.max_registrations_per_block, netuid)
        &&& !has_key(self.emission, netuid)
        &&& !has_key(self.incentive, netuid)
        &&& !has_key(self.dividends, netuid)
        &&& !has_key(self.last_update, netuid)
        &&& !has_key(self.total_subnet_stake, netuid)
        &&& forall|k: u64| !#[trigger] has_key(self.uids, (netuid, k))
        &&& forall|u: u16| !#[trigger] has_key(self.keys, (netuid, u))
        &&& forall|u: u16| !#[trigger] has_key(self.names, (netuid, u))
        &&& forall|m: Seq<u8>| !#[trigger] has_key(self.module_namespace, (netuid, m))
        &&& forall|u: u16| !#[trigger] has_key(self.block_at_registration, (netuid, u))
        &&& forall|k: u64| !#[trigger] has_key(self.stake, (netuid, k))
        &&& forall|k: u64| !#[trigger] has_key(self.is_network_member, (k, netuid))
    }

    /// Whether a network exists under `netuid`.
    pub open spec fn exists_network(self, netuid: u16) -> bool {
        has_key(self.subnetwork_n, netuid)
    }

    /// The name registered for `netuid`: of several, the one registered
    /// first; the empty name where there is none.
    pub open spec fn name_of(self, netuid: u16) -> Seq<u8> {
        match first_key_of(self.subnet_namespace, netuid) {
            Some(name) => name,
            None => Seq::empty(),
        }
    }

    /// The aggregate stake of `netuid`, zero where none is recorded.
    pub open spec fn network_stake(self, netuid: u16) -> u64 {
        get_or(self.total_subnet_stake, netuid, 0u64)
    }

    /// The minimum number of weights of `netuid`: the configured value, but
    /// never more than the network has slots.
    pub open spec fn min_allowed_weights_of(self, netuid: u16) -> u16 {
        lesser(
            get_or(self.min_allowed_weights, netuid, 0u16),
            get_or(self.subnetwork_n, netuid, 0u16),
        )
    }

    /// The summary of `netuid`.
    pub open spec fn subnet_info(self, netuid: u16) -> SubnetInfoView {
        SubnetInfoView {
            netuid,
            name: self.name_of(netuid),
            immunity_period: get_or(self.immunity_period, netuid, 0u16),
            min_allowed_weights: self.min_allowed_weights_of(netuid),
            subnetwork_n: get_or(self.subnetwork_n, netuid, 0u16),
            max_allowed_uids: get_or(self.max_allowed_uids, netuid, 0u16),
            blocks_since_last_step: get_or(self.blocks_since_last_step, netuid, 0u64),
            epoch: get_or(self.epoch, netuid, 0u16),
        }
    }

    /// The key of slot `uid` of `netuid`.
    pub open spec fn key_for_uid(self, netuid: u16, uid: u16) -> Result<u64, Error> {
        if has_key(self.keys, (netuid, uid)) {
            Ok(value_of(self.keys, (netuid, uid)))
        } else {
            Err(Error::SlotNotFound)
        }
    }

    /// The slot that `key` holds on `netuid`.
    pub open spec fn uid_for_key(self, netuid: u16, key: u64) -> Result<u16, Error> {
        if has_key(self.uids, (netuid, key)) {
            Ok(value_of(self.uids, (netuid, key)))
        } else {
            Err(Error::NotRegistered)
        }
    }

    /// The stake of `key` on `netuid`: what the ledger holds where the key
    /// has a slot on the network, zero where it has none.
    pub open spec fn stake_for_key(self, netuid: u16, key: u64) -> u64 {
        if has_key(self.uids, (netuid, key)) {
            get_or(self.stake, (netuid, key), 0u64)
        } else {
            0
        }
    }

    /// The parameters of a network that is created on behalf of a module.
    pub open spec fn default_params(self) -> SubnetParams {
        SubnetParams {
            immunity_period: get_or(self.min_allowed_weights, 0u16, 0u16),
            min_allowed_weights: get_or(self.immunity_period, 0u16, 0u16),
            max_allowed_uids: get_or(self.max_allowed_uids, 0u16, 0u16),
            epoch: get_or(self.epoch, 0u16, 0u16),
        }
    }

    /// The network that a creation with `stake` evicts when the registry is
    /// full. The scan starts from a running minimum of zero and from
    /// identifier 0, and moves to each network whose aggregate is not above
    /// the running minimum: it ends on the last network without stake, and on
    /// identifier 0 where every network has some. Without incoming stake
    /// there is no scan.
    pub open spec fn least_staked(self, stake: u64) -> u16 {
        if stake > 0 {
            match last_key_of(self.total_subnet_stake, 0u64) {
                Some(netuid) => netuid,
                None => 0,
            }
        } else {
            0
        }
    }

    /// The registry without any record that belongs to `netuid`, but for its
    /// name.
    pub open spec fn erase(self, netuid: u16) -> State {
        State {
            subnetwork_n: del(self.subnetwork_n, netuid),
            subnet_founder: del(self.subnet_founder, netuid),
            epoch: del(self.epoch, netuid),
            max_allowed_uids: del(self.max_allowed_uids, netuid),
            immunity_period: del(self.immunity_period, netuid),
            min_allowed_weights: del(self.min_allowed_weights, netuid),
            registrations_this_interval: del(self.registrations_this_interval, netuid),
            registrations_this_block: del(self.registrations_this_block, netuid),
            last_adjustment_block: del(self.last_adjustment_block, netuid),
            blocks_since_last_step: del(self.blocks_since_last_step, netuid),
            last_mechanism_step_block: del(self.last_mechanism_step_block, netuid),
            pending_emission: del(self.pending_emission, netuid),
            weights_set_rate_limit: del(self.weights_set_rate_limit, netuid),
            adjustment_interval: del(self.adjustment_interval, netuid),
            target_registrations_per_interval: del(self.target_registrations_per_interval, netuid),
            max_registrations_per_block: del(self.max_registrations_per_block, netuid),
            emission: del(self.emission, netuid),
            incentive: del(self.incentive, netuid),
            dividends: del(self.dividends, netuid),
            last_update: del(self.last_update, netuid),
            uids: drop_net(self.uids, netuid),
            keys: drop_net(self.keys, netuid),
            names: drop_net(self.names, netuid),
            module_namespace: drop_net(self.module_namespace, netuid),
            block_at_registration: drop_net(self.block_at_registration, netuid),
            stake: drop_net(self.stake, netuid),
            total_subnet_stake: del(self.total_subnet_stake, netuid),
            is_network_member: drop_net(self.is_network_member, netuid),
            ..self
        }
    }

    /// The registry after the network called `name` is torn down: unchanged
    /// where no network has that name. Otherwise every record of the network
    /// is gone, each amount staked on it is released once, the live count is
    /// one less and the removal is recorded.
    pub open spec fn remove_network(self, name: Seq<u8>) -> State {
        if !has_key(self.subnet_namespace, name) {
            self
        } else {
            let netuid = value_of(self.subnet_namespace, name);
            State {
                subnet_namespace: del(self.subnet_namespace, name),
                total_networks: (self.total_networks - 1) as u16,
                events: (self.events + released(self.stake, netuid)).push(
                    EventView::NetworkRemoved(netuid),
                ),
                ..self.erase(netuid)
            }
        }
    }

    /// The identifier that `remove_network` frees: zero where no network has
    /// that name.
    pub open spec fn removed_netuid(self, name: Seq<u8>) -> u16 {
        get_or(self.subnet_namespace, name, 0u16)
    }

    /// Whether a creation finds the registry full.
    pub open spec fn at_capacity(self) -> bool {
        self.total_networks >= self.max_allowed_subnets
    }

    /// The identifier that a creation with `stake` assigns: the live count
    /// while there is room, the evicted network's identifier once the
    /// registry is full.
    pub open spec fn target(self, stake: u64) -> u16 {
        if self.at_capacity() {
            self.least_staked(stake)
        } else {
            self.total_networks
        }
    }

    /// The registry after a creation with `stake` has made room: with the
    /// least staked network torn down where the registry was full.
    pub open spec fn vacated(self, stake: u64) -> State {
        if self.at_capacity() {
            self.remove_network(self.name_of(self.least_staked(stake)))
        } else {
            self
        }
    }

    /// Whether the counters can take a creation with `stake`: the live count
    /// and the aggregate of the assigned identifier stay within their types.
    pub open spec fn add_fits(self, stake: u64) -> bool {
        &&& self.vacated(stake).total_networks < u16::MAX
        &&& self.vacated(stake).network_stake(self.target(stake)) + stake <= u64::MAX
    }

    /// The registry after a network called `name` is created for the founder
    /// `key`, where no network has that name yet.
    pub open spec fn add_network(
        self,
        key: u64,
        name: Seq<u8>,
        stake: u64,
        max_allowed_uids: u16,
        immunity_period: u16,
        min_allowed_weights: u16,
        epoch: u16,
    ) -> State {
        let v = self.vacated(stake);
        let t = self.target(stake);
        State {
            epoch: put(v.epoch, t, epoch),
            max_allowed_uids: put(v.max_allowed_uids, t, max_allowed_uids),
            immunity_period: put(v.immunity_period, t, immunity_period),
            min_allowed_weights: put(v.min_allowed_weights, t, min_allowed_weights),
            registrations_this_interval: put(v.registrations_this_interval, t, 0u16),
            subnet_namespace: put(v.subnet_namespace, name, t),
            total_networks: (v.total_networks + 1) as u16,
            subnet_founder: put(v.subnet_founder, t, key),
            subnetwork_n: put(v.subnetwork_n, t, 1u16),
            emission: put(v.emission, t, seq![0u64]),
            incentive: put(v.incentive, t, seq![0u16]),
            dividends: put(v.dividends, t, seq![0u16]),
            last_update: put(v.last_update, t, seq![0u64]),
            stake: put(v.stake, (t, key), (get_or(v.stake, (t, key), 0u64) + stake) as u64),
            total_subnet_stake: put(
                v.total_subnet_stake,
                t,
                (v.network_stake(t) + stake) as u64,
            ),
            events: v.events.push(EventView::NetworkAdded(t, name)),
            ..v
        }
    }

    /// Whether a module of `key` called `name` can be recorded on `netuid`:
    /// the network exists and has room for one more slot, the next slot is
    /// free, the key holds no slot there and no module there has that name.
    pub open spec fn can_append(self, netuid: u16, key: u64, name: Seq<u8>) -> bool {
        &&& has_key(self.subnetwork_n, netuid)
        &&& value_of(self.subnetwork_n, netuid) < u16::MAX
        &&& !has_key(self.keys, (netuid, value_of(self.subnetwork_n, netuid)))
        &&& !has_key(self.uids, (netuid, key))
        &&& !has_key(self.module_namespace, (netuid, name))
    }

    /// The registry after a module is recorded in the next slot of `netuid`.
    pub open spec fn append_module(self, netuid: u16, key: u64, name: Seq<u8>, block: u64) -> State {
        let uid = value_of(self.subnetwork_n, netuid);
        State {
            subnetwork_n: put(self.subnetwork_n, netuid, (uid + 1) as u16),
            uids: put(self.uids, (netuid, key), uid),
            keys: put(self.keys, (netuid, uid), key),
            names: put(self.names, (netuid, uid), name),
            module_namespace: put(self.module_namespace, (netuid, name), uid),
            block_at_registration: put(self.block_at_registration, (netuid, uid), block),
            is_network_member: put(self.is_network_member, (key, netuid), true),
            emission: put(self.emission, netuid, value_of(self.emission, netuid).push(0u64)),
            incentive: put(self.incentive, netuid, value_of(self.incentive, netuid).push(0u16)),
            dividends: put(self.dividends, netuid, value_of(self.dividends, netuid).push(0u16)),
            last_update: put(
                self.last_update,
                netuid,
                value_of(self.last_update, netuid).push(0u64),
            ),
            ..self
        }
    }

    /// The registry after the emission of slot `uid` of `netuid` is set:
    /// unchanged where the vector has no such index.
    pub open spec fn set_emission(self, netuid: u16, uid: u16, emission: u64) -> State {
        let v = get_or(self.emission, netuid, Seq::<u64>::empty());
        if uid < v.len() {
            State { emission: put(self.emission, netuid, v.update(uid as int, emission)), ..self }
        } else {
            self
        }
    }

    /// The registry after the incentive of slot `uid` of `netuid` is set:
    /// unchanged where the vector has no such index.
    pub open spec fn set_incentive(self, netuid: u16, uid: u16, incentive: u16) -> State {
        let v = get_or(self.incentive, netuid, Seq::<u16>::empty());
        if uid < v.len() {
            State { incentive: put(self.incentive, netuid, v.update(uid as int, incentive)), ..self }
        } else {
            self
        }
    }

    /// The registry after the dividends of slot `uid` of `netuid` are set:
    /// unchanged where the vector has no such index.
    pub open spec fn set_dividends(self, netuid: u16, uid: u16, dividends: u16) -> State {
        let v = get_or(self.dividends, netuid, Seq::<u16>::empty());
        if uid < v.len() {
            State { dividends: put(self.dividends, netuid, v.update(uid as int, dividends)), ..self }
        } else {
            self
        }
    }

    /// The registry after the last update of slot `uid` of `netuid` is set:
    /// unchanged where the vector has no such index.
    pub open spec fn set_last_update(self, netuid: u16, uid: u16, last_update: u64) -> State {
        let v = get_or(self.last_update, netuid, Seq::<u64>::empty());
        if uid < v.len() {
            State { last_update: put(self.last_update, netuid, v.update(uid as int, last_update)), ..self }
        } else {
            self
        }
    }
}

/// A sum of amounts is not negative.
pub proof fn lemma_sum_nonneg(s: Seq<((u16, u64), u64)>, n: u16)
    ensures
        stake_sum(s, n) >= 0,
    decreases s.len(),
{
    if s.len() > 0 {
        lemma_sum_nonneg(s.drop_last(), n);
    }
}

/// An amount of the ledger is at most the sum for its network.
pub proof fn lemma_stake_bound(s: Seq<((u16, u64), u64)>, i: int)
    requires
        0 <= i < s.len(),
    ensures
        s[i].1 <= stake_sum(s, s[i].0.0),
    decreases s.len(),
{
    lemma_sum_nonneg(s.drop_last(), s[i].0.0);
    if i < s.len() - 1 {
        assert(s.drop_last()[i] == s[i]);
        lemma_stake_bound(s.drop_last(), i);
    }
}

/// The sums after the amount of one entry is replaced.
pub proof fn lemma_sum_update(s: Seq<((u16, u64), u64)>, i: int, v: u64, n: u16)
    requires
        0 <= i < s.len(),
    ensures
        stake_sum(s.update(i, (s[i].0, v)), n) == stake_sum(s, n) + if s[i].0.0 == n {
            v - s[i].1
        } else {
            0
        },
    decreases s.len(),
{
    let t = s.update(i, (s[i].0, v));
    if i == s.len() - 1 {
        assert(t.drop_last() =~= s.drop_last());
    } else {
        lemma_sum_update(s.drop_last(), i, v, n);
        assert(t.drop_last() =~= s.drop_last().update(i, (s[i].0, v)));
        assert(t.last() == s.last());
    }
}

/// The sums after an amount is written under a key.
pub proof fn lemma_sum_put(s: Seq<((u16, u64), u64)>, k: (u16, u64), v: u64, n: u16)
    requires
        distinct_keys(s),
    ensures
        stake_sum(put(s, k, v), n) == stake_sum(s, n) + if k.0 == n {
            v - get_or(s, k, 0u64)
        } else {
            0
        },
{
    if has_key(s, k) {
        let i = index_of(s, k);
        assert(0 <= i < s.len() && s[i].0 == k);
        lemma_sum_update(s, i, v, n);
    } else {
        assert(s.push((k, v)).drop_last() =~= s);
    }
}

/// The sums after the entries of network `v` are dropped.
pub proof fn lemma_sum_drop_net(s: Seq<((u16, u64), u64)>, v: u16, n: u16)
    ensures
        stake_sum(drop_net(s, v), n) == if n == v {
            0
        } else {
            stake_sum(s, n)
        },
    decreases s.len(),
{
    if s.len() > 0 {
        lemma_sum_drop_net(s.drop_last(), v, n);
        if s.last().0.0 != v {
            assert(drop_net(s.drop_last(), v).push(s.last()).drop_last() =~= drop_net(
                s.drop_last(),
                v,
            ));
        }
    }
}

/// There are at most as many existing networks as the live count says.
pub proof fn lemma_networks_counted(s: State)
    requires
        s.wf(),
    ensures
        s.subnetwork_n.len() <= s.total_networks,
{
    assert forall|i: int| 0 <= i < s.subnetwork_n.len() implies has_value(
        s.subnet_namespace,
        (#[trigger] s.subnetwork_n[i]).0,
    ) by {
        crate::store::lemma_index_of(s.subnetwork_n, i);
    }
    crate::store::lemma_keys_among_values(s.subnetwork_n, s.subnet_namespace);
}

/// Erasing a network keeps every store free of repeated keys.
proof fn lemma_erase_stores_wf(s: State, v: u16)
    requires
        s.stores_wf(),
    ensures
        s.erase(v).stores_wf(),
{
    lemma_del(s.subnetwork_n, v, v);
    lemma_del(s.subnet_founder, v, v);
    lemma_del(s.epoch, v, v);
    lemma_del(s.max_allowed_uids, v, v);
    lemma_del(s.immunity_period, v, v);
    lemma_del(s.min_allowed_weights, v, v);
    lemma_del(s.registrations_this_interval, v, v);
    lemma_del(s.registrations_this_block, v, v);
    lemma_del(s.last_adjustment_block, v, v);
    lemma_del(s.blocks_since_last_step, v, v);
    lemma_del(s.last_mechanism_step_block, v, v);
    lemma_del(s.pending_emission, v, v);
    lemma_del(s.weights_set_rate_limit, v, v);
    lemma_del(s.adjustment_interval, v, v);
    lemma_del(s.target_registrations_per_interval, v, v);
    lemma_del(s.max_registrations_per_block, v, v);
    lemma_del(s.emission, v, v);
    lemma_del(s.incentive, v, v);
    lemma_del(s.dividends, v, v);
    lemma_del(s.last_update, v, v);
    lemma_del(s.total_subnet_stake, v, v);
    lemma_drop_net_distinct(s.uids, v);
    lemma_drop_net_distinct(s.keys, v);
    lemma_drop_net_distinct(s.names, v);
    lemma_drop_net_distinct(s.module_namespace, v);
    lemma_drop_net_distinct(s.block_at_registration, v);
    lemma_drop_net_distinct(s.stake, v);
    lemma_drop_net_distinct(s.is_network_member, v);
}

/// Erasing a network keeps the relations between the stores.
proof fn lemma_erase_relations(s: State, v: u16)
    requires
        s.wf(),
    ensures
        s.erase(v).slots_paired(),
        s.erase(v).ledger_balanced(),
        s.erase(v).ledger_scoped(),
        s.erase(v).vectors_sized(),
{
    let t = s.erase(v);
    assert forall|n: u16| #[trigger]
        has_key(t.total_subnet_stake, n) <==> has_key(t.subnetwork_n, n) by {
        lemma_del(s.total_subnet_stake, v, n);
        lemma_del(s.subnetwork_n, v, n);
        assert(has_key(s.total_subnet_stake, n) <==> has_key(s.subnetwork_n, n));
    }
    assert forall|n: u16, u: u16| #[trigger] has_key(t.keys, (n, u)) implies has_key(
        t.uids,
        (n, value_of(t.keys, (n, u))),
    ) && value_of(t.uids, (n, value_of(t.keys, (n, u)))) == u by {
        lemma_drop_net(s.keys, v, (n, u));
        let k = value_of(s.keys, (n, u));
        assert(has_key(s.keys, (n, u)));
        lemma_drop_net(s.uids, v, (n, k));
    }
    assert forall|n: u16, k: u64| #[trigger] has_key(t.uids, (n, k)) implies has_key(
        t.keys,
        (n, value_of(t.uids, (n, k))),
    ) && value_of(t.keys, (n, value_of(t.uids, (n, k)))) == k by {
        lemma_drop_net(s.uids, v, (n, k));
        let u = value_of(s.uids, (n, k));
        assert(has_key(s.uids, (n, k)));
        lemma_drop_net(s.keys, v, (n, u));
    }
    assert forall|n: u16| #[trigger]
        stake_sum(t.stake, n) == get_or(t.total_subnet_stake, n, 0u64) by {
        lemma_sum_drop_net(s.stake, v, n);
        lemma_del(s.total_subnet_stake, v, n);
        assert(stake_sum(s.stake, n) == get_or(s.total_subnet_stake, n, 0u64));
    }
    assert forall|n: u16| #[trigger] has_key(t.subnetwork_n, n) implies {
        &&& has_key(t.emission, n)
        &&& has_key(t.incentive, n)
        &&& has_key(t.dividends, n)
        &&& has_key(t.last_update, n)
        &&& value_of(t.emission, n).len() == value_of(t.subnetwork_n, n)
        &&& value_of(t.incentive, n).len() == value_of(t.subnetwork_n, n)
        &&& value_of(t.dividends, n).len() == value_of(t.subnetwork_n, n)
        &&& value_of(t.last_update, n).len() == value_of(t.subnetwork_n, n)
    } by {
        lemma_del(s.subnetwork_n, v, n);
        lemma_del(s.emission, v, n);
        lemma_del(s.incentive, v, n);
        lemma_del(s.dividends, v, n);
        lemma_del(s.last_update, v, n);
        assert(has_key(s.subnetwork_n, n));
    }
}

/// A teardown leaves the registry well formed.
pub proof fn lemma_remove_network_wf(s: State, name: Seq<u8>)
    requires
        s.wf(),
    ensures
        s.remove_network(name).wf(),
{
    if has_key(s.subnet_namespace, name) {
        let v = value_of(s.subnet_namespace, name);
        lemma_erase_stores_wf(s, v);
        lemma_erase_relations(s, v);
        lemma_del(s.subnet_namespace, name, name);
        let ns = s.subnet_namespace;
        let p = index_of(ns, name);
        assert(0 <= p < ns.len() && ns[p].0 == name);
        let r = s.remove_network(name);
        assert(r.subnet_namespace == ns.remove(p));
        assert forall|n: u16| #[trigger] has_key(r.subnetwork_n, n) implies has_value(
            r.subnet_namespace,
            n,
        ) by {
            lemma_del(s.subnetwork_n, v, n);
            assert(has_key(s.subnetwork_n, n));
            let j = choose|j: int| 0 <= j < ns.len() && (#[trigger] ns[j]).1 == n;
            let j2 = if j < p {
                j
            } else {
                j - 1
            };
            assert(r.subnet_namespace[j2] == ns[j]);
        }
    }
}

/// A creation leaves the registry well formed.
pub proof fn lemma_add_network_wf(
    s: State,
    key: u64,
    name: Seq<u8>,
    stake: u64,
    max_allowed_uids: u16,
    immunity_period: u16,
    min_allowed_weights: u16,
    epoch: u16,
)
    requires
        s.wf(),
        !has_key(s.subnet_namespace, name),
        s.add_fits(stake),
    ensures
        s.vacated(stake).wf(),
        !has_key(s.vacated(stake).subnet_namespace, name),
        get_or(s.vacated(stake).stake, (s.target(stake), key), 0u64) <= s.vacated(
            stake,
        ).network_stake(s.target(stake)),
        s.add_network(
            key,
            name,
            stake,
            max_allowed_uids,
            immunity_period,
            min_allowed_weights,
            epoch,
        ).wf(),
{
    let v = s.vacated(stake);
    let t = s.target(stake);
    let r = s.add_network(
        key,
        name,
        stake,
        max_allowed_uids,
        immunity_period,
        min_allowed_weights,
        epoch,
    );
    if s.at_capacity() {
        let gone = s.name_of(s.least_staked(stake));
        lemma_remove_network_wf(s, gone);
        lemma_del(s.subnet_namespace, gone, name);
    }
    assert(v.wf());
    assert(!has_key(v.subnet_namespace, name));
    let held = get_or(v.stake, (t, key), 0u64);
    assert(held <= v.network_stake(t)) by {
        assert(stake_sum(v.stake, t) == get_or(v.total_subnet_stake, t, 0u64));
        lemma_sum_nonneg(v.stake, t);
        if has_key(v.stake, (t, key)) {
            let i = index_of(v.stake, (t, key));
            assert(0 <= i < v.stake.len() && v.stake[i].0 == (t, key));
            lemma_stake_bound(v.stake, i);
        }
    }
    lemma_put(v.epoch, t, epoch, t);
    lemma_put(v.max_allowed_uids, t, max_allowed_uids, t);
    lemma_put(v.immunity_period, t, immunity_period, t);
    lemma_put(v.min_allowed_weights, t, min_allowed_weights, t);
    lemma_put(v.registrations_this_interval, t, 0u16, t);
    lemma_put(v.subnet_namespace, name, t, name);
    lemma_put(v.subnet_founder, t, key, t);
    lemma_put(v.subnetwork_n, t, 1u16, t);
    lemma_put(v.emission, t, seq![0u64], t);
    lemma_put(v.incentive, t, seq![0u16], t);
    lemma_put(v.dividends, t, seq![0u16], t);
    lemma_put(v.last_update, t, seq![0u64], t);
    lemma_put(v.stake, (t, key), (held + stake) as u64, (t, key));
    lemma_put(v.total_subnet_stake, t, (v.network_stake(t) + stake) as u64, t);
    assert(r.stores_wf());
    assert(r.counted());
    assert(r.slots_paired());
    assert(r.subnet_namespace == v.subnet_namespace.push((name, t)));
    assert forall|n: u16| #[trigger] has_key(r.subnetwork_n, n) implies has_value(
        r.subnet_namespace,
        n,
    ) by {
        lemma_put(v.subnetwork_n, t, 1u16, n);
        if n == t {
            assert(r.subnet_namespace[v.subnet_namespace.len() as int].1 == t);
        } else {
            assert(has_key(v.subnetwork_n, n));
            let j = choose|j: int|
                0 <= j < v.subnet_namespace.len() && (#[trigger] v.subnet_namespace[j]).1 == n;
            assert(r.subnet_namespace[j] == v.subnet_namespace[j]);
        }
    }
    assert forall|n: u16| #[trigger]
        has_key(r.total_subnet_stake, n) <==> has_key(r.subnetwork_n, n) by {
        lemma_put(v.total_subnet_stake, t, (v.network_stake(t) + stake) as u64, n);
        lemma_put(v.subnetwork_n, t, 1u16, n);
        assert(has_key(v.total_subnet_stake, n) <==> has_key(v.subnetwork_n, n));
    }
    assert forall|n: u16| #[trigger]
        stake_sum(r.stake, n) == get_or(r.total_subnet_stake, n, 0u64) by {
        lemma_sum_put(v.stake, (t, key), (held + stake) as u64, n);
        lemma_put(v.total_subnet_stake, t, (v.network_stake(t) + stake) as u64, n);
        assert(stake_sum(v.stake, n) == get_or(v.total_subnet_stake, n, 0u64));
    }
    assert forall|n: u16| #[trigger] has_key(r.subnetwork_n, n) implies {
        &&& has_key(r.emission, n)
        &&& has_key(r.incentive, n)
        &&& has_key(r.dividends, n)
        &&& has_key(r.last_update, n)
        &&& value_of(r.emission, n).len() == value_of(r.subnetwork_n, n)
        &&& value_of(r.incentive, n).len() == value_of(r.subnetwork_n, n)
        &&& value_of(r.dividends, n).len() == value_of(r.subnetwork_n, n)
        &&& value_of(r.last_update, n).len() == value_of(r.subnetwork_n, n)
    } by {
        lemma_put(v.subnetwork_n, t, 1u16, n);
        lemma_put(v.emission, t, seq![0u64], n);
        lemma_put(v.incentive, t, seq![0u16], n);
        lemma_put(v.dividends, t, seq![0u16], n);
        lemma_put(v.last_update, t, seq![0u64], n);
        if n != t {
            assert(has_key(v.subnetwork_n, n));
        }
    }
}

/// Recording a module leaves the registry well formed.
pub proof fn lemma_append_module_wf(s: State, netuid: u16, key: u64, name: Seq<u8>, block: u64)
    requires
        s.wf(),
        s.can_append(netuid, key, name),
    ensures
        s.append_module(netuid, key, name, block).wf(),
{
    let uid = value_of(s.subnetwork_n, netuid);
    let r = s.append_module(netuid, key, name, block);
    assert(has_key(s.subnetwork_n, netuid));
    lemma_put(s.subnetwork_n, netuid, (uid + 1) as u16, netuid);
    lemma_put(s.uids, (netuid, key), uid, (netuid, key));
    lemma_put(s.keys, (netuid, uid), key, (netuid, uid));
    lemma_put(s.names, (netuid, uid), name, (netuid, uid));
    lemma_put(s.module_namespace, (netuid, name), uid, (netuid, name));
    lemma_put(s.block_at_registration, (netuid, uid), block, (netuid, uid));
    lemma_put(s.is_network_member, (key, netuid), true, (key, netuid));
    lemma_put(s.emission, netuid, value_of(s.emission, netuid).push(0u64), netuid);
    lemma_put(s.incentive, netuid, value_of(s.incentive, netuid).push(0u16), netuid);
    lemma_put(s.dividends, netuid, value_of(s.dividends, netuid).push(0u16), netuid);
    lemma_put(s.last_update, netuid, value_of(s.last_update, netuid).push(0u64), netuid);
    assert(r.stores_wf());
    assert forall|n: u16| #[trigger] has_key(r.subnetwork_n, n) implies has_value(
        r.subnet_namespace,
        n,
    ) by {
        lemma_put(s.subnetwork_n, netuid, (uid + 1) as u16, n);
        assert(has_key(s.subnetwork_n, n));
    }
    assert forall|n: u16| #[trigger]
        has_key(r.total_subnet_stake, n) <==> has_key(r.subnetwork_n, n) by {
        lemma_put(s.subnetwork_n, netuid, (uid + 1) as u16, n);
        assert(has_key(s.total_subnet_stake, n) <==> has_key(s.subnetwork_n, n));
    }
    assert forall|n: u16, u: u16| #[trigger] has_key(r.keys, (n, u)) implies has_key(
        r.uids,
        (n, value_of(r.keys, (n, u))),
    ) && value_of(r.uids, (n, value_of(r.keys, (n, u)))) == u by {
        lemma_put(s.keys, (netuid, uid), key, (n, u));
        if (n, u) != (netuid, uid) {
            assert(has_key(s.keys, (n, u)));
            let k = value_of(s.keys, (n, u));
            lemma_put(s.uids, (netuid, key), uid, (n, k));
        }
    }
    assert forall|n: u16, k: u64| #[trigger] has_key(r.uids, (n, k)) implies has_key(
        r.keys,
        (n, value_of(r.uids, (n, k))),
    ) && value_of(r.keys, (n, value_of(r.uids, (n, k)))) == k by {
        lemma_put(s.uids, (netuid, key), uid, (n, k));
        if (n, k) != (netuid, key) {
            assert(has_key(s.uids, (n, k)));
            let u = value_of(s.uids, (n, k));
            lemma_put(s.keys, (netuid, uid), key, (n, u));
        }
    }
    assert forall|n: u16| #[trigger] has_key(r.subnetwork_n, n) implies {
        &&& has_key(r.emission, n)
        &&& has_key(r.incentive, n)
        &&& has_key(r.dividends, n)
        &&& has_key(r.last_update, n)
        &&& value_of(r.emission, n).len() == value_of(r.subnetwork_n, n)
        &&& value_of(r.incentive, n).len() == value_of(r.subnetwork_n, n)
        &&& value_of(r.dividends, n).len() == value_of(r.subnetwork_n, n)
        &&& value_of(r.last_update, n).len() == value_of(r.subnetwork_n, n)
    } by {
        lemma_put(s.subnetwork_n, netuid, (uid + 1) as u16, n);
        lemma_put(s.emission, netuid, value_of(s.emission, netuid).push(0u64), n);
        lemma_put(s.incentive, netuid, value_of(s.incentive, netuid).push(0u16), n);
        lemma_put(s.dividends, netuid, value_of(s.dividends, netuid).push(0u16), n);
        lemma_put(s.last_update, netuid, value_of(s.last_update, netuid).push(0u64), n);
        assert(has_key(s.subnetwork_n, n));
    }
}

/// Writing one emission leaves the registry well formed.
pub proof fn lemma_set_emission_wf(s: State, netuid: u16, uid: u16, emission: u64)
    requires
        s.wf(),
    ensures
        s.set_emission(netuid, uid, emission).wf(),
{
    let v = get_or(s.emission, netuid, Seq::<u64>::empty());
    let r = s.set_emission(netuid, uid, emission);
    if uid < v.len() {
        lemma_put(s.emission, netuid, v.update(uid as int, emission), netuid);
        assert forall|n: u16| #[trigger] has_key(r.subnetwork_n, n) implies {
            &&& has_key(r.emission, n)
            &&& has_key(r.incentive, n)
            &&& has_key(r.dividends, n)
            &&& has_key(r.last_update, n)
            &&& value_of(r.emission, n).len() == value_of(r.subnetwork_n, n)
            &&& value_of(r.incentive, n).len() == value_of(r.subnetwork_n, n)
            &&& value_of(r.dividends, n).len() == value_of(r.subnetwork_n, n)
            &&& value_of(r.last_update, n).len() == value_of(r.subnetwork_n, n)
        } by {
            lemma_put(s.emission, netuid, v.update(uid as int, emission), n);
        }
    }
}

/// Writing one incentive leaves the registry well formed.
pub proof fn lemma_set_incentive_wf(s: State, netuid: u16, uid: u16, incentive: u16)
    requires
        s.wf(),
    ensures
        s.set_incentive(netuid, uid, incentive).wf(),
{
    let v = get_or(s.incentive, netuid, Seq::<u16>::empty());
    let r = s.set_incentive(netuid, uid, incentive);
    if uid < v.len() {
        lemma_put(s.incentive, netuid, v.update(uid as int, incentive), netuid);
        assert forall|n: u16| #[trigger] has_key(r.subnetwork_n, n) implies {
            &&& has_key(r.emission, n)
            &&& has_key(r.incentive, n)
            &&& has_key(r.dividends, n)
            &&& has_key(r.last_update, n)
            &&& value_of(r.emission, n).len() == value_of(r.subnetwork_n, n)
            &&& value_of(r.incentive, n).len() == value_of(r.subnetwork_n, n)
            &&& value_of(r.dividends, n).len() == value_of(r.subnetwork_n, n)
            &&& value_of(r.last_update, n).len() == value_of(r.subnetwork_n, n)
        } by {
            lemma_put(s.incentive, netuid, v.update(uid as int, incentive), n);
        }
    }
}

/// Writing one slot's dividends leaves the registry well formed.
pub proof fn lemma_set_dividends_wf(s: State, netuid: u16, uid: u16, dividends: u16)
    requires
        s.wf(),
    ensures
        s.set_dividends(netuid, uid, dividends).wf(),
{
    let v = get_or(s.dividends, netuid, Seq::<u16>::empty());
    let r = s.set_dividends(netuid, uid, dividends);
    if uid < v.len() {
        lemma_put(s.dividends, netuid, v.update(uid as int, dividends), netuid);
        assert forall|n: u16| #[trigger] has_key(r.subnetwork_n, n) implies {
            &&& has_key(r.emission, n)
            &&& has_key(r.incentive, n)
            &&& has_key(r.dividends, n)
            &&& has_key(r.last_update, n)
            &&& value_of(r.emission, n).len() == value_of(r.subnetwork_n, n)
            &&& value_of(r.incentive, n).len() == value_of(r.subnetwork_n, n)
            &&& value_of(r.dividends, n).len() == value_of(r.subnetwork_n, n)
            &&& value_of(r.last_update, n).len() == value_of(r.subnetwork_n, n)
        } by {
            lemma_put(s.dividends, netuid, v.update(uid as int, dividends), n);
        }
    }
}

/// Writing one last update leaves the registry well formed.
pub proof fn lemma_set_last_update_wf(s: State, netuid: u16, uid: u16, last_update: u64)
    requires
        s.wf(),
    ensures
        s.set_last_update(netuid, uid, last_update).wf(),
{
    let v = get_or(s.last_update, netuid, Seq::<u64>::empty());
    let r = s.set_last_update(netuid, uid, last_update);
    if uid < v.len() {
        lemma_put(s.last_update, netuid, v.update(uid as int, last_update), netuid);
        assert forall|n: u16| #[trigger] has_key(r.subnetwork_n, n) implies {
            &&& has_key(r.emission, n)
            &&& has_key(r.incentive, n)
            &&& has_key(r.dividends, n)
            &&& has_key(r.last_update, n)
            &&& value_of(r.emission, n).len() == value_of(r.subnetwork_n, n)
            &&& value_of(r.incentive, n).len() == value_of(r.subnetwork_n, n)
            &&& value_of(r.dividends, n).len() == value_of(r.subnetwork_n, n)
            &&& value_of(r.last_update, n).len() == value_of(r.subnetwork_n, n)
        } by {
            lemma_put(s.last_update, netuid, v.update(uid as int, last_update), n);
        }
    }
}

} // verus!
