//! What holds of every registry, whatever was done to it, stated over the
//! registry as a mathematical value.

use vstd::prelude::*;
use crate::state::{first_key_of, last_key_of, lemma_add_network_wf, lemma_remove_network_wf};
use crate::state::{released, released_amount, stake_sum, State};
use crate::store::{drop_net, get_or, has_key, has_value, index_of, value_of};
use crate::store::{lemma_del, lemma_drop_net, lemma_index_of, lemma_put};
use crate::types::Error;
use crate::types::EventView;

verus! {

/// `first_key_of` finds the key of an entry that holds `v` where there is
/// one, and nothing where there is none.
pub proof fn lemma_first_key_of<K, V>(s: Seq<(K, V)>, v: V)
    ensures
        match first_key_of(s, v) {
            Some(k) => exists|i: int| 0 <= i < s.len() && (#[trigger] s[i]) == (k, v),
            None => forall|i: int| 0 <= i < s.len() ==> (#[trigger] s[i]).1 != v,
        },
    decreases s.len(),
{
    if s.len() > 0 {
        if s[0].1 == v {
            assert(s[0] == (s[0].0, v));
        } else {
            let r = s.skip(1);
            lemma_first_key_of(r, v);
            match first_key_of(r, v) {
                Some(k) => {
                    let i = choose|i: int| 0 <= i < r.len() && (#[trigger] r[i]) == (k, v);
                    assert(s[i + 1] == (k, v));
                },
                None => {
                    assert forall|i: int| 0 <= i < s.len() implies (#[trigger] s[i]).1 != v by {
                        if i > 0 {
                            assert(r[i - 1] == s[i]);
                        }
                    }
                },
            }
        }
    }
}

/// `last_key_of` finds the key of an entry that holds `v` where there is
/// one, and nothing where there is none.
pub proof fn lemma_last_key_of<K, V>(s: Seq<(K, V)>, v: V)
    ensures
        match last_key_of(s, v) {
            Some(k) => exists|i: int| 0 <= i < s.len() && (#[trigger] s[i]) == (k, v),
            None => forall|i: int| 0 <= i < s.len() ==> (#[trigger] s[i]).1 != v,
        },
    decreases s.len(),
{
    if s.len() > 0 {
        if s.last().1 == v {
            assert(s[s.len() - 1] == (s.last().0, v));
        } else {
            let r = s.drop_last();
            lemma_last_key_of(r, v);
            match last_key_of(r, v) {
                Some(k) => {
                    let i = choose|i: int| 0 <= i < r.len() && (#[trigger] r[i]) == (k, v);
                    assert(s[i] == (k, v));
                },
                None => {
                    assert forall|i: int| 0 <= i < s.len() implies (#[trigger] s[i]).1 != v by {
                        if i < r.len() {
                            assert(r[i] == s[i]);
                        }
                    }
                },
            }
        }
    }
}

/// The aggregate of a network is the sum of the amounts staked on it.
pub proof fn law_aggregate_is_sum(s: State, netuid: u16)
    requires
        s.wf(),
    ensures
        stake_sum(s.stake, netuid) == s.network_stake(netuid),
{
}

/// The slot that a key holds on a network has that key.
pub proof fn law_key_round_trip(s: State, netuid: u16, key: u64)
    requires
        s.wf(),
        has_key(s.uids, (netuid, key)),
    ensures
        match s.uid_for_key(netuid, key) {
            Ok(uid) => s.key_for_uid(netuid, uid) == Ok::<u64, Error>(key),
            Err(_) => false,
        },
{
}

/// The key of a slot of a network holds that slot.
pub proof fn law_uid_round_trip(s: State, netuid: u16, uid: u16)
    requires
        s.wf(),
        has_key(s.keys, (netuid, uid)),
    ensures
        match s.key_for_uid(netuid, uid) {
            Ok(key) => s.uid_for_key(netuid, key) == Ok::<u16, Error>(uid),
            Err(_) => false,
        },
{
}

/// Each attribute vector of an existing network reaches over all its slots.
pub proof fn law_vectors_cover_slots(s: State, netuid: u16)
    requires
        s.wf(),
        s.exists_network(netuid),
    ensures
        get_or(s.emission, netuid, Seq::<u64>::empty()).len() >= get_or(
            s.subnetwork_n,
            netuid,
            0u16,
        ),
        get_or(s.incentive, netuid, Seq::<u16>::empty()).len() >= get_or(
            s.subnetwork_n,
            netuid,
            0u16,
        ),
        get_or(s.dividends, netuid, Seq::<u16>::empty()).len() >= get_or(
            s.subnetwork_n,
            netuid,
            0u16,
        ),
        get_or(s.last_update, netuid, Seq::<u64>::empty()).len() >= get_or(
            s.subnetwork_n,
            netuid,
            0u16,
        ),
{
}

/// The minimum number of weights of a network is never above its number of
/// slots, whatever was configured, and never above what was configured.
pub proof fn law_min_allowed_weights_bounded(s: State, netuid: u16)
    ensures
        s.min_allowed_weights_of(netuid) <= get_or(s.subnetwork_n, netuid, 0u16),
        s.min_allowed_weights_of(netuid) <= get_or(s.min_allowed_weights, netuid, 0u16),
        get_or(s.min_allowed_weights, netuid, 0u16) <= get_or(s.subnetwork_n, netuid, 0u16)
            ==> s.min_allowed_weights_of(netuid) == get_or(s.min_allowed_weights, netuid, 0u16),
{
}

/// Where no two names stand for one identifier, the name registered for the
/// identifier of a name is that name.
pub proof fn law_name_round_trip(s: State, name: Seq<u8>)
    requires
        s.wf(),
        s.names_unique(),
        has_key(s.subnet_namespace, name),
    ensures
        s.name_of(value_of(s.subnet_namespace, name)) == name,
{
    let ns = s.subnet_namespace;
    let p = index_of(ns, name);
    assert(0 <= p < ns.len() && ns[p].0 == name);
    let v = ns[p].1;
    lemma_first_key_of(ns, v);
    match first_key_of(ns, v) {
        Some(k) => {
            let i = choose|i: int| 0 <= i < ns.len() && (#[trigger] ns[i]) == (k, v);
            if i < p {
                assert(ns[i].1 != ns[p].1);
            } else if p < i {
                assert(ns[p].1 != ns[i].1);
            }
        },
        None => {
            assert(ns[p].1 == v);
        },
    }
}

/// The name registered for an existing network stands for its identifier.
pub proof fn law_netuid_round_trip(s: State, netuid: u16)
    requires
        s.wf(),
        s.exists_network(netuid),
    ensures
        has_key(s.subnet_namespace, s.name_of(netuid)),
        value_of(s.subnet_namespace, s.name_of(netuid)) == netuid,
{
    let ns = s.subnet_namespace;
    assert(has_value(ns, netuid));
    lemma_first_key_of(ns, netuid);
    let k = first_key_of(ns, netuid).unwrap();
    let i = choose|i: int| 0 <= i < ns.len() && (#[trigger] ns[i]) == (k, netuid);
    lemma_index_of(ns, i);
}

/// A registry without networks is well formed, its names and networks
/// correspond one to one, and its identifiers are those below the live count.
pub proof fn law_empty_is_named(max_allowed_subnets: u16, block_emission: u64)
    ensures
        State::empty(max_allowed_subnets, block_emission).wf(),
        State::empty(max_allowed_subnets, block_emission).named(),
        State::empty(max_allowed_subnets, block_emission).dense(),
{
    let s = State::empty(max_allowed_subnets, block_emission);
    assert(stake_sum(s.stake, 0) == 0);
    assert(s.dense());
}

/// A teardown keeps names and networks in one-to-one correspondence.
pub proof fn law_remove_keeps_named(s: State, name: Seq<u8>)
    requires
        s.wf(),
        s.named(),
    ensures
        s.remove_network(name).named(),
{
    let ns = s.subnet_namespace;
    if has_key(ns, name) {
        let p = index_of(ns, name);
        assert(0 <= p < ns.len() && ns[p].0 == name);
        let v = ns[p].1;
        let r = s.remove_network(name);
        let rs = r.subnet_namespace;
        assert(rs == ns.remove(p));
        assert forall|i: int, j: int| 0 <= i < j < rs.len() implies (#[trigger] rs[i]).1 != (
        #[trigger] rs[j]).1 by {
            let a = if i < p { i } else { i + 1 };
            let b = if j < p { j } else { j + 1 };
            assert(rs[i] == ns[a] && rs[j] == ns[b]);
            assert(ns[a].1 != ns[b].1);
        }
        assert forall|i: int| 0 <= i < rs.len() implies has_key(
            r.subnetwork_n,
            (#[trigger] rs[i]).1,
        ) by {
            let a = if i < p { i } else { i + 1 };
            assert(rs[i] == ns[a]);
            if a < p {
                assert(ns[a].1 != ns[p].1);
            } else {
                assert(ns[p].1 != ns[a].1);
            }
            assert(has_key(s.subnetwork_n, ns[a].1));
            lemma_del(s.subnetwork_n, v, ns[a].1);
        }
    }
}

/// A creation keeps names and networks in one-to-one correspondence, where
/// the identifier that it assigns is free: always once the registry is full,
/// and before that where no network exists under the live count.
pub proof fn law_add_keeps_named(
    s: State,
    key: u64,
    name: Seq<u8>,
    stake: u64,
    max_allowed_uids: u16,
    immunity_period: u16,
    min_allowed_weights: u16,
    epoch: u16,
)
    requires
        s.wf(),
        s.named(),
        !has_key(s.subnet_namespace, name),
        s.add_fits(stake),
        s.at_capacity() || !s.exists_network(s.total_networks),
    ensures
        !s.vacated(stake).exists_network(s.target(stake)),
        s.add_network(
            key,
            name,
            stake,
            max_allowed_uids,
            immunity_period,
            min_allowed_weights,
            epoch,
        ).named(),
{
    let v = s.vacated(stake);
    let t = s.target(stake);
    let r = s.add_network(
        key,
        name,
        stake,
        max_allowed_uids,
        immunity_period,
        min_allowed_weights,
        epoch,
    );
    lemma_add_network_wf(
        s,
        key,
        name,
        stake,
        max_allowed_uids,
        immunity_period,
        min_allowed_weights,
        epoch,
    );
    if s.at_capacity() {
        let gone = s.name_of(t);
        law_remove_keeps_named(s, gone);
        if has_key(s.subnet_namespace, gone) {
            let w = value_of(s.subnet_namespace, gone);
            lemma_del(s.subnetwork_n, w, t);
            if s.exists_network(t) {
                law_netuid_round_trip(s, t);
            }
        } else {
            if s.exists_network(t) {
                law_netuid_round_trip(s, t);
            }
        }
    }
    assert(v.named());
    assert(!has_key(v.subnetwork_n, t));
    let ns = v.subnet_namespace;
    let rs = r.subnet_namespace;
    assert(rs == ns.push((name, t)));
    lemma_put(v.subnetwork_n, t, 1u16, t);
    assert forall|i: int, j: int| 0 <= i < j < rs.len() implies (#[trigger] rs[i]).1 != (
    #[trigger] rs[j]).1 by {
        if j == ns.len() {
            assert(rs[i] == ns[i]);
            assert(has_key(v.subnetwork_n, ns[i].1));
        } else {
            assert(rs[i] == ns[i] && rs[j] == ns[j]);
        }
    }
    assert forall|i: int| 0 <= i < rs.len() implies has_key(
        r.subnetwork_n,
        (#[trigger] rs[i]).1,
    ) by {
        if i < ns.len() {
            assert(rs[i] == ns[i]);
            assert(has_key(v.subnetwork_n, ns[i].1));
            lemma_put(v.subnetwork_n, t, 1u16, ns[i].1);
        }
    }
}

/// A creation keeps the identifiers of the existing networks those below the
/// live count, and names and networks in one-to-one correspondence: both
/// hold of every registry that was built by creations alone.
pub proof fn law_add_keeps_dense(
    s: State,
    key: u64,
    name: Seq<u8>,
    stake: u64,
    max_allowed_uids: u16,
    immunity_period: u16,
    min_allowed_weights: u16,
    epoch: u16,
)
    requires
        s.wf(),
        s.named(),
        s.dense(),
        !has_key(s.subnet_namespace, name),
        s.add_fits(stake),
    ensures
        s.add_network(
            key,
            name,
            stake,
            max_allowed_uids,
            immunity_period,
            min_allowed_weights,
            epoch,
        ).named(),
        s.add_network(
            key,
            name,
            stake,
            max_allowed_uids,
            immunity_period,
            min_allowed_weights,
            epoch,
        ).dense(),
{
    let v = s.vacated(stake);
    let t = s.target(stake);
    let r = s.add_network(
        key,
        name,
        stake,
        max_allowed_uids,
        immunity_period,
        min_allowed_weights,
        epoch,
    );
    assert(has_key(s.subnetwork_n, s.total_networks) <==> s.total_networks < s.total_networks);
    law_add_keeps_named(
        s,
        key,
        name,
        stake,
        max_allowed_uids,
        immunity_period,
        min_allowed_weights,
        epoch,
    );
    if s.at_capacity() {
        if s.exists_network(t) {
            law_netuid_round_trip(s, t);
            let p = index_of(s.subnet_namespace, s.name_of(t));
            assert(0 <= p < s.subnet_namespace.len());
        } else {
            assert(has_key(s.subnetwork_n, t) <==> t < s.total_networks);
            if stake > 0 {
                let ts = s.total_subnet_stake;
                lemma_last_key_of(ts, 0u64);
                if last_key_of(ts, 0u64).is_some() {
                    let k = last_key_of(ts, 0u64).unwrap();
                    let i = choose|i: int| 0 <= i < ts.len() && (#[trigger] ts[i]) == (k, 0u64);
                    lemma_index_of(ts, i);
                    assert(has_key(ts, k));
                    assert(has_key(s.subnetwork_n, k));
                }
            }
            assert(t == 0);
            assert(s.subnet_namespace.len() == 0);
            assert(!has_key(s.subnet_namespace, s.name_of(t)));
        }
    }
    assert forall|n: u16| #[trigger] has_key(r.subnetwork_n, n) <==> n < r.total_networks by {
        lemma_put(v.subnetwork_n, t, 1u16, n);
        assert(has_key(s.subnetwork_n, n) <==> n < s.total_networks);
        if s.at_capacity() && s.exists_network(t) {
            lemma_del(s.subnetwork_n, t, n);
            assert(has_key(s.subnetwork_n, t) <==> t < s.total_networks);
        }
    }
}

/// After a teardown the network does not exist and no store holds a record
/// of it, so that every read for its identifier gives the default; tearing
/// down the same name once more changes nothing and gives zero.
pub proof fn law_removed_network_is_gone(s: State, name: Seq<u8>)
    requires
        s.wf(),
        has_key(s.subnet_namespace, name),
    ensures
        !s.remove_network(name).exists_network(s.removed_netuid(name)),
        s.remove_network(name).no_trace_of(s.removed_netuid(name)),
        !has_key(s.remove_network(name).subnet_namespace, name),
        s.remove_network(name).remove_network(name) == s.remove_network(name),
        s.remove_network(name).removed_netuid(name) == 0,
{
    let v = value_of(s.subnet_namespace, name);
    let r = s.remove_network(name);
    lemma_del(s.subnet_namespace, name, name);
    lemma_del(s.subnetwork_n, v, v);
    lemma_del(s.subnet_founder, v, v);
    lemma_del(s.epoch, v, v);
    lemma_del(s.max_allowed_uids, v, v);
    lemma_del(s.immunity_period, v, v);
    lemma_del(s.min_allowed_weights, v, v);
    lemma_del(s.registrations_this_interval, v, v);
    lemma_del(s.registrations_this_block, v, v);
    lemma_del(s.last_adjustment_block, v, v);
    lemma_del(s.blocks_since_last_step, v, v);
    lemma_del(s.last_mechanism_step_block, v, v);
    lemma_del(s.pending_emission, v, v);
    lemma_del(s.weights_set_rate_limit, v, v);
    lemma_del(s.adjustment_interval, v, v);
    lemma_del(s.target_registrations_per_interval, v, v);
    lemma_del(s.max_registrations_per_block, v, v);
    lemma_del(s.emission, v, v);
    lemma_del(s.incentive, v, v);
    lemma_del(s.dividends, v, v);
    lemma_del(s.last_update, v, v);
    lemma_del(s.total_subnet_stake, v, v);
    assert forall|k: u64| !#[trigger] has_key(r.uids, (v, k)) by {
        lemma_drop_net(s.uids, v, (v, k));
    }
    assert forall|u: u16| !#[trigger] has_key(r.keys, (v, u)) by {
        lemma_drop_net(s.keys, v, (v, u));
    }
    assert forall|u: u16| !#[trigger] has_key(r.names, (v, u)) by {
        lemma_drop_net(s.names, v, (v, u));
    }
    assert forall|m: Seq<u8>| !#[trigger] has_key(r.module_namespace, (v, m)) by {
        lemma_drop_net(s.module_namespace, v, (v, m));
    }
    assert forall|u: u16| !#[trigger] has_key(r.block_at_registration, (v, u)) by {
        lemma_drop_net(s.block_at_registration, v, (v, u));
    }
    assert forall|k: u64| !#[trigger] has_key(r.stake, (v, k)) by {
        lemma_drop_net(s.stake, v, (v, k));
    }
    assert forall|k: u64| !#[trigger] has_key(r.is_network_member, (k, v)) by {
        lemma_drop_net(s.is_network_member, v, (k, v));
    }
}

/// After the teardown of a network whose name was the only one to stand for
/// its identifier, no name stands for that identifier.
pub proof fn law_removed_network_has_no_name(s: State, name: Seq<u8>)
    requires
        s.wf(),
        s.names_unique(),
        has_key(s.subnet_namespace, name),
    ensures
        !has_value(s.remove_network(name).subnet_namespace, s.removed_netuid(name)),
        s.remove_network(name).name_of(s.removed_netuid(name)) == Seq::<u8>::empty(),
{
    let ns = s.subnet_namespace;
    let p = index_of(ns, name);
    assert(0 <= p < ns.len() && ns[p].0 == name);
    let v = ns[p].1;
    let rs = s.remove_network(name).subnet_namespace;
    assert(rs == ns.remove(p));
    assert forall|i: int| 0 <= i < rs.len() implies (#[trigger] rs[i]).1 != v by {
        let a = if i < p { i } else { i + 1 };
        assert(rs[i] == ns[a]);
        if a < p {
            assert(ns[a].1 != ns[p].1);
        } else {
            assert(ns[p].1 != ns[a].1);
        }
    }
    lemma_first_key_of(rs, v);
}

/// A teardown releases each amount staked on the network once: there are as
/// many releases as the ledger has entries for the network, every such entry
/// is released with its account and amount, and the amounts released add up
/// to the sum of the amounts staked on the network.
pub proof fn law_releases_cover_ledger(ledger: Seq<((u16, u64), u64)>, netuid: u16)
    ensures
        released(ledger, netuid).len() + drop_net(ledger, netuid).len() == ledger.len(),
        forall|i: int|
            0 <= i < ledger.len() && (#[trigger] ledger[i]).0.0 == netuid ==> released(
                ledger,
                netuid,
            ).contains(EventView::StakeReleased(netuid, ledger[i].0.1, ledger[i].1)),
        released_amount(released(ledger, netuid)) == stake_sum(ledger, netuid),
    decreases ledger.len(),
{
    if ledger.len() > 0 {
        let rest = ledger.drop_last();
        let last = ledger.last();
        law_releases_cover_ledger(rest, netuid);
        let r = released(ledger, netuid);
        if last.0.0 == netuid {
            let e = EventView::StakeReleased(netuid, last.0.1, last.1);
            assert(r == released(rest, netuid).push(e));
            assert(r.drop_last() =~= released(rest, netuid));
            assert(r[r.len() - 1] == e);
        }
        assert forall|i: int|
            0 <= i < ledger.len() && (#[trigger] ledger[i]).0.0 == netuid implies r.contains(
            EventView::StakeReleased(netuid, ledger[i].0.1, ledger[i].1),
        ) by {
            if i < rest.len() {
                assert(rest[i] == ledger[i]);
                let e = EventView::StakeReleased(netuid, ledger[i].0.1, ledger[i].1);
                assert(released(rest, netuid).contains(e));
                let j = choose|j: int|
                    0 <= j < released(rest, netuid).len() && released(rest, netuid)[j] == e;
                assert(r[j] == e);
            }
        }
    }
}

/// Where some existing network has no stake, the eviction scan of a
/// creation with stake ends on an existing network without stake: on one of
/// least aggregate.
pub proof fn law_scan_finds_unstaked(s: State, stake: u64, netuid: u16)
    requires
        s.wf(),
        stake > 0,
        s.exists_network(netuid),
        s.network_stake(netuid) == 0,
    ensures
        s.network_stake(s.least_staked(stake)) == 0,
        s.is_least_staked(s.least_staked(stake)),
{
    let ts = s.total_subnet_stake;
    assert(has_key(ts, netuid));
    let p = index_of(ts, netuid);
    assert(0 <= p < ts.len() && ts[p].0 == netuid);
    assert(ts[p].1 == 0);
    lemma_last_key_of(ts, 0u64);
    let k = last_key_of(ts, 0u64).unwrap();
    let i = choose|i: int| 0 <= i < ts.len() && (#[trigger] ts[i]) == (k, 0u64);
    lemma_index_of(ts, i);
    assert(has_key(ts, k));
}

/// Where every existing network has some stake, or the creation brings
/// none, the eviction scan ends on identifier 0, whatever the aggregates
/// are.
pub proof fn law_scan_defaults(s: State, stake: u64)
    requires
        s.wf(),
        stake == 0 || forall|n: u16| #[trigger] s.exists_network(n) ==> s.network_stake(n) > 0,
    ensures
        s.least_staked(stake) == 0,
{
    if stake > 0 {
        let ts = s.total_subnet_stake;
        lemma_last_key_of(ts, 0u64);
        if last_key_of(ts, 0u64).is_some() {
            let k = last_key_of(ts, 0u64).unwrap();
            let i = choose|i: int| 0 <= i < ts.len() && (#[trigger] ts[i]) == (k, 0u64);
            lemma_index_of(ts, i);
            assert(has_key(ts, k));
            assert(s.exists_network(k));
        }
    }
}

/// In a full registry whose names and networks correspond one to one, a
/// creation with stake, where the eviction scan ends on a network of least
/// aggregate, evicts that network and no other and gives its identifier to
/// the new network: the evicted network's name is gone, the new name stands
/// for the identifier, the new network's aggregate is the founder's stake,
/// every other network exists as before, and neither the live count nor the
/// number of existing networks changes.
pub proof fn law_eviction_reuses_identifier(
    s: State,
    key: u64,
    name: Seq<u8>,
    stake: u64,
    max_allowed_uids: u16,
    immunity_period: u16,
    min_allowed_weights: u16,
    epoch: u16,
)
    requires
        s.wf(),
        s.named(),
        s.at_capacity(),
        !has_key(s.subnet_namespace, name),
        stake > s.network_stake(s.least_staked(stake)),
        s.is_least_staked(s.least_staked(stake)),
        s.add_fits(stake),
    ensures
        ({
            let victim = s.least_staked(stake);
            let r = s.add_network(
                key,
                name,
                stake,
                max_allowed_uids,
                immunity_period,
                min_allowed_weights,
                epoch,
            );
            &&& s.target(stake) == victim
            &&& has_key(s.subnet_namespace, s.name_of(victim))
            &&& !has_key(r.subnet_namespace, s.name_of(victim))
            &&& has_key(r.subnet_namespace, name)
            &&& value_of(r.subnet_namespace, name) == victim
            &&& r.exists_network(victim)
            &&& get_or(r.subnetwork_n, victim, 0u16) == 1
            &&& r.network_stake(victim) == stake
            &&& forall|n: u16| n != victim ==> (#[trigger] r.exists_network(n)) == s.exists_network(n)
            &&& r.total_networks == s.total_networks
            &&& r.subnetwork_n.len() == s.subnetwork_n.len()
        }),
{
    let t = s.least_staked(stake);
    let gone = s.name_of(t);
    let v = s.vacated(stake);
    let r = s.add_network(
        key,
        name,
        stake,
        max_allowed_uids,
        immunity_period,
        min_allowed_weights,
        epoch,
    );
    law_netuid_round_trip(s, t);
    assert(v == s.remove_network(gone));
    let p = index_of(s.subnet_namespace, gone);
    assert(0 <= p < s.subnet_namespace.len());
    lemma_remove_network_wf(s, gone);
    lemma_del(s.subnet_namespace, gone, gone);
    lemma_del(s.subnet_namespace, gone, name);
    lemma_put(v.subnet_namespace, name, t, gone);
    lemma_put(v.subnet_namespace, name, t, name);
    lemma_del(s.subnetwork_n, t, t);
    lemma_put(v.subnetwork_n, t, 1u16, t);
    lemma_del(s.total_subnet_stake, t, t);
    lemma_put(v.total_subnet_stake, t, stake, t);
    assert forall|n: u16| n != t implies (#[trigger] r.exists_network(n)) == s.exists_network(
        n,
    ) by {
        lemma_del(s.subnetwork_n, t, n);
        lemma_put(v.subnetwork_n, t, 1u16, n);
    }
}

} // verus!
