//! The plain values that the registry takes and hands out.

use vstd::prelude::*;

verus! {

/// A reference to an account.
pub type AccountId = u64;

/// Why a request was turned down.
#[derive(Debug, Clone, Copy, PartialEq, Eq)]
pub enum Error {
    /// A network of that name is registered already.
    DuplicateName,
    /// The key holds no slot on the network.
    NotRegistered,
    /// The slot has no key assigned.
    SlotNotFound,
}

/// The tunable parameters that a network is created with.
#[derive(Debug, Clone, Copy, PartialEq, Eq)]
pub struct SubnetParams {
    pub immunity_period: u16,
    pub min_allowed_weights: u16,
    pub max_allowed_uids: u16,
    pub epoch: u16,
}

/// A summary of one existing network.
#[derive(Debug, Clone, PartialEq, Eq)]
pub struct SubnetInfo {
    pub netuid: u16,
    pub name: Vec<u8>,
    pub immunity_period: u16,
    pub min_allowed_weights: u16,
    pub subnetwork_n: u16,
    pub max_allowed_uids: u16,
    pub blocks_since_last_step: u64,
    pub epoch: u16,
}

/// What a `SubnetInfo` holds, with the name as a sequence of bytes.
pub struct SubnetInfoView {
    pub netuid: u16,
    pub name: Seq<u8>,
    pub immunity_period: u16,
    pub min_allowed_weights: u16,
    pub subnetwork_n: u16,
    pub max_allowed_uids: u16,
    pub blocks_since_last_step: u64,
    pub epoch: u16,
}

impl View for SubnetInfo {
    type V = SubnetInfoView;

    open spec fn view(&self) -> SubnetInfoView {
        SubnetInfoView {
            netuid: self.netuid,
            name: self.name@,
            immunity_period: self.immunity_period,
            min_allowed_weights: self.min_allowed_weights,
            subnetwork_n: self.subnetwork_n,
            max_allowed_uids: self.max_allowed_uids,
            blocks_since_last_step: self.blocks_since_last_step,
            epoch: self.epoch,
        }
    }
}

/// Something the registry did that its surroundings have to act on: the
/// registry records it, the caller collects it and passes it on.
#[derive(Debug, Clone, PartialEq, Eq)]
pub enum Event {
    /// A network was created under this identifier and name.
    NetworkAdded(u16, Vec<u8>),
    /// The network under this identifier was torn down.
    NetworkRemoved(u16),
    /// During a teardown, the stake that this account held on the network
    /// was handed back: network, account, amount.
    StakeReleased(u16, AccountId, u64),
}

/// What an `Event` holds, with the name as a sequence of bytes.
pub enum EventView {
    NetworkAdded(u16, Seq<u8>),
    NetworkRemoved(u16),
    StakeReleased(u16, u64, u64),
}

impl View for Event {
    type V = EventView;

    open spec fn view(&self) -> EventView {
        match *self {
            Event::NetworkAdded(netuid, name) => EventView::NetworkAdded(netuid, name@),
            Event::NetworkRemoved(netuid) => EventView::NetworkRemoved(netuid),
            Event::StakeReleased(netuid, key, amount) => EventView::StakeReleased(
                netuid,
                key,
                amount,
            ),
        }
    }
}

} // verus!
