//! Voting module that gates an underlying voting module's power behind zero-knowledge
//! polls: the DAO records, per proposal, a snapshot of the voter set (a Merkle root and
//! the total power) and registers it as a poll with a poll registry.
use vstd::prelude::*;

use crate::keyed::{keys_unique, set_key, as_map};
use crate::ordered::{ascending, find_id, id_map, lemma_id_map_entries, put_id, has_id};
use crate::text::{decimal, push_decimal};
use crate::uint::{decimal_percent, u256_gt, u256_is_zero, Decimal, U256};

verus! {

/// How many of the highest-numbered snapshots a height lookup examines.

/// Minimum activity the DAO requires of its voting module.
#[derive(Clone, Copy, Debug, PartialEq, Eq)]
pub enum ActiveThreshold {
    /// At least this much voting power.
    AbsoluteCount { count: U256 },
    /// At least this share of the total power.
    Percentage { percent: Decimal },
}

#[derive(Debug)]
pub struct InstantiateMsg {
    /// Address of the underlying voting module that provides real voter
    /// membership data and token weights.
    pub underlying_voting_module: String,
    /// Address of the PollRegistry contract that manages ZK poll lifecycle.
    pub poll_registry: String,
    /// Optional active threshold for DAO activity check.
    pub active_threshold: Option<ActiveThreshold>,
}

#[derive(Debug)]
pub enum ExecuteMsg {
    /// Update the underlying voting module or PollRegistry address.
    /// Only callable by the DAO.
    UpdateConfig { underlying_voting_module: Option<String>, poll_registry: Option<String> },
    /// Sets the active threshold to a new value. Only the DAO may call this.
    UpdateActiveThreshold { new_threshold: Option<ActiveThreshold> },
    /// Create a snapshot of the voter set for a given proposal ID and register
    /// the Merkle root with PollRegistry.
    SnapshotVoters { proposal_id: u64, merkle_root: String, total_power: U256 },
}

/// The expected query message for PollRegistry's queries.
#[derive(Debug)]
pub enum PollRegistryQuery {
    GetPoll { poll_id: String },
    GetTally { poll_id: String },
    VerifyNullifier { poll_id: String, nullifier: String },
}

/// A poll as the registry reports it.
#[derive(Debug)]
pub struct PollState {
    pub poll_id: String,
    pub merkle_root: String,
    pub total_power: U256,
    /// "setup" | "active" | "tally" | "complete"
    pub status: String,
    pub start_block: u64,
    pub end_block: u64,
}

#[derive(Debug)]
pub struct TallyResult {
    pub poll_id: String,
    pub votes_yes: U256,
    pub votes_no: U256,
    pub votes_abstain: U256,
    pub total_cast: U256,
    pub is_final: bool,
}

#[derive(Debug)]
pub struct MigrateMsg {}

/// A snapshot of the voter set taken at proposal creation time.
#[derive(Debug)]
pub struct Snapshot {
    /// The DAO proposal ID this snapshot corresponds to.
    pub proposal_id: u64,
    /// Hex-encoded Merkle root of eligible voter identity commitments.
    pub merkle_root: String,
    /// Total voting power at snapshot time (from underlying module).
    pub total_power: U256,
    /// Block height at which the snapshot was taken.
    pub created_at: u64,
    /// PollRegistry poll ID assigned for this snapshot's ZK poll.
    pub poll_id: String,
}

impl Clone for Snapshot {
    fn clone(&self) -> (r: Self)
        ensures
            r == *self,
    {
        Snapshot {
            proposal_id: self.proposal_id,
            merkle_root: self.merkle_root.clone(),
            total_power: self.total_power,
            created_at: self.created_at,
            poll_id: self.poll_id.clone(),
        }
    }
}

#[derive(Debug)]
pub struct SnapshotResponse {
    pub proposal_id: u64,
    pub merkle_root: String,
    pub total_power: U256,
    pub created_at: u64,
    pub poll_id: String,
}

#[derive(Debug)]
pub enum ContractError {
    Std { msg: String },
    Unauthorized {},
    SnapshotAlreadyExists { proposal_id: u64 },
    NoSnapshot { proposal_id: u64 },
    NoPoll { poll_id: String },
    InvalidMerkleRoot { reason: String },
    ZeroTotalPower {},
    PollRegistryQuery { reason: String },
    PollRegistryExecute { reason: String },
}

impl PartialEq for ContractError {
    fn eq(&self, other: &Self) -> (r: bool) {
        match (self, other) {
            (ContractError::Std { .. }, ContractError::Std { .. }) => true,
            (ContractError::Unauthorized {}, ContractError::Unauthorized {}) => true,
            (
                ContractError::SnapshotAlreadyExists { proposal_id: a },
                ContractError::SnapshotAlreadyExists { proposal_id: b },
            ) => a == b,
            (
                ContractError::NoSnapshot { proposal_id: a },
                ContractError::NoSnapshot { proposal_id: b },
            ) => a == b,
            (ContractError::NoPoll { poll_id: a }, ContractError::NoPoll { poll_id: b }) => a.eq(b),
            (
                ContractError::InvalidMerkleRoot { reason: a },
                ContractError::InvalidMerkleRoot { reason: b },
            ) => a.eq(b),
            (ContractError::ZeroTotalPower {}, ContractError::ZeroTotalPower {}) => true,
            (
                ContractError::PollRegistryQuery { reason: a },
                ContractError::PollRegistryQuery { reason: b },
            ) => a.eq(b),
            (
                ContractError::PollRegistryExecute { reason: a },
                ContractError::PollRegistryExecute { reason: b },
            ) => a.eq(b),
            _ => false,
        }
    }
}

impl vstd::std_specs::cmp::PartialEqSpecImpl for ContractError {
    open spec fn obeys_eq_spec() -> bool {
        true
    }

    open spec fn eq_spec(&self, other: &ContractError) -> bool {
        match (self, other) {
            (ContractError::Std { .. }, ContractError::Std { .. }) => true,
            (ContractError::Unauthorized {}, ContractError::Unauthorized {}) => true,
            (
                ContractError::SnapshotAlreadyExists { proposal_id: a },
                ContractError::SnapshotAlreadyExists { proposal_id: b },
            ) => a == b,
            (
                ContractError::NoSnapshot { proposal_id: a },
                ContractError::NoSnapshot { proposal_id: b },
            ) => a == b,
            (ContractError::NoPoll { poll_id: a }, ContractError::NoPoll { poll_id: b }) => a@
                == b@,
            (
                ContractError::InvalidMerkleRoot { reason: a },
                ContractError::InvalidMerkleRoot { reason: b },
            ) => a@ == b@,
            (ContractError::ZeroTotalPower {}, ContractError::ZeroTotalPower {}) => true,
            (
                ContractError::PollRegistryQuery { reason: a },
                ContractError::PollRegistryQuery { reason: b },
            ) => a@ == b@,
            (
                ContractError::PollRegistryExecute { reason: a },
                ContractError::PollRegistryExecute { reason: b },
            ) => a@ == b@,
            _ => false,
        }
    }
}


/// The registration of a snapshot's Merkle root with the poll registry.
#[derive(Debug)]
pub struct RegisterPoll {
    /// The poll registry to send the registration to.
    pub contract_addr: String,
    pub poll_id: String,
    pub merkle_root: String,
    pub total_power: U256,
}

/// Where a power query is answered.
#[derive(Debug)]
pub enum PowerSource {
    /// From a snapshot taken at or before the queried height.
    Snapshot { power: U256, height: u64 },
    /// By the underlying voting module, asked with the caller's height.
    Underlying { module: String, height: Option<u64> },
}

/// How an address's voting power at a height is found.
#[derive(Debug)]
pub enum VotingPowerRoute {
    /// A snapshot covers the height: ask the poll registry for the poll, then the
    /// underlying module for the address's power at the snapshot's height.
    ViaPoll {
        poll_registry: String,
        poll_id: String,
        underlying: String,
        snapshot_height: u64,
        query_height: u64,
    },
    /// No snapshot covers the height: ask the underlying module directly.
    Underlying { module: String, height: Option<u64> },
}

/// The poll registry's answer about a snapshot's poll.
pub enum PollAnswer {
    /// The registry does not know the poll (its query failed).
    NotRegistered,
    /// The poll exists; `underlying_power` is the address's power at the snapshot height
    /// and `proved` whether the registry records a valid ZK proof by the address.
    Registered { state: PollState, underlying_power: U256, proved: bool },
}

#[derive(Debug)]
pub struct VotingPowerAtHeightResponse {
    pub power: U256,
    pub height: u64,
}

/// How the module's activity is decided.
#[derive(Debug)]
pub enum ActiveRoute {
    /// A threshold is configured: the underlying module decides.
    AskUnderlying { module: String },
    /// No threshold: the module is always active.
    Active,
}

/// The contract's state.
#[derive(Debug)]
pub struct ZkVoting {
    /// The DAO that instantiated this voting module.
    pub dao: String,
    pub underlying_voting_module: String,
    pub poll_registry: String,
    pub active_threshold: Option<ActiveThreshold>,
    /// proposal_id -> Snapshot, ascending by proposal id.
    pub snapshots: Vec<(u64, Snapshot)>,
    /// poll_id -> proposal_id
    pub poll_map: Vec<(String, u64)>,
}

/// Among the first `n` snapshots, the latest one taken at or before `height`: the one
/// with the greatest creation height, the earliest listed among equals.
pub open spec fn latest_at(s: Seq<(u64, Snapshot)>, height: u64, n: int) -> Option<Snapshot>
    decreases n,
{
    if n <= 0 {
        None
    } else {
        let best = latest_at(s, height, n - 1);
        let c = s[n - 1].1;
        if c.created_at <= height && (best matches Some(b) ==> b.created_at < c.created_at) {
            Some(c)
        } else {
            best
        }
    }
}

/// The most recent snapshot taken at or before `height`.
pub open spec fn snapshot_at_height(s: Seq<(u64, Snapshot)>, height: u64) -> Option<Snapshot> {
    latest_at(s, height, s.len() as int)
}

/// The poll id of a snapshot: `zk_vote_{proposal_id}_{block_height}`.
pub open spec fn poll_id_of(proposal_id: u64, block_height: u64) -> Seq<char> {
    "zk_vote_"@ + decimal(proposal_id as nat) + "_"@ + decimal(block_height as nat)
}

/// Whether a threshold is acceptable: a percentage must lie in (0%, 100%].
pub open spec fn threshold_ok(t: Option<ActiveThreshold>) -> bool {
    match t {
        Some(ActiveThreshold::Percentage { percent }) => 0 < percent.atomics.value()
            <= 1_000_000_000_000_000_000,
        _ => true,
    }
}

impl ZkVoting {
    pub open spec fn wf(&self) -> bool {
        &&& ascending(self.snapshots@)
        &&& keys_unique(self.poll_map@)
    }

    /// Snapshots by proposal id.
    pub open spec fn snapshot_map(&self) -> Map<u64, Snapshot> {
        id_map(self.snapshots@)
    }

    /// The module as set up by `sender` (the DAO), with addresses already validated.
    pub fn instantiate(sender: String, msg: InstantiateMsg) -> (s: ZkVoting)
        ensures
            s.wf(),
            s.dao == sender,
            s.underlying_voting_module == msg.underlying_voting_module,
            s.poll_registry == msg.poll_registry,
            s.active_threshold == msg.active_threshold,
            s.snapshot_map() == Map::<u64, Snapshot>::empty(),
            as_map(s.poll_map@) == Map::<Seq<char>, u64>::empty(),
    {
        let s = ZkVoting {
            dao: sender,
            underlying_voting_module: msg.underlying_voting_module,
            poll_registry: msg.poll_registry,
            active_threshold: msg.active_threshold,
            snapshots: Vec::new(),
            poll_map: Vec::new(),
        };
        assert(s.snapshot_map() =~= Map::<u64, Snapshot>::empty());
        assert(as_map(s.poll_map@) =~= Map::<Seq<char>, u64>::empty());
        s
    }

    /// Replaces the underlying voting module and/or the poll registry. DAO only.
    pub fn execute_update_config(
        &mut self,
        sender: &String,
        underlying_voting_module: Option<String>,
        poll_registry: Option<String>,
    ) -> (r: Result<(), ContractError>)
        ensures
            sender@ != old(self).dao@ ==> r == Err::<(), ContractError>(ContractError::Unauthorized {})
                && *final(self) == *old(self),
            sender@ == old(self).dao@ ==> r is Ok && final(self).dao == old(self).dao
                && final(self).underlying_voting_module == (match underlying_voting_module {
                Some(a) => a,
                None => old(self).underlying_voting_module,
            }) && final(self).poll_registry == (match poll_registry {
                Some(a) => a,
                None => old(self).poll_registry,
            }) && final(self).active_threshold == old(self).active_threshold
                && final(self).snapshots == old(self).snapshots && final(self).poll_map
                == old(self).poll_map,
    {
        if !sender.eq(&self.dao) {
            return Err(ContractError::Unauthorized {});
        }
        if let Some(addr) = underlying_voting_module {
            self.underlying_voting_module = addr;
        }
        if let Some(addr) = poll_registry {
            self.poll_registry = addr;
        }
        Ok(())
    }

    /// Sets or clears the active threshold. DAO only; a percentage must lie in (0%, 100%].
    pub fn execute_update_active_threshold(
        &mut self,
        sender: &String,
        new_threshold: Option<ActiveThreshold>,
    ) -> (r: Result<(), ContractError>)
        ensures
            sender@ != old(self).dao@ ==> r == Err::<(), ContractError>(ContractError::Unauthorized {})
                && *final(self) == *old(self),
            sender@ == old(self).dao@ && !threshold_ok(new_threshold) ==> (r matches Err(
                ContractError::Std { msg },
            ) && msg@ == "invalid active threshold percentage"@ && *final(self) == *old(self)),
            sender@ == old(self).dao@ && threshold_ok(new_threshold) ==> r is Ok && *final(self)
                == (ZkVoting { active_threshold: new_threshold, ..*old(self) }),
    {
        if !sender.eq(&self.dao) {
            return Err(ContractError::Unauthorized {});
        }
        if let Some(threshold) = &new_threshold {
            if let ActiveThreshold::Percentage { percent } = threshold {
                let hundred = decimal_percent(100);
                let zero = decimal_percent(0);
                if u256_gt(&percent.atomics, &hundred.atomics) || !u256_gt(
                    &percent.atomics,
                    &zero.atomics,
                ) {
                    return Err(
                        ContractError::Std {
                            msg: String::from_str("invalid active threshold percentage"),
                        },
                    );
                }
            }
        }
        self.active_threshold = new_threshold;
        Ok(())
    }

    /// Records the voter snapshot for `proposal_id`, taken at `block_height`, and returns
    /// the registration to send to the poll registry. DAO only; one snapshot per
    /// proposal; the total power must be positive and the Merkle root nonempty.
    pub fn execute_snapshot_voters(
        &mut self,
        sender: &String,
        block_height: u64,
        proposal_id: u64,
        merkle_root: String,
        total_power: U256,
    ) -> (r: Result<RegisterPoll, ContractError>)
        requires
            old(self).wf(),
        ensures
            final(self).wf(),
            sender@ != old(self).dao@ ==> r matches Err(ContractError::Unauthorized {}),
            sender@ == old(self).dao@ && old(self).snapshot_map().contains_key(proposal_id)
                ==> (r matches Err(ContractError::SnapshotAlreadyExists { proposal_id: p }) && p
                == proposal_id),
            sender@ == old(self).dao@ && !old(self).snapshot_map().contains_key(proposal_id)
                && total_power.value() == 0 ==> r matches Err(ContractError::ZeroTotalPower {}),
            sender@ == old(self).dao@ && !old(self).snapshot_map().contains_key(proposal_id)
                && total_power.value() != 0 && merkle_root@.len() == 0 ==> (r matches Err(
                ContractError::InvalidMerkleRoot { reason },
            ) && reason@ == "empty merkle root"@),
            r is Err ==> *final(self) == *old(self),
            r is Ok <==> (sender@ == old(self).dao@ && !old(self).snapshot_map().contains_key(
                proposal_id,
            ) && total_power.value() != 0 && merkle_root@.len() != 0),
            r matches Ok(reg) ==> {
                let snap = Snapshot {
                    proposal_id,
                    merkle_root,
                    total_power,
                    created_at: block_height,
                    poll_id: reg.poll_id,
                };
                &&& reg.poll_id@ == poll_id_of(proposal_id, block_height)
                &&& reg.contract_addr == old(self).poll_registry
                &&& reg.merkle_root == merkle_root
                &&& reg.total_power == total_power
                &&& final(self).snapshot_map() == old(self).snapshot_map().insert(proposal_id, snap)
                &&& as_map(final(self).poll_map@) == as_map(old(self).poll_map@).insert(
                    reg.poll_id@,
                    proposal_id,
                )
                &&& final(self).dao == old(self).dao
                &&& final(self).underlying_voting_module == old(self).underlying_voting_module
                &&& final(self).poll_registry == old(self).poll_registry
                &&& final(self).active_threshold == old(self).active_threshold
            },
    {
        if !sender.eq(&self.dao) {
            return Err(ContractError::Unauthorized {});
        }
        // Prevent duplicate snapshots for the same proposal.
        if find_id(&self.snapshots, proposal_id).is_some() {
            proof {
                lemma_id_map_entries(self.snapshots@);
            }
            return Err(ContractError::SnapshotAlreadyExists { proposal_id });
        }
        if u256_is_zero(&total_power) {
            return Err(ContractError::ZeroTotalPower {});
        }
        if merkle_root.as_str().is_empty() {
            return Err(
                ContractError::InvalidMerkleRoot { reason: String::from_str("empty merkle root") },
            );
        }
        // Build a unique poll ID from the proposal ID and block height.
        let mut poll_id = String::from_str("zk_vote_");
        push_decimal(&mut poll_id, proposal_id);
        poll_id.append("_");
        push_decimal(&mut poll_id, block_height);
        assert(poll_id@ =~= poll_id_of(proposal_id, block_height));

        let snapshot = Snapshot {
            proposal_id,
            merkle_root: merkle_root.clone(),
            total_power,
            created_at: block_height,
            poll_id: poll_id.clone(),
        };
        put_id(&mut self.snapshots, proposal_id, snapshot);
        set_key(&mut self.poll_map, poll_id.clone(), proposal_id);
        Ok(RegisterPoll {
            contract_addr: self.poll_registry.clone(),
            poll_id,
            merkle_root,
            total_power,
        })
    }

    /// Find the most recent snapshot at or before the given height.
    pub fn find_snapshot_at_height(&self, height: u64) -> (r: Option<Snapshot>)
        ensures
            r == snapshot_at_height(self.snapshots@, height),
    {
        let n = self.snapshots.len();
        let mut best: Option<Snapshot> = None;
        let mut i: usize = 0;
        while i < n
            invariant
                i <= n == self.snapshots@.len(),
                best == latest_at(self.snapshots@, height, i as int),
            decreases n - i,
        {
            let snap = &self.snapshots[i].1;
            let newer = match &best {
                Some(b) => b.created_at < snap.created_at,
                None => true,
            };
            if snap.created_at <= height && newer {
                best = Some(snap.clone());
            }
            i += 1;
        }
        best
    }

    /// Where the total power at a height (the current block's when none is given) comes
    /// from: the snapshot covering it, or else the underlying module.
    pub fn query_total_power_at_height(&self, height: Option<u64>, block_height: u64) -> (r:
        PowerSource)
        ensures
            ({
                let qh = match height {
                    Some(h) => h,
                    None => block_height,
                };
                match snapshot_at_height(self.snapshots@, qh) {
                    Some(snap) => r == (PowerSource::Snapshot { power: snap.total_power, height: qh }),
                    None => r == (PowerSource::Underlying {
                        module: self.underlying_voting_module,
                        height,
                    }),
                }
            }),
    {
        let query_height = match height {
            Some(h) => h,
            None => block_height,
        };
        match self.find_snapshot_at_height(query_height) {
            Some(snap) => PowerSource::Snapshot { power: snap.total_power, height: query_height },
            None => PowerSource::Underlying {
                module: self.underlying_voting_module.clone(),
                height,
            },
        }
    }

    /// How an address's voting power at a height (the current block's when none is
    /// given) is found.
    pub fn query_voting_power_at_height(&self, height: Option<u64>, block_height: u64) -> (r:
        VotingPowerRoute)
        ensures
            ({
                let qh = match height {
                    Some(h) => h,
                    None => block_height,
                };
                match snapshot_at_height(self.snapshots@, qh) {
                    Some(snap) => r == (VotingPowerRoute::ViaPoll {
                        poll_registry: self.poll_registry,
                        poll_id: snap.poll_id,
                        underlying: self.underlying_voting_module,
                        snapshot_height: snap.created_at,
                        query_height: qh,
                    }),
                    None => r == (VotingPowerRoute::Underlying {
                        module: self.underlying_voting_module,
                        height,
                    }),
                }
            }),
    {
        let query_height = match height {
            Some(h) => h,
            None => block_height,
        };
        match self.find_snapshot_at_height(query_height) {
            Some(snap) => VotingPowerRoute::ViaPoll {
                poll_registry: self.poll_registry.clone(),
                poll_id: snap.poll_id,
                underlying: self.underlying_voting_module.clone(),
                snapshot_height: snap.created_at,
                query_height,
            },
            None => VotingPowerRoute::Underlying {
                module: self.underlying_voting_module.clone(),
                height,
            },
        }
    }

    /// Whether the module is active, or who decides it.
    pub fn query_is_active(&self) -> (r: ActiveRoute)
        ensures
            self.active_threshold is Some ==> r == (ActiveRoute::AskUnderlying {
                module: self.underlying_voting_module,
            }),
            self.active_threshold is None ==> r == (ActiveRoute::Active),
    {
        match &self.active_threshold {
            Some(_threshold) => ActiveRoute::AskUnderlying {
                module: self.underlying_voting_module.clone(),
            },
            None => ActiveRoute::Active,
        }
    }

    /// The snapshot of `proposal_id`; an error when there is none.
    pub fn query_snapshot(&self, proposal_id: u64) -> (r: Result<SnapshotResponse, ContractError>)
        requires
            self.wf(),
        ensures
            !self.snapshot_map().contains_key(proposal_id) ==> r matches Err(ContractError::Std { .. }),
            self.snapshot_map().contains_key(proposal_id) ==> (r matches Ok(resp) && {
                let snap = self.snapshot_map()[proposal_id];
                &&& resp.proposal_id == snap.proposal_id
                &&& resp.merkle_root == snap.merkle_root
                &&& resp.total_power == snap.total_power
                &&& resp.created_at == snap.created_at
                &&& resp.poll_id == snap.poll_id
            }),
    {
        proof {
            lemma_id_map_entries(self.snapshots@);
        }
        match find_id(&self.snapshots, proposal_id) {
            Some(i) => {
                let snap = self.snapshots[i].1.clone();
                Ok(SnapshotResponse {
                    proposal_id: snap.proposal_id,
                    merkle_root: snap.merkle_root,
                    total_power: snap.total_power,
                    created_at: snap.created_at,
                    poll_id: snap.poll_id,
                })
            },
            None => Err(ContractError::Std { msg: String::from_str("snapshot not found") }),
        }
    }
}

/// An address's voting power at the queried height, from the poll registry's answer:
/// its power in the underlying module at the snapshot height when the registry records a
/// valid ZK proof by the address for the snapshot's poll, and nothing otherwise (also
/// while the poll is not registered).
pub fn voting_power_from_poll(answer: PollAnswer, query_height: u64) -> (r:
    VotingPowerAtHeightResponse)
    ensures
        r.height == query_height,
        answer is NotRegistered ==> r.power.value() == 0,
        answer matches PollAnswer::Registered { underlying_power, proved, .. } ==> if proved {
            r.power == underlying_power
        } else {
            r.power.value() == 0
        },
{
    match answer {
        PollAnswer::NotRegistered => VotingPowerAtHeightResponse {
            power: crate::uint::u256_zero(),
            height: query_height,
        },
        PollAnswer::Registered { state: _, underlying_power, proved } => {
            let power = if proved {
                underlying_power
            } else {
                crate::uint::u256_zero()
            };
            VotingPowerAtHeightResponse { power, height: query_height }
        },
    }
}

/// The snapshot found for a height is one of the snapshots held, was taken at or before
/// that height, and no held snapshot was taken later but still at or before it; when none
/// is found, every snapshot was taken after the height.
pub proof fn law_snapshot_is_latest(s: Seq<(u64, Snapshot)>, height: u64, n: int)
    requires
        0 <= n <= s.len(),
    ensures
        latest_at(s, height, n) matches Some(x) ==> x.created_at <= height && (exists|j: int|
            0 <= j < n && s[j].1 == x) && forall|j: int|
            0 <= j < n && #[trigger] s[j].1.created_at <= height ==> s[j].1.created_at <= x.created_at,
        latest_at(s, height, n) is None ==> forall|j: int| 0 <= j < n ==> #[trigger] s[j].1.created_at
            > height,
    decreases n,
{
    if n > 0 {
        law_snapshot_is_latest(s, height, n - 1);
        let best = latest_at(s, height, n - 1);
        let c = s[n - 1].1;
        if c.created_at <= height && (best matches Some(b) ==> b.created_at < c.created_at) {
            assert(s[n - 1].1 == c);
        } else if best is Some {
            let b = best->0;
            let j = choose|j: int| 0 <= j < n - 1 && s[j].1 == b;
            assert(0 <= j < n && s[j].1 == b);
        }
    }
}

} // verus!
