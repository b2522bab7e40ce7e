//! Pre-propose module with an approver: proposals wait, pending, until the approver
//! approves them (they are then proposed to the proposal module) or rejects them.
use cosmwasm_std::CosmosMsg;
use vstd::prelude::*;

use crate::hooks::{add_hook, hook_view, remove_hook, HookError};
use crate::ordered::{
    ascending, count_of, find_id, get_id, id_map, keys_after, keys_before, lemma_same_keys,
    page_after, page_before, put_id, take_id,
};

verus! {

// ═══════════════════════════ Types ═══════════════════════════

/// The name this module records for itself.
pub const CONTRACT_NAME: &'static str = "crates.io:dao-pre-propose-approval-single";

/// The version this module records for itself: the version of this package.
pub const CONTRACT_VERSION: &'static str = "0.1.0";

/// A contract's recorded name and version.
#[derive(Debug)]
pub struct ContractVersion {
    pub contract: String,
    pub version: String,
}

/// This module's name and version.
pub open spec fn this_version(v: ContractVersion) -> bool {
    v.contract@ == CONTRACT_NAME@ && v.version@ == CONTRACT_VERSION@
}

/// This module's name and version, as recorded.
pub fn current_version() -> (v: ContractVersion)
    ensures
        this_version(v),
{
    ContractVersion {
        contract: String::from_str(CONTRACT_NAME),
        version: String::from_str(CONTRACT_VERSION),
    }
}

/// A cw20 `TransferFrom` of `amount` of token `token` from `owner` to this module.
#[derive(Debug)]
pub struct DepositTake {
    pub token: String,
    pub owner: String,
    pub amount: u128,
}

/// A hook's notice of a submission: propose the approval of `approval_id` with the
/// submission's title and description.
#[derive(Debug)]
pub struct ApproverNotice {
    pub contract: String,
    pub title: String,
    pub description: String,
    pub approval_id: u64,
}

/// What a submission sends.
#[derive(Debug)]
pub struct ProposeEffects {
    pub deposit_take: Option<DepositTake>,
    pub notices: Vec<ApproverNotice>,
}

/// The deposit taken for a proposal: a nonzero cw20 deposit, from the proposer.
pub open spec fn deposit_take_of(p: Proposal) -> Option<DepositTake> {
    match p.deposit {
        Some(d) => match d.denom {
            CheckedDenom::Cw20(token) => if d.amount > 0 {
                Some(DepositTake { token, owner: p.proposer, amount: d.amount })
            } else {
                None
            },
            CheckedDenom::Native(_) => None,
        },
        None => None,
    }
}


#[derive(Clone, Copy, Debug, PartialEq, Eq, Structural)]
pub enum Vote {
    Yes,
    No,
    Abstain,
}

#[derive(Debug)]
pub struct SingleChoiceAutoVote {
    pub vote: Vote,
    pub rationale: Option<String>,
}

/// The message a proposal is created with in the proposal module.
#[derive(Debug)]
pub struct SingleChoiceProposeMsg {
    pub title: String,
    pub description: String,
    pub msgs: Vec<CosmosMsg>,
    pub proposer: Option<String>,
    pub vote: Option<SingleChoiceAutoVote>,
}

#[derive(Debug)]
pub enum CheckedDenom {
    Native(String),
    Cw20(String),
}

#[derive(Clone, Copy, Debug, PartialEq, Eq, Structural)]
pub enum DepositRefundPolicy {
    Always,
    OnlyPassed,
    Never,
}

#[derive(Debug)]
pub struct CheckedDepositInfo {
    pub denom: CheckedDenom,
    pub amount: u128,
    pub refund_policy: DepositRefundPolicy,
}

#[derive(Clone, Copy, Debug, PartialEq, Eq, Structural)]
pub enum ApprovalProposalStatus {
    Pending {},
    Approved { created_proposal_id: u64 },
    Rejected {},
}

#[derive(Debug)]
pub struct Proposal {
    pub status: ApprovalProposalStatus,
    pub approval_id: u64,
    pub approver: String,
    pub proposer: String,
    pub msg: SingleChoiceProposeMsg,
    pub deposit: Option<CheckedDepositInfo>,
}

#[derive(Debug)]
pub enum ProposeMessage {
    Propose {
        title: String,
        description: String,
        msgs: Vec<CosmosMsg>,
        vote: Option<SingleChoiceAutoVote>,
    },
}

#[derive(Debug)]
pub enum ExecuteExt {
    Approve { id: u64 },
    Reject { id: u64 },
    UpdateApprover { address: String },
}

#[derive(Debug)]
pub enum QueryExt {
    Approver {},
    IsPending { id: u64 },
    Proposal { id: u64 },
    PendingProposal { id: u64 },
    PendingProposals { start_after: Option<u64>, limit: Option<u32> },
    ReversePendingProposals { start_before: Option<u64>, limit: Option<u32> },
    CompletedProposal { id: u64 },
    CompletedProposals { start_after: Option<u64>, limit: Option<u32> },
    ReverseCompletedProposals { start_before: Option<u64>, limit: Option<u32> },
    CompletedProposalIdForCreatedProposalId { id: u64 },
}

#[derive(Debug)]
pub enum MigrateMsg {
    FromUnderV250 {},
    Extension {},
}

#[derive(Debug)]
pub enum PreProposeError {
    Std { msg: String },
    Hooks(HookError),
    Unauthorized {},
    ProposalNotFound {},
    /// Refused by the submission policy or the deposit rules of the base module.
    Refused { reason: String },
}

// ═══════════════════════════ Proposals of version 2.4.1 ═══════════════════════════

#[derive(Clone, Copy, Debug, PartialEq, Eq, Structural)]
pub enum ProposalStatusV241 {
    Pending {},
    Approved { created_proposal_id: u64 },
    Rejected {},
}

#[derive(Clone, Copy, Debug, PartialEq, Eq, Structural)]
pub enum VoteV241 {
    Yes,
    No,
    Abstain,
}

#[derive(Debug)]
pub struct SingleChoiceAutoVoteV241 {
    pub vote: VoteV241,
    pub rationale: Option<String>,
}

#[derive(Debug)]
pub struct SingleChoiceProposeMsgV241 {
    pub title: String,
    pub description: String,
    pub msgs: Vec<CosmosMsg>,
    pub proposer: Option<String>,
    pub vote: Option<SingleChoiceAutoVoteV241>,
}

#[derive(Clone, Copy, Debug, PartialEq, Eq, Structural)]
pub enum DepositRefundPolicyV241 {
    Always,
    OnlyPassed,
    Never,
}

#[derive(Debug)]
pub enum CheckedDenomV241 {
    Native(String),
    Cw20(String),
}

#[derive(Debug)]
pub struct CheckedDepositInfoV241 {
    pub denom: CheckedDenomV241,
    pub amount: u128,
    pub refund_policy: DepositRefundPolicyV241,
}

/// A stored proposal before approvers were recorded on proposals.
#[derive(Debug)]
pub struct ProposalV241 {
    pub status: ProposalStatusV241,
    pub approval_id: u64,
    pub proposer: String,
    pub msg: SingleChoiceProposeMsgV241,
    pub deposit: Option<CheckedDepositInfoV241>,
}


// ═══════════════════════════ State ═══════════════════════════

/// The module's state.
#[derive(Debug)]
pub struct ApprovalState {
    /// The contract name and version recorded for the module (as cw2 records them).
    pub contract_version: ContractVersion,
    /// The DAO this module proposes to.
    pub dao: String,
    /// Who approves or rejects pending proposals.
    pub approver: String,
    /// The last approval id handed out.
    pub current_id: u64,
    /// approval id -> pending proposal, ascending.
    pub pending: Vec<(u64, Proposal)>,
    /// approval id -> approved or rejected proposal, ascending.
    pub completed: Vec<(u64, Proposal)>,
    /// id of a proposal created in the proposal module -> approval id it came from.
    pub created_to_completed: Vec<(u64, u64)>,
    /// id of a proposal created in the proposal module -> its deposit and proposer.
    pub deposits: Vec<(u64, (Option<CheckedDepositInfo>, String))>,
    /// Contracts told of each proposal submitted.
    pub hooks: Vec<String>,
}

/// The proposal as submitted by `sender`.
pub open spec fn submitted(
    p: Proposal,
    id: u64,
    approver: String,
    sender: String,
    msg: ProposeMessage,
    deposit: Option<CheckedDepositInfo>,
) -> bool {
    match msg {
        ProposeMessage::Propose { title, description, msgs, vote } => {
            &&& p.status == ApprovalProposalStatus::Pending {}
            &&& p.approval_id == id
            &&& p.approver == approver
            &&& p.proposer == sender
            &&& p.msg.title == title
            &&& p.msg.description == description
            &&& p.msg.msgs == msgs
            &&& p.msg.proposer == Some(sender)
            &&& p.msg.vote == vote
            &&& p.deposit == deposit
        },
    }
}

/// `p` is `o` with status `status`, all else kept.
pub open spec fn completed_as(o: Proposal, p: Proposal, status: ApprovalProposalStatus) -> bool {
    &&& p.status == status
    &&& p.approval_id == o.approval_id
    &&& p.approver == o.approver
    &&& p.proposer == o.proposer
    &&& p.msg == o.msg
    &&& p.deposit == o.deposit
}

pub fn clone_denom(d: &CheckedDenom) -> (r: CheckedDenom)
    ensures
        r == *d,
{
    match d {
        CheckedDenom::Native(s) => CheckedDenom::Native(s.clone()),
        CheckedDenom::Cw20(s) => CheckedDenom::Cw20(s.clone()),
    }
}

pub fn clone_deposit(d: &Option<CheckedDepositInfo>) -> (r: Option<CheckedDepositInfo>)
    ensures
        r == *d,
{
    match d {
        Some(i) => Some(
            CheckedDepositInfo {
                denom: clone_denom(&i.denom),
                amount: i.amount,
                refund_policy: i.refund_policy,
            },
        ),
        None => None,
    }
}

impl ApprovalState {
    /// The lists are ordered by id; an approval id is either pending or completed, never
    /// both, and was handed out.
    pub open spec fn wf(&self) -> bool {
        &&& ascending(self.pending@)
        &&& ascending(self.completed@)
        &&& ascending(self.created_to_completed@)
        &&& ascending(self.deposits@)
        &&& forall|k: u64|
            #[trigger] self.pending_map().contains_key(k) ==> k <= self.current_id
                && !self.completed_map().contains_key(k)
        &&& forall|k: u64| #[trigger] self.completed_map().contains_key(k) ==> k <= self.current_id
    }

    pub open spec fn pending_map(&self) -> Map<u64, Proposal> {
        id_map(self.pending@)
    }

    pub open spec fn completed_map(&self) -> Map<u64, Proposal> {
        id_map(self.completed@)
    }

    pub open spec fn created_map(&self) -> Map<u64, u64> {
        id_map(self.created_to_completed@)
    }

    pub open spec fn deposit_map(&self) -> Map<u64, (Option<CheckedDepositInfo>, String)> {
        id_map(self.deposits@)
    }

    /// The module as instantiated by the DAO `dao` with approver `approver`.
    pub fn instantiate(dao: String, approver: String) -> (s: Self)
        ensures
            s.wf(),
            s.dao == dao,
            s.approver == approver,
            s.current_id == 0,
            s.pending_map() == Map::<u64, Proposal>::empty(),
            s.completed_map() == Map::<u64, Proposal>::empty(),
            s.created_map() == Map::<u64, u64>::empty(),
            s.deposit_map() == Map::<u64, (Option<CheckedDepositInfo>, String)>::empty(),
            s.hooks@.len() == 0,
            this_version(s.contract_version),
    {
        let s = ApprovalState {
            contract_version: current_version(),
            dao,
            approver,
            current_id: 0,
            pending: Vec::new(),
            completed: Vec::new(),
            created_to_completed: Vec::new(),
            deposits: Vec::new(),
            hooks: Vec::new(),
        };
        assert(s.pending_map() =~= Map::<u64, Proposal>::empty());
        assert(s.completed_map() =~= Map::<u64, Proposal>::empty());
        assert(s.created_map() =~= Map::<u64, u64>::empty());
        assert(s.deposit_map() =~= Map::<u64, (Option<CheckedDepositInfo>, String)>::empty());
        s
    }

    /// The next approval id: one more than the last.
    fn advance_approval_id(&mut self) -> (id: u64)
        requires
            old(self).current_id < u64::MAX,
        ensures
            id == old(self).current_id + 1,
            *final(self) == (ApprovalState { current_id: id, ..*old(self) }),
    {
        self.current_id = self.current_id + 1;
        self.current_id
    }

    /// Submits a proposal for approval. `can_submit` is the base module's answer on
    /// whether `sender` may submit, `deposit_paid` its answer on whether the deposit
    /// `deposit` (the configured one, if any) was paid; either refusal is returned as it
    /// is. Hands back the new approval id.
    pub fn execute_propose(
        &mut self,
        sender: String,
        msg: ProposeMessage,
        deposit: Option<CheckedDepositInfo>,
        can_submit: Result<(), PreProposeError>,
        deposit_paid: Result<(), PreProposeError>,
    ) -> (r: Result<u64, PreProposeError>)
        requires
            old(self).wf(),
            old(self).current_id < u64::MAX,
        ensures
            final(self).wf(),
            can_submit matches Err(e) ==> r == Err::<u64, PreProposeError>(e) && *final(self) == *old(
                self,
            ),
            can_submit is Ok ==> (deposit_paid matches Err(e) ==> r == Err::<u64, PreProposeError>(e)
                && *final(self) == *old(self)),
            can_submit is Ok && deposit_paid is Ok ==> ({
                let id = (old(self).current_id + 1) as u64;
                &&& r == Ok::<u64, PreProposeError>(id)
                &&& final(self).current_id == id
                &&& final(self).pending_map() == old(self).pending_map().insert(
                    id,
                    final(self).pending_map()[id],
                )
                &&& submitted(
                    final(self).pending_map()[id],
                    id,
                    old(self).approver,
                    sender,
                    msg,
                    deposit,
                )
                &&& final(self).dao == old(self).dao
                &&& final(self).approver == old(self).approver
                &&& final(self).completed == old(self).completed
                &&& final(self).created_to_completed == old(self).created_to_completed
                &&& final(self).deposits == old(self).deposits
                &&& final(self).hooks == old(self).hooks
            }),
    {
        if let Err(e) = can_submit {
            return Err(e);
        }
        if let Err(e) = deposit_paid {
            return Err(e);
        }
        let id = self.advance_approval_id();
        let msg = match msg {
            ProposeMessage::Propose { title, description, msgs, vote } => SingleChoiceProposeMsg {
                title,
                description,
                msgs,
                proposer: Some(sender.clone()),
                vote,
            },
        };
        let p = Proposal {
            status: ApprovalProposalStatus::Pending {},
            approval_id: id,
            approver: self.approver.clone(),
            proposer: sender,
            msg,
            deposit,
        };
        let ghost pp = p;
        put_id(&mut self.pending, id, p);
        assert(self.pending_map()[id] == pp);
        assert(self.pending_map() =~= old(self).pending_map().insert(id, pp));
        proof {
            assert(self.completed == old(self).completed);
            if old(self).completed_map().contains_key(id) {
                assert(id <= old(self).current_id);
            }
            assert forall|k: u64| #[trigger] self.completed_map().contains_key(k) implies k <= self.current_id by {
                assert(old(self).completed_map().contains_key(k));
            }
            assert forall|k: u64| #[trigger] self.pending_map().contains_key(k) implies k <= self.current_id
                && !self.completed_map().contains_key(k) by {
                if k != id {
                    assert(old(self).pending_map().contains_key(k));
                }
            }
        }
        Ok(id)
    }

    /// What a submission of pending proposal `id` sends: the cw20 deposit taken from the
    /// proposer, if the deposit is a nonzero amount of a cw20 token, and one notice per
    /// registered hook, in hook order, asking it to propose the approval of `id`.
    pub fn submission_effects(&self, id: u64) -> (r: Option<ProposeEffects>)
        requires
            self.wf(),
        ensures
            !self.pending_map().contains_key(id) ==> r is None,
            self.pending_map().contains_key(id) ==> (r matches Some(e) && {
                let p = self.pending_map()[id];
                &&& e.deposit_take == deposit_take_of(p)
                &&& e.notices@.len() == self.hooks@.len()
                &&& forall|i: int| 0 <= i < self.hooks@.len() ==> #[trigger] e.notices@[i] == (ApproverNotice {
                    contract: self.hooks@[i],
                    title: p.msg.title,
                    description: p.msg.description,
                    approval_id: id,
                })
            }),
    {
        let p = match get_id(&self.pending, id) {
            Some(p) => p,
            None => return None,
        };
        let deposit_take = match &p.deposit {
            Some(d) => match &d.denom {
                CheckedDenom::Cw20(token) => if d.amount > 0 {
                    Some(DepositTake { token: token.clone(), owner: p.proposer.clone(), amount: d.amount })
                } else {
                    None
                },
                CheckedDenom::Native(_) => None,
            },
            None => None,
        };
        let mut notices: Vec<ApproverNotice> = Vec::new();
        let mut i: usize = 0;
        while i < self.hooks.len()
            invariant
                i <= self.hooks@.len(),
                notices@.len() == i,
                self.pending_map().contains_key(id),
                *p == self.pending_map()[id],
                forall|j: int| 0 <= j < i ==> #[trigger] notices@[j] == (ApproverNotice {
                    contract: self.hooks@[j],
                    title: p.msg.title,
                    description: p.msg.description,
                    approval_id: id,
                }),
            decreases self.hooks.len() - i,
        {
            notices.push(
                ApproverNotice {
                    contract: self.hooks[i].clone(),
                    title: p.msg.title.clone(),
                    description: p.msg.description.clone(),
                    approval_id: id,
                },
            );
            i += 1;
        }
        Some(ProposeEffects { deposit_take, notices })
    }

    /// Why approving or rejecting proposal `id` is refused, if it is.
    pub open spec fn decide_error(&self, sender: Seq<char>, id: u64) -> Option<PreProposeError> {
        if !self.pending_map().contains_key(id) {
            Some(PreProposeError::ProposalNotFound {})
        } else if self.pending_map()[id].approver@ != sender {
            Some(PreProposeError::Unauthorized {})
        } else {
            None
        }
    }

    /// Checks, before the proposal module is asked for its next proposal id, that the
    /// sender may approve proposal `id`.
    pub fn check_decide(&self, sender: &String, id: u64) -> (r: Result<(), PreProposeError>)
        requires
            self.wf(),
        ensures
            self.decide_error(sender@, id) matches Some(e) ==> r == Err::<(), PreProposeError>(e),
            self.decide_error(sender@, id) is None ==> r is Ok,
    {
        match get_id(&self.pending, id) {
            None => Err(PreProposeError::ProposalNotFound {}),
            Some(p) => if p.approver == *sender {
                Ok(())
            } else {
                Err(PreProposeError::Unauthorized {})
            },
        }
    }

    /// Approves pending proposal `id`: it becomes proposal `proposal_id` of the proposal
    /// module (the id the module will hand out next), whose deposit and proposer are
    /// recorded; it moves from pending to completed.
    pub fn execute_approve(&mut self, sender: String, id: u64, proposal_id: u64) -> (r: Result<(), PreProposeError>)
        requires
            old(self).wf(),
        ensures
            final(self).wf(),
            old(self).decide_error(sender@, id) matches Some(e) ==> r == Err::<(), PreProposeError>(e)
                && *final(self) == *old(self),
            old(self).decide_error(sender@, id) is None ==> ({
                let o = old(self).pending_map()[id];
                &&& r is Ok
                &&& final(self).pending_map() == old(self).pending_map().remove(id)
                &&& final(self).completed_map() == old(self).completed_map().insert(
                    id,
                    final(self).completed_map()[id],
                )
                &&& completed_as(
                    o,
                    final(self).completed_map()[id],
                    ApprovalProposalStatus::Approved { created_proposal_id: proposal_id },
                )
                &&& final(self).deposit_map() == old(self).deposit_map().insert(
                    proposal_id,
                    (o.deposit, o.proposer),
                )
                &&& final(self).created_map() == old(self).created_map().insert(proposal_id, id)
                &&& final(self).current_id == old(self).current_id
                &&& final(self).dao == old(self).dao
                &&& final(self).approver == old(self).approver
                &&& final(self).hooks == old(self).hooks
            }),
    {
        self.check_decide(&sender, id)?;
        let p = take_id(&mut self.pending, id).unwrap();
        let snapshot = (clone_deposit(&p.deposit), p.proposer.clone());
        put_id(&mut self.deposits, proposal_id, snapshot);
        let done = Proposal {
            status: ApprovalProposalStatus::Approved { created_proposal_id: proposal_id },
            approval_id: p.approval_id,
            approver: p.approver,
            proposer: p.proposer,
            msg: p.msg,
            deposit: p.deposit,
        };
        let ghost d = done;
        put_id(&mut self.completed, id, done);
        put_id(&mut self.created_to_completed, proposal_id, id);
        assert(self.completed_map()[id] == d);
        assert(self.completed_map() =~= old(self).completed_map().insert(id, d));
        Ok(())
    }

    /// Rejects pending proposal `id`: it moves from pending to completed. Hands back to
    /// whom its deposit, if any, goes: the proposer when deposits are always refunded,
    /// else the DAO.
    pub fn execute_reject(&mut self, sender: String, id: u64) -> (r: Result<Option<String>, PreProposeError>)
        requires
            old(self).wf(),
        ensures
            final(self).wf(),
            old(self).decide_error(sender@, id) matches Some(e) ==> r == Err::<
                Option<String>,
                PreProposeError,
            >(e) && *final(self) == *old(self),
            old(self).decide_error(sender@, id) is None ==> ({
                let o = old(self).pending_map()[id];
                &&& r == Ok::<Option<String>, PreProposeError>(
                    match o.deposit {
                        Some(d) => Some(
                            if d.refund_policy == DepositRefundPolicy::Always {
                                o.proposer
                            } else {
                                old(self).dao
                            },
                        ),
                        None => None,
                    },
                )
                &&& final(self).pending_map() == old(self).pending_map().remove(id)
                &&& final(self).completed_map() == old(self).completed_map().insert(
                    id,
                    final(self).completed_map()[id],
                )
                &&& completed_as(o, final(self).completed_map()[id], ApprovalProposalStatus::Rejected {})
                &&& final(self).deposits == old(self).deposits
                &&& final(self).created_to_completed == old(self).created_to_completed
                &&& final(self).current_id == old(self).current_id
                &&& final(self).dao == old(self).dao
                &&& final(self).approver == old(self).approver
                &&& final(self).hooks == old(self).hooks
            }),
    {
        self.check_decide(&sender, id)?;
        let p = take_id(&mut self.pending, id).unwrap();
        let refund_to = match &p.deposit {
            Some(d) => Some(
                if d.refund_policy == DepositRefundPolicy::Always {
                    p.proposer.clone()
                } else {
                    self.dao.clone()
                },
            ),
            None => None,
        };
        let done = Proposal {
            status: ApprovalProposalStatus::Rejected {},
            approval_id: p.approval_id,
            approver: p.approver,
            proposer: p.proposer,
            msg: p.msg,
            deposit: p.deposit,
        };
        let ghost d = done;
        put_id(&mut self.completed, id, done);
        assert(self.completed_map()[id] == d);
        assert(self.completed_map() =~= old(self).completed_map().insert(id, d));
        Ok(refund_to)
    }

    /// Hands approval to `address`; only the approver may.
    pub fn execute_update_approver(&mut self, sender: String, address: String) -> (r: Result<(), PreProposeError>)
        ensures
            sender@ != old(self).approver@ ==> r == Err::<(), PreProposeError>(
                PreProposeError::Unauthorized {},
            ) && *final(self) == *old(self),
            sender@ == old(self).approver@ ==> r is Ok && *final(self) == (ApprovalState {
                approver: address,
                ..*old(self)
            }),
    {
        if self.approver != sender {
            return Err(PreProposeError::Unauthorized {});
        }
        self.approver = address;
        Ok(())
    }

    /// Registers a contract told of each submitted proposal; the approver or the DAO may.
    pub fn execute_add_approver_hook(&mut self, sender: String, address: String) -> (r: Result<(), PreProposeError>)
        ensures
            sender@ != old(self).approver@ && sender@ != old(self).dao@ ==> r == Err::<
                (),
                PreProposeError,
            >(PreProposeError::Unauthorized {}) && *final(self) == *old(self),
            (sender@ == old(self).approver@ || sender@ == old(self).dao@) && hook_view(
                old(self).hooks@,
            ).contains(address@) ==> r == Err::<(), PreProposeError>(
                PreProposeError::Hooks(HookError::HookAlreadyRegistered {}),
            ) && *final(self) == *old(self),
            (sender@ == old(self).approver@ || sender@ == old(self).dao@) && !hook_view(
                old(self).hooks@,
            ).contains(address@) ==> r is Ok && *final(self) == (ApprovalState {
                hooks: final(self).hooks,
                ..*old(self)
            }) && final(self).hooks@ == old(self).hooks@.push(address),
    {
        if self.approver != sender && self.dao != sender {
            return Err(PreProposeError::Unauthorized {});
        }
        match add_hook(&mut self.hooks, address) {
            Ok(()) => Ok(()),
            Err(e) => Err(PreProposeError::Hooks(e)),
        }
    }

    /// Unregisters a contract told of submitted proposals; the approver or the DAO may.
    pub fn execute_remove_approver_hook(&mut self, sender: String, address: String) -> (r: Result<(), PreProposeError>)
        ensures
            sender@ != old(self).approver@ && sender@ != old(self).dao@ ==> r == Err::<
                (),
                PreProposeError,
            >(PreProposeError::Unauthorized {}) && *final(self) == *old(self),
            (sender@ == old(self).approver@ || sender@ == old(self).dao@) && !hook_view(
                old(self).hooks@,
            ).contains(address@) ==> r == Err::<(), PreProposeError>(
                PreProposeError::Hooks(HookError::HookNotRegistered {}),
            ) && *final(self) == *old(self),
            (sender@ == old(self).approver@ || sender@ == old(self).dao@) && hook_view(
                old(self).hooks@,
            ).contains(address@) ==> r is Ok && *final(self) == (ApprovalState {
                hooks: final(self).hooks,
                ..*old(self)
            }) && exists|i: int|
                0 <= i < old(self).hooks@.len() && old(self).hooks@[i]@ == address@ && (forall|j: int|
                    0 <= j < i ==> old(self).hooks@[j]@ != address@) && final(self).hooks@ == old(
                    self,
                ).hooks@.remove(i),
    {
        if self.approver != sender && self.dao != sender {
            return Err(PreProposeError::Unauthorized {});
        }
        match remove_hook(&mut self.hooks, &address) {
            Ok(()) => Ok(()),
            Err(e) => Err(PreProposeError::Hooks(e)),
        }
    }

    // ─────────────────────────── Queries ───────────────────────────

    /// Whether proposal `id` is pending (`Some(true)`), completed (`Some(false)`), or
    /// unknown (`None`).
    pub fn query_is_pending(&self, id: u64) -> (r: Option<bool>)
        requires
            self.wf(),
        ensures
            r == (if self.pending_map().contains_key(id) {
                Some(true)
            } else if self.completed_map().contains_key(id) {
                Some(false)
            } else {
                None
            }),
    {
        if find_id(&self.pending, id).is_some() {
            Some(true)
        } else if find_id(&self.completed, id).is_some() {
            Some(false)
        } else {
            None
        }
    }

    /// Proposal `id`, pending or else completed, if known.
    pub fn query_proposal(&self, id: u64) -> (r: Option<&Proposal>)
        requires
            self.wf(),
        ensures
            r == (if self.pending_map().contains_key(id) {
                Some(&self.pending_map()[id])
            } else if self.completed_map().contains_key(id) {
                Some(&self.completed_map()[id])
            } else {
                None
            }),
    {
        match get_id(&self.pending, id) {
            Some(p) => Some(p),
            None => get_id(&self.completed, id),
        }
    }

    pub fn query_pending_proposal(&self, id: u64) -> (r: Option<&Proposal>)
        requires
            self.wf(),
        ensures
            r == (if self.pending_map().contains_key(id) {
                Some(&self.pending_map()[id])
            } else {
                None
            }),
    {
        get_id(&self.pending, id)
    }

    pub fn query_completed_proposal(&self, id: u64) -> (r: Option<&Proposal>)
        requires
            self.wf(),
        ensures
            r == (if self.completed_map().contains_key(id) {
                Some(&self.completed_map()[id])
            } else {
                None
            }),
    {
        get_id(&self.completed, id)
    }

    /// Approval ids of pending proposals after `start_after`, ascending, at most `limit`.
    pub fn query_pending_proposals(&self, start_after: Option<u64>, limit: Option<u32>) -> (r: Vec<u64>)
        ensures
            r@ == keys_after(self.pending@, start_after, count_of(limit)),
    {
        page_after(&self.pending, start_after, limit)
    }

    /// Approval ids of pending proposals before `start_before`, descending, at most `limit`.
    pub fn query_reverse_pending_proposals(&self, start_before: Option<u64>, limit: Option<u32>) -> (r: Vec<u64>)
        ensures
            r@ == keys_before(self.pending@, start_before, count_of(limit)),
    {
        page_before(&self.pending, start_before, limit)
    }

    /// Approval ids of completed proposals after `start_after`, ascending, at most `limit`.
    pub fn query_completed_proposals(&self, start_after: Option<u64>, limit: Option<u32>) -> (r: Vec<u64>)
        ensures
            r@ == keys_after(self.completed@, start_after, count_of(limit)),
    {
        page_after(&self.completed, start_after, limit)
    }

    /// Approval ids of completed proposals before `start_before`, descending, at most
    /// `limit`.
    pub fn query_reverse_completed_proposals(&self, start_before: Option<u64>, limit: Option<u32>) -> (r: Vec<u64>)
        ensures
            r@ == keys_before(self.completed@, start_before, count_of(limit)),
    {
        page_before(&self.completed, start_before, limit)
    }

    /// The approval id that the created proposal `id` came from, if any.
    pub fn query_completed_proposal_id_for_created_proposal_id(&self, id: u64) -> (r: Option<u64>)
        requires
            self.wf(),
        ensures
            r == (if self.created_map().contains_key(id) {
                Some(self.created_map()[id])
            } else {
                None
            }),
    {
        match get_id(&self.created_to_completed, id) {
            Some(a) => Some(*a),
            None => None,
        }
    }
}


// ═══════════════════════════ Migration ═══════════════════════════

/// The module's state as version 2.4.1 stored it: proposals without their approver.
#[derive(Debug)]
pub struct ApprovalStateV241 {
    pub dao: String,
    pub approver: String,
    pub current_id: u64,
    pub pending: Vec<(u64, ProposalV241)>,
    pub completed: Vec<(u64, ProposalV241)>,
    pub created_to_completed: Vec<(u64, u64)>,
    pub deposits: Vec<(u64, (Option<CheckedDepositInfo>, String))>,
    pub hooks: Vec<String>,
}

pub open spec fn vote_of(v: VoteV241) -> Vote {
    match v {
        VoteV241::Yes => Vote::Yes,
        VoteV241::No => Vote::No,
        VoteV241::Abstain => Vote::Abstain,
    }
}

pub open spec fn refund_of(p: DepositRefundPolicyV241) -> DepositRefundPolicy {
    match p {
        DepositRefundPolicyV241::Always => DepositRefundPolicy::Always,
        DepositRefundPolicyV241::OnlyPassed => DepositRefundPolicy::OnlyPassed,
        DepositRefundPolicyV241::Never => DepositRefundPolicy::Never,
    }
}

pub open spec fn denom_of(d: CheckedDenomV241) -> CheckedDenom {
    match d {
        CheckedDenomV241::Native(s) => CheckedDenom::Native(s),
        CheckedDenomV241::Cw20(a) => CheckedDenom::Cw20(a),
    }
}

pub open spec fn deposit_of(d: Option<CheckedDepositInfoV241>) -> Option<CheckedDepositInfo> {
    match d {
        Some(i) => Some(
            CheckedDepositInfo {
                denom: denom_of(i.denom),
                amount: i.amount,
                refund_policy: refund_of(i.refund_policy),
            },
        ),
        None => None,
    }
}

pub open spec fn auto_vote_of(v: Option<SingleChoiceAutoVoteV241>) -> Option<SingleChoiceAutoVote> {
    match v {
        Some(a) => Some(SingleChoiceAutoVote { vote: vote_of(a.vote), rationale: a.rationale }),
        None => None,
    }
}

pub open spec fn msg_of(m: SingleChoiceProposeMsgV241) -> SingleChoiceProposeMsg {
    SingleChoiceProposeMsg {
        title: m.title,
        description: m.description,
        msgs: m.msgs,
        proposer: m.proposer,
        vote: auto_vote_of(m.vote),
    }
}

/// A stored proposal of version 2.4.1 in the current form, with approver `approver` and
/// status `status`.
pub open spec fn proposal_of(p: ProposalV241, approver: String, status: ApprovalProposalStatus) -> Proposal {
    Proposal {
        status,
        approval_id: p.approval_id,
        approver,
        proposer: p.proposer,
        msg: msg_of(p.msg),
        deposit: deposit_of(p.deposit),
    }
}

/// The status a completed proposal of version 2.4.1 keeps; a pending one has none.
pub open spec fn completed_status_of(s: ProposalStatusV241) -> Option<ApprovalProposalStatus> {
    match s {
        ProposalStatusV241::Approved { created_proposal_id } => Some(
            ApprovalProposalStatus::Approved { created_proposal_id },
        ),
        ProposalStatusV241::Rejected {} => Some(ApprovalProposalStatus::Rejected {}),
        ProposalStatusV241::Pending {} => None,
    }
}

fn convert_deposit(d: Option<CheckedDepositInfoV241>) -> (r: Option<CheckedDepositInfo>)
    ensures
        r == deposit_of(d),
{
    match d {
        Some(i) => Some(
            CheckedDepositInfo {
                denom: match i.denom {
                    CheckedDenomV241::Native(s) => CheckedDenom::Native(s),
                    CheckedDenomV241::Cw20(a) => CheckedDenom::Cw20(a),
                },
                amount: i.amount,
                refund_policy: match i.refund_policy {
                    DepositRefundPolicyV241::Always => DepositRefundPolicy::Always,
                    DepositRefundPolicyV241::OnlyPassed => DepositRefundPolicy::OnlyPassed,
                    DepositRefundPolicyV241::Never => DepositRefundPolicy::Never,
                },
            },
        ),
        None => None,
    }
}

fn convert_proposal(p: ProposalV241, approver: String, status: ApprovalProposalStatus) -> (r: Proposal)
    ensures
        r == proposal_of(p, approver, status),
{
    let ProposalV241 { status: _, approval_id, proposer, msg, deposit } = p;
    let SingleChoiceProposeMsgV241 { title, description, msgs, proposer: msg_proposer, vote } = msg;
    let vote = match vote {
        Some(a) => Some(
            SingleChoiceAutoVote {
                vote: match a.vote {
                    VoteV241::Yes => Vote::Yes,
                    VoteV241::No => Vote::No,
                    VoteV241::Abstain => Vote::Abstain,
                },
                rationale: a.rationale,
            },
        ),
        None => None,
    };
    Proposal {
        status,
        approval_id,
        approver,
        proposer,
        msg: SingleChoiceProposeMsg { title, description, msgs, proposer: msg_proposer, vote },
        deposit: convert_deposit(deposit),
    }
}

impl ApprovalStateV241 {
    pub open spec fn wf(&self) -> bool {
        &&& ascending(self.pending@)
        &&& ascending(self.completed@)
        &&& ascending(self.created_to_completed@)
        &&& ascending(self.deposits@)
        &&& forall|k: u64|
            #[trigger] id_map(self.pending@).contains_key(k) ==> k <= self.current_id
                && !id_map(self.completed@).contains_key(k)
        &&& forall|k: u64| #[trigger] id_map(self.completed@).contains_key(k) ==> k <= self.current_id
    }

    /// Some completed proposal is still marked pending.
    pub open spec fn has_pending_completed(&self) -> bool {
        exists|i: int|
            0 <= i < self.completed@.len() && #[trigger] self.completed@[i].1.status is Pending
    }
}

/// Migrates the state of version 2.4.1: each proposal gets the current approver;
/// `base` is the base module's own migration answer, returned when nothing else fails.
/// Only `FromUnderV250` is known; a completed proposal still marked pending is refused.
pub fn migrate<R>(old: ApprovalStateV241, msg: MigrateMsg, base: Result<R, PreProposeError>) -> (r: Result<(ApprovalState, R), PreProposeError>)
    requires
        old.wf(),
    ensures
        msg is Extension ==> (r matches Err(PreProposeError::Std { msg }) && msg@ == "not implemented"@),
        msg is FromUnderV250 && old.has_pending_completed() ==> (r matches Err(
            PreProposeError::Std { msg },
        ) && msg@ == "unexpected proposal status"@),
        msg is FromUnderV250 && !old.has_pending_completed() ==> (base matches Err(e) ==> r
            == Err::<(ApprovalState, R), PreProposeError>(e)),
        msg is FromUnderV250 && !old.has_pending_completed() && base is Ok ==> (r matches Ok((s, resp)) && {
            &&& resp == base->Ok_0
            &&& this_version(s.contract_version)
            &&& s.wf()
            &&& s.dao == old.dao
            &&& s.approver == old.approver
            &&& s.current_id == old.current_id
            &&& s.pending@.len() == old.pending@.len()
            &&& (forall|i: int|
                0 <= i < s.pending@.len() ==> #[trigger] s.pending@[i] == (
                    old.pending@[i].0,
                    proposal_of(
                        old.pending@[i].1,
                        old.approver,
                        ApprovalProposalStatus::Pending {},
                    ),
                ))
            &&& s.completed@.len() == old.completed@.len()
            &&& (forall|i: int|
                0 <= i < s.completed@.len() ==> #[trigger] s.completed@[i] == (
                    old.completed@[i].0,
                    proposal_of(
                        old.completed@[i].1,
                        old.approver,
                        completed_status_of(old.completed@[i].1.status)->0,
                    ),
                ))
            &&& s.created_to_completed == old.created_to_completed
            &&& s.deposits == old.deposits
            &&& s.hooks == old.hooks
        }),
{
    match msg {
        MigrateMsg::Extension {} => {
            return Err(PreProposeError::Std { msg: String::from_str("not implemented") });
        },
        MigrateMsg::FromUnderV250 {} => {},
    }
    let ghost ov = old;
    let ApprovalStateV241 {
        dao,
        approver,
        current_id,
        pending: old_pending,
        completed: old_completed,
        created_to_completed,
        deposits,
        hooks,
    } = old;
    let pending = convert_all(old_pending, &approver, true);
    let completed = match convert_all_completed(old_completed, &approver) {
        Some(c) => c,
        None => {
            return Err(PreProposeError::Std { msg: String::from_str("unexpected proposal status") });
        },
    };
    let resp = match base {
        Ok(resp) => resp,
        Err(e) => return Err(e),
    };
    let st = ApprovalState {
        contract_version: current_version(),
        dao,
        approver,
        current_id,
        pending,
        completed,
        created_to_completed,
        deposits,
        hooks,
    };
    proof {
        lemma_same_keys(ov.pending@, st.pending@);
        lemma_same_keys(ov.completed@, st.completed@);
        assert forall|k: u64| #[trigger] st.pending_map().contains_key(k) implies k <= st.current_id
            && !st.completed_map().contains_key(k) by {
            assert(id_map(ov.pending@).contains_key(k));
        }
        assert forall|k: u64| #[trigger] st.completed_map().contains_key(k) implies k <= st.current_id by {
            assert(id_map(ov.completed@).contains_key(k));
        }
    }
    Ok((st, resp))
}

/// Pending proposals of version 2.4.1 in the current form, with approver `approver`.
fn convert_all(v: Vec<(u64, ProposalV241)>, approver: &String, _pending: bool) -> (r: Vec<(u64, Proposal)>)
    requires
        ascending(v@),
    ensures
        ascending(r@),
        r@.len() == v@.len(),
        forall|i: int|
            0 <= i < r@.len() ==> #[trigger] r@[i] == (
                v@[i].0,
                proposal_of(v@[i].1, *approver, ApprovalProposalStatus::Pending {}),
            ),
{
    let ghost vv = v@;
    let mut rest = v;
    let mut rev: Vec<(u64, Proposal)> = Vec::new();
    while rest.len() > 0
        invariant
            rest@.len() + rev@.len() == vv.len(),
            rest@ == vv.take(rest@.len() as int),
            forall|j: int|
                0 <= j < rev@.len() ==> #[trigger] rev@[j] == (
                    vv[vv.len() - 1 - j].0,
                    proposal_of(vv[vv.len() - 1 - j].1, *approver, ApprovalProposalStatus::Pending {}),
                ),
        decreases rest.len(),
    {
        let (k, p) = rest.pop().unwrap();
        let q = convert_proposal(p, approver.clone(), ApprovalProposalStatus::Pending {});
        rev.push((k, q));
        assert(rest@ =~= vv.take(rest@.len() as int));
    }
    let mut out: Vec<(u64, Proposal)> = Vec::new();
    while rev.len() > 0
        invariant
            out@.len() + rev@.len() == vv.len(),
            forall|j: int|
                0 <= j < rev@.len() ==> #[trigger] rev@[j] == (
                    vv[vv.len() - 1 - j].0,
                    proposal_of(vv[vv.len() - 1 - j].1, *approver, ApprovalProposalStatus::Pending {}),
                ),
            forall|j: int|
                0 <= j < out@.len() ==> #[trigger] out@[j] == (
                    vv[j].0,
                    proposal_of(vv[j].1, *approver, ApprovalProposalStatus::Pending {}),
                ),
        decreases rev.len(),
    {
        let ghost r0 = rev@;
        let ghost at = out@.len() as int;
        assert(r0[r0.len() - 1] == (vv[at].0, proposal_of(vv[at].1, *approver, ApprovalProposalStatus::Pending {})));
        let e = rev.pop().unwrap();
        assert forall|j: int| 0 <= j < rev@.len() implies #[trigger] rev@[j] == r0[j] by {}
        out.push(e);
    }
    assert forall|a: int, b: int| 0 <= a < b < out@.len() implies out@[a].0 < out@[b].0 by {
        assert(out@[a].0 == vv[a].0 && out@[b].0 == vv[b].0);
    }
    out
}

/// Completed proposals of version 2.4.1 in the current form, with approver `approver`;
/// `None` if one of them is still marked pending.
fn convert_all_completed(v: Vec<(u64, ProposalV241)>, approver: &String) -> (r: Option<Vec<(u64, Proposal)>>)
    requires
        ascending(v@),
    ensures
        (exists|i: int| 0 <= i < v@.len() && #[trigger] v@[i].1.status is Pending)
            ==> r is None,
        !(exists|i: int| 0 <= i < v@.len() && #[trigger] v@[i].1.status is Pending)
            ==> (r matches Some(o) && ascending(o@) && o@.len() == v@.len() && forall|i: int|
            0 <= i < o@.len() ==> #[trigger] o@[i] == (
                v@[i].0,
                proposal_of(v@[i].1, *approver, completed_status_of(v@[i].1.status)->0),
            )),
{
    let ghost vv = v@;
    let mut i: usize = 0;
    while i < v.len()
        invariant
            i <= vv.len(),
            vv == v@,
            forall|j: int| 0 <= j < i ==> !(vv[j].1.status is Pending),
        decreases vv.len() - i,
    {
        if v[i].1.status == (ProposalStatusV241::Pending {}) {
            assert(vv[i as int].1.status is Pending);
            return None;
        }
        i += 1;
    }
    let mut rest = v;
    let mut rev: Vec<(u64, Proposal)> = Vec::new();
    while rest.len() > 0
        invariant
            rest@.len() + rev@.len() == vv.len(),
            rest@ == vv.take(rest@.len() as int),
            forall|j: int| 0 <= j < vv.len() ==> !(vv[j].1.status is Pending),
            forall|j: int|
                0 <= j < rev@.len() ==> #[trigger] rev@[j] == (
                    vv[vv.len() - 1 - j].0,
                    proposal_of(
                        vv[vv.len() - 1 - j].1,
                        *approver,
                        completed_status_of(vv[vv.len() - 1 - j].1.status)->0,
                    ),
                ),
        decreases rest.len(),
    {
        let ghost at = rest@.len() - 1;
        let (k, p) = rest.pop().unwrap();
        assert(p == vv[at].1);
        let status = match p.status {
            ProposalStatusV241::Approved { created_proposal_id } => ApprovalProposalStatus::Approved {
                created_proposal_id,
            },
            _ => ApprovalProposalStatus::Rejected {},
        };
        let q = convert_proposal(p, approver.clone(), status);
        rev.push((k, q));
        assert(rest@ =~= vv.take(rest@.len() as int));
    }
    let mut out: Vec<(u64, Proposal)> = Vec::new();
    while rev.len() > 0
        invariant
            out@.len() + rev@.len() == vv.len(),
            forall|j: int|
                0 <= j < rev@.len() ==> #[trigger] rev@[j] == (
                    vv[vv.len() - 1 - j].0,
                    proposal_of(
                        vv[vv.len() - 1 - j].1,
                        *approver,
                        completed_status_of(vv[vv.len() - 1 - j].1.status)->0,
                    ),
                ),
            forall|j: int|
                0 <= j < out@.len() ==> #[trigger] out@[j] == (
                    vv[j].0,
                    proposal_of(vv[j].1, *approver, completed_status_of(vv[j].1.status)->0),
                ),
        decreases rev.len(),
    {
        let ghost r0 = rev@;
        let ghost at = out@.len() as int;
        assert(r0[r0.len() - 1] == (
            vv[at].0,
            proposal_of(vv[at].1, *approver, completed_status_of(vv[at].1.status)->0),
        ));
        let e = rev.pop().unwrap();
        assert forall|j: int| 0 <= j < rev@.len() implies #[trigger] rev@[j] == r0[j] by {}
        out.push(e);
    }
    assert forall|a: int, b: int| 0 <= a < b < out@.len() implies out@[a].0 < out@[b].0 by {
        assert(out@[a].0 == vv[a].0 && out@[b].0 == vv[b].0);
    }
    Some(out)
}

/// The id a new proposal gets was never used: no pending or completed proposal holds it.
pub proof fn law_new_id_is_fresh(s: ApprovalState)
    requires
        s.wf(),
        s.current_id < u64::MAX,
    ensures
        !s.pending_map().contains_key((s.current_id + 1) as u64),
        !s.completed_map().contains_key((s.current_id + 1) as u64),
{
    let id = (s.current_id + 1) as u64;
    if s.pending_map().contains_key(id) {
        assert(id <= s.current_id);
    }
    if s.completed_map().contains_key(id) {
        assert(id <= s.current_id);
    }
}

/// A migrated proposal keeps what it was: its approval id, proposer and message (title,
/// description, messages, proposer), the proposer's auto-vote with the same choice (yes
/// stays yes, no stays no, abstain stays abstain) and rationale, and its deposit with the
/// same denomination, amount and refund policy; it gets the approver and status given.
pub proof fn law_migration_keeps_proposals(p: ProposalV241, approver: String, status: ApprovalProposalStatus)
    ensures
        ({
            let q = proposal_of(p, approver, status);
            &&& q.status == status
            &&& q.approver == approver
            &&& q.approval_id == p.approval_id
            &&& q.proposer == p.proposer
            &&& q.msg.title == p.msg.title
            &&& q.msg.description == p.msg.description
            &&& q.msg.msgs == p.msg.msgs
            &&& q.msg.proposer == p.msg.proposer
            &&& (p.msg.vote is None <==> q.msg.vote is None)
            &&& (p.msg.vote matches Some(a) ==> q.msg.vote matches Some(b) && {
                &&& b.rationale == a.rationale
                &&& (a.vote == VoteV241::Yes <==> b.vote == Vote::Yes)
                &&& (a.vote == VoteV241::No <==> b.vote == Vote::No)
                &&& (a.vote == VoteV241::Abstain <==> b.vote == Vote::Abstain)
            })
            &&& (p.deposit is None <==> q.deposit is None)
            &&& (p.deposit matches Some(i) ==> q.deposit matches Some(j) && {
                &&& j.amount == i.amount
                &&& (i.refund_policy == DepositRefundPolicyV241::Always <==> j.refund_policy
                    == DepositRefundPolicy::Always)
                &&& (i.refund_policy == DepositRefundPolicyV241::OnlyPassed <==> j.refund_policy
                    == DepositRefundPolicy::OnlyPassed)
                &&& (i.refund_policy == DepositRefundPolicyV241::Never <==> j.refund_policy
                    == DepositRefundPolicy::Never)
                &&& (i.denom matches CheckedDenomV241::Native(d) ==> j.denom matches CheckedDenom::Native(
                    e,
                ) && e == d)
                &&& (i.denom matches CheckedDenomV241::Cw20(d) ==> j.denom matches CheckedDenom::Cw20(e)
                    && e == d)
            })
        }),
{
}

/// A completed proposal keeps its outcome: approved with the id of the proposal it
/// created, or rejected; one still marked pending has no completed status.
pub proof fn law_migration_keeps_outcomes(s: ProposalStatusV241)
    ensures
        s matches ProposalStatusV241::Approved { created_proposal_id } ==> completed_status_of(s)
            == Some(ApprovalProposalStatus::Approved { created_proposal_id }),
        s is Rejected ==> completed_status_of(s) == Some(ApprovalProposalStatus::Rejected {}),
        s is Pending ==> completed_status_of(s) is None,
{
}

} // verus!
