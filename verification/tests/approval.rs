use dao_contracts::approval::{
    migrate, ApprovalProposalStatus, ApprovalState, ApprovalStateV241, CheckedDenom,
    CheckedDenomV241, CheckedDepositInfo, CheckedDepositInfoV241, DepositRefundPolicy,
    DepositRefundPolicyV241, MigrateMsg, PreProposeError, ProposalStatusV241, ProposalV241,
    ProposeMessage, SingleChoiceAutoVoteV241, SingleChoiceProposeMsgV241, Vote, VoteV241,
};
use dao_contracts::hooks::HookError;

fn propose(title: &str) -> ProposeMessage {
    ProposeMessage::Propose {
        title: title.to_string(),
        description: "d".to_string(),
        msgs: vec![],
        vote: None,
    }
}

fn deposit(policy: DepositRefundPolicy) -> Option<CheckedDepositInfo> {
    Some(CheckedDepositInfo {
        denom: CheckedDenom::Native("ujuno".to_string()),
        amount: 10,
        refund_policy: policy,
    })
}

#[test]
fn proposals_get_increasing_approval_ids() {
    let mut s = ApprovalState::instantiate("dao".to_string(), "approver".to_string());
    let a = s.execute_propose("alice".to_string(), propose("a"), None, Ok(()), Ok(())).unwrap();
    let b = s.execute_propose("bob".to_string(), propose("b"), None, Ok(()), Ok(())).unwrap();
    assert_eq!((a, b), (1, 2));
    let p = s.query_pending_proposal(1).unwrap();
    assert_eq!(p.proposer, "alice");
    assert_eq!(p.approver, "approver");
    assert_eq!(p.msg.proposer, Some("alice".to_string()));
    assert_eq!(p.msg.title, "a");
    assert!(matches!(p.status, ApprovalProposalStatus::Pending {}));
    assert_eq!(s.query_pending_proposals(None, None), vec![1, 2]);
    assert_eq!(s.query_reverse_pending_proposals(None, Some(1)), vec![2]);
    assert_eq!(s.query_pending_proposals(Some(1), None), vec![2]);
}

#[test]
fn refused_submissions_change_nothing() {
    let mut s = ApprovalState::instantiate("dao".to_string(), "approver".to_string());
    let err = s
        .execute_propose(
            "alice".to_string(),
            propose("a"),
            None,
            Err(PreProposeError::Unauthorized {}),
            Ok(()),
        )
        .unwrap_err();
    assert!(matches!(err, PreProposeError::Unauthorized {}));
    let err = s
        .execute_propose(
            "alice".to_string(),
            propose("a"),
            None,
            Ok(()),
            Err(PreProposeError::Refused { reason: "no deposit".to_string() }),
        )
        .unwrap_err();
    assert!(matches!(err, PreProposeError::Refused { .. }));
    assert_eq!(s.current_id, 0);
    assert!(s.pending.is_empty());
}

#[test]
fn approving_moves_the_proposal_to_completed() {
    let mut s = ApprovalState::instantiate("dao".to_string(), "approver".to_string());
    s.execute_propose("alice".to_string(), propose("a"), deposit(DepositRefundPolicy::Always), Ok(()), Ok(()))
        .unwrap();
    assert!(matches!(s.check_decide(&"eve".to_string(), 1), Err(PreProposeError::Unauthorized {})));
    assert!(matches!(s.check_decide(&"approver".to_string(), 7), Err(PreProposeError::ProposalNotFound {})));
    assert!(matches!(
        s.execute_approve("eve".to_string(), 1, 42),
        Err(PreProposeError::Unauthorized {})
    ));
    s.execute_approve("approver".to_string(), 1, 42).unwrap();
    assert_eq!(s.query_is_pending(1), Some(false));
    assert_eq!(s.query_is_pending(2), None);
    let p = s.query_completed_proposal(1).unwrap();
    assert!(matches!(p.status, ApprovalProposalStatus::Approved { created_proposal_id: 42 }));
    assert_eq!(s.query_completed_proposal_id_for_created_proposal_id(42), Some(1));
    assert_eq!(s.query_completed_proposal_id_for_created_proposal_id(1), None);
    assert!(matches!(
        s.execute_approve("approver".to_string(), 1, 43),
        Err(PreProposeError::ProposalNotFound {})
    ));
    assert_eq!(s.deposits.len(), 1);
    assert_eq!(s.deposits[0].0, 42);
    assert_eq!(s.deposits[0].1 .1, "alice");
}

#[test]
fn rejected_deposits_go_back_only_when_always_refunded() {
    let mut s = ApprovalState::instantiate("dao".to_string(), "approver".to_string());
    s.execute_propose("alice".to_string(), propose("a"), deposit(DepositRefundPolicy::Always), Ok(()), Ok(()))
        .unwrap();
    s.execute_propose("bob".to_string(), propose("b"), deposit(DepositRefundPolicy::OnlyPassed), Ok(()), Ok(()))
        .unwrap();
    s.execute_propose("carol".to_string(), propose("c"), None, Ok(()), Ok(())).unwrap();
    assert_eq!(s.execute_reject("approver".to_string(), 1).unwrap(), Some("alice".to_string()));
    assert_eq!(s.execute_reject("approver".to_string(), 2).unwrap(), Some("dao".to_string()));
    assert_eq!(s.execute_reject("approver".to_string(), 3).unwrap(), None);
    assert!(matches!(
        s.query_proposal(2).unwrap().status,
        ApprovalProposalStatus::Rejected {}
    ));
    assert_eq!(s.query_completed_proposals(None, Some(2)), vec![1, 2]);
    assert_eq!(s.query_reverse_completed_proposals(Some(3), None), vec![2, 1]);
    assert!(s.query_pending_proposals(None, None).is_empty());
}

#[test]
fn approver_and_hooks() {
    let mut s = ApprovalState::instantiate("dao".to_string(), "approver".to_string());
    assert!(matches!(
        s.execute_update_approver("dao".to_string(), "x".to_string()),
        Err(PreProposeError::Unauthorized {})
    ));
    s.execute_update_approver("approver".to_string(), "new".to_string()).unwrap();
    assert_eq!(s.approver, "new");
    assert!(matches!(
        s.execute_add_approver_hook("eve".to_string(), "h".to_string()),
        Err(PreProposeError::Unauthorized {})
    ));
    s.execute_add_approver_hook("dao".to_string(), "h".to_string()).unwrap();
    assert!(matches!(
        s.execute_add_approver_hook("new".to_string(), "h".to_string()),
        Err(PreProposeError::Hooks(HookError::HookAlreadyRegistered {}))
    ));
    s.execute_remove_approver_hook("new".to_string(), "h".to_string()).unwrap();
    assert!(matches!(
        s.execute_remove_approver_hook("dao".to_string(), "h".to_string()),
        Err(PreProposeError::Hooks(HookError::HookNotRegistered {}))
    ));
}

fn v241(id: u64, status: ProposalStatusV241) -> (u64, ProposalV241) {
    (
        id,
        ProposalV241 {
            status,
            approval_id: id,
            proposer: "alice".to_string(),
            msg: SingleChoiceProposeMsgV241 {
                title: "t".to_string(),
                description: "d".to_string(),
                msgs: vec![],
                proposer: Some("alice".to_string()),
                vote: Some(SingleChoiceAutoVoteV241 { vote: VoteV241::Abstain, rationale: None }),
            },
            deposit: Some(CheckedDepositInfoV241 {
                denom: CheckedDenomV241::Cw20("token".to_string()),
                amount: 5,
                refund_policy: DepositRefundPolicyV241::Never,
            }),
        },
    )
}

fn old_state(completed: Vec<(u64, ProposalV241)>) -> ApprovalStateV241 {
    ApprovalStateV241 {
        dao: "dao".to_string(),
        approver: "approver".to_string(),
        current_id: 3,
        pending: vec![v241(3, ProposalStatusV241::Pending {})],
        completed,
        created_to_completed: vec![],
        deposits: vec![],
        hooks: vec![],
    }
}

#[test]
fn migration_records_the_approver() {
    let old = old_state(vec![
        v241(1, ProposalStatusV241::Approved { created_proposal_id: 9 }),
        v241(2, ProposalStatusV241::Rejected {}),
    ]);
    let (s, resp) = migrate(old, MigrateMsg::FromUnderV250 {}, Ok("base response")).unwrap();
    assert_eq!(resp, "base response");
    assert_eq!(s.contract_version.contract, "crates.io:dao-pre-propose-approval-single");
    assert_eq!(s.contract_version.version, "0.1.0");
    assert_eq!(s.pending.len(), 1);
    assert_eq!(s.pending[0].1.approver, "approver");
    assert!(matches!(s.pending[0].1.status, ApprovalProposalStatus::Pending {}));
    let vote = s.pending[0].1.msg.vote.as_ref().unwrap();
    assert_eq!(vote.vote, Vote::Abstain);
    let dep = s.pending[0].1.deposit.as_ref().unwrap();
    assert_eq!(dep.amount, 5);
    assert_eq!(dep.refund_policy, DepositRefundPolicy::Never);
    assert!(matches!(&dep.denom, CheckedDenom::Cw20(a) if a == "token"));
    assert!(matches!(
        s.completed[0].1.status,
        ApprovalProposalStatus::Approved { created_proposal_id: 9 }
    ));
    assert!(matches!(s.completed[1].1.status, ApprovalProposalStatus::Rejected {}));
    assert_eq!(s.completed[1].1.approver, "approver");
}

#[test]
fn migration_refusals() {
    let old = old_state(vec![v241(1, ProposalStatusV241::Pending {})]);
    match migrate(old, MigrateMsg::FromUnderV250 {}, Ok(())).map(|x| x.0) {
        Err(PreProposeError::Std { msg }) => assert_eq!(msg, "unexpected proposal status"),
        other => panic!("unexpected {other:?}"),
    }
    let old = old_state(vec![]);
    match migrate(old, MigrateMsg::Extension {}, Ok(())).map(|x| x.0) {
        Err(PreProposeError::Std { msg }) => assert_eq!(msg, "not implemented"),
        other => panic!("unexpected {other:?}"),
    }
    let old = old_state(vec![]);
    assert!(matches!(
        migrate::<()>(old, MigrateMsg::FromUnderV250 {}, Err(PreProposeError::Unauthorized {})),
        Err(PreProposeError::Unauthorized {})
    ));
}

#[test]
fn submission_takes_cw20_deposit_and_notifies_each_hook_in_order() {
    let mut s = ApprovalState::instantiate("dao".to_string(), "approver".to_string());
    s.execute_add_approver_hook("dao".to_string(), "h1".to_string()).unwrap();
    s.execute_add_approver_hook("dao".to_string(), "h2".to_string()).unwrap();
    let cw20 = Some(CheckedDepositInfo {
        denom: CheckedDenom::Cw20("token".to_string()),
        amount: 5,
        refund_policy: DepositRefundPolicy::Always,
    });
    let id = s.execute_propose("alice".to_string(), propose("a"), cw20, Ok(()), Ok(())).unwrap();
    let e = s.submission_effects(id).unwrap();
    let take = e.deposit_take.unwrap();
    assert_eq!((take.token.as_str(), take.owner.as_str(), take.amount), ("token", "alice", 5));
    let targets: Vec<&str> = e.notices.iter().map(|n| n.contract.as_str()).collect();
    assert_eq!(targets, vec!["h1", "h2"]);
    assert!(e.notices.iter().all(|n| n.title == "a" && n.description == "d" && n.approval_id == id));

    // A native deposit is paid with the message, not taken.
    let id2 = s.execute_propose("bob".to_string(), propose("b"), deposit(DepositRefundPolicy::Never), Ok(()), Ok(())).unwrap();
    assert!(s.submission_effects(id2).unwrap().deposit_take.is_none());
    assert!(s.submission_effects(99).is_none());
}
