use cosmwasm_std::testing::{mock_env, MockApi};
use cosmwasm_std::Uint256;
use dao_contracts::uint::U256;
use dao_contracts::zk_voting::{
    voting_power_from_poll, ActiveRoute, ActiveThreshold, ContractError, InstantiateMsg,
    PollAnswer, PollState, PowerSource, VotingPowerRoute, ZkVoting,
};
use dao_contracts::uint::Decimal;

fn addr_make(prefix: &str) -> String {
    MockApi::default().addr_make(prefix).to_string()
}

fn power(n: u128) -> U256 {
    U256 { be: Uint256::from(n).to_be_bytes() }
}

fn setup_test() -> ZkVoting {
    let msg = InstantiateMsg {
        underlying_voting_module: addr_make("underlying_module"),
        poll_registry: addr_make("poll_registry"),
        active_threshold: None,
    };
    ZkVoting::instantiate(addr_make("dao"), msg)
}

#[test]
fn test_instantiate() {
    let deps = setup_test();
    assert_eq!(deps.dao, addr_make("dao"));
    assert_eq!(deps.underlying_voting_module, addr_make("underlying_module"));
    assert_eq!(deps.poll_registry, addr_make("poll_registry"));
}

#[test]
fn test_unauthorized_update_config() {
    let mut deps = setup_test();
    let err = deps.execute_update_config(&addr_make("alice"), None, None).unwrap_err();
    assert_eq!(err, ContractError::Unauthorized {});
}

#[test]
fn test_unauthorized_snapshot() {
    let mut deps = setup_test();
    let env = mock_env();
    let err = deps
        .execute_snapshot_voters(
            &addr_make("alice"),
            env.block.height,
            1,
            "0xabcd".to_string(),
            power(100),
        )
        .unwrap_err();
    assert_eq!(err, ContractError::Unauthorized {});
}

#[test]
fn test_snapshot_duplicate_proposal() {
    let mut deps = setup_test();
    let env = mock_env();
    let dao = addr_make("dao");
    deps.execute_snapshot_voters(&dao, env.block.height, 1, "0xabcd".to_string(), power(100))
        .unwrap();
    let err = deps
        .execute_snapshot_voters(&dao, env.block.height, 1, "0xef01".to_string(), power(200))
        .unwrap_err();
    assert_eq!(err, ContractError::SnapshotAlreadyExists { proposal_id: 1 });
}

#[test]
fn test_snapshot_zero_total_power() {
    let mut deps = setup_test();
    let env = mock_env();
    let err = deps
        .execute_snapshot_voters(
            &addr_make("dao"),
            env.block.height,
            1,
            "0xabcd".to_string(),
            power(0),
        )
        .unwrap_err();
    assert_eq!(err, ContractError::ZeroTotalPower {});
}

#[test]
fn test_snapshot_empty_merkle_root() {
    let mut deps = setup_test();
    let env = mock_env();
    let err = deps
        .execute_snapshot_voters(&addr_make("dao"), env.block.height, 1, "".to_string(), power(100))
        .unwrap_err();
    assert_eq!(
        err,
        ContractError::InvalidMerkleRoot { reason: "empty merkle root".to_string() }
    );
}

#[test]
fn test_snapshot_success() {
    let mut deps = setup_test();
    let env = mock_env();
    deps.execute_snapshot_voters(
        &addr_make("dao"),
        env.block.height,
        42,
        "0xdeadbeef".to_string(),
        power(1000),
    )
    .unwrap();

    let snap = deps.find_snapshot_at_height(env.block.height).unwrap();
    assert_eq!(snap.proposal_id, 42);
    assert_eq!(snap.merkle_root, "0xdeadbeef");
    assert_eq!(snap.total_power, power(1000));
    assert!(snap.poll_id.starts_with("zk_vote_42_"));
    assert_eq!(snap.created_at, mock_env().block.height);
}

#[test]
fn test_query_snapshot() {
    let mut deps = setup_test();
    let env = mock_env();
    deps.execute_snapshot_voters(
        &addr_make("dao"),
        env.block.height,
        7,
        "0xcafe".to_string(),
        power(500),
    )
    .unwrap();

    let resp = deps.query_snapshot(7).unwrap();
    assert_eq!(resp.proposal_id, 7);
    assert_eq!(resp.merkle_root, "0xcafe");
    assert_eq!(resp.total_power, power(500));
}

#[test]
fn tests_test_update_config() {
    let mut deps = setup_test();
    deps.execute_update_config(
        &addr_make("dao"),
        Some(addr_make("new_underlying")),
        Some(addr_make("new_registry")),
    )
    .unwrap();
    assert_eq!(deps.underlying_voting_module, addr_make("new_underlying"));
    assert_eq!(deps.poll_registry, addr_make("new_registry"));
}

// ── further cases ──

#[test]
fn snapshot_registers_poll_with_registry() {
    let mut deps = setup_test();
    let reg = deps
        .execute_snapshot_voters(&addr_make("dao"), 12345, 42, "0xdeadbeef".to_string(), power(1000))
        .unwrap();
    assert_eq!(reg.poll_id, "zk_vote_42_12345");
    assert_eq!(reg.contract_addr, addr_make("poll_registry"));
    assert_eq!(reg.merkle_root, "0xdeadbeef");
    assert_eq!(reg.total_power, power(1000));
    assert_eq!(deps.poll_map, vec![("zk_vote_42_12345".to_string(), 42)]);
}

#[test]
fn rejected_snapshot_changes_nothing() {
    let mut deps = setup_test();
    let dao = addr_make("dao");
    deps.execute_snapshot_voters(&dao, 10, 1, "0xab".to_string(), power(5)).unwrap();
    let before = deps.snapshots.len();
    assert!(deps.execute_snapshot_voters(&dao, 11, 1, "0xcd".to_string(), power(6)).is_err());
    assert_eq!(deps.snapshots.len(), before);
    assert_eq!(deps.query_snapshot(1).unwrap().merkle_root, "0xab");
}

#[test]
fn total_power_uses_latest_covering_snapshot() {
    let mut deps = setup_test();
    let dao = addr_make("dao");
    deps.execute_snapshot_voters(&dao, 100, 1, "0xa".to_string(), power(10)).unwrap();
    deps.execute_snapshot_voters(&dao, 200, 2, "0xb".to_string(), power(20)).unwrap();
    match deps.query_total_power_at_height(Some(150), 999) {
        PowerSource::Snapshot { power: p, height } => {
            assert_eq!(p, power(10));
            assert_eq!(height, 150);
        }
        other => panic!("unexpected {:?}", other),
    }
    match deps.query_total_power_at_height(None, 250) {
        PowerSource::Snapshot { power: p, height } => {
            assert_eq!(p, power(20));
            assert_eq!(height, 250);
        }
        other => panic!("unexpected {:?}", other),
    }
    match deps.query_total_power_at_height(Some(50), 999) {
        PowerSource::Underlying { module, height } => {
            assert_eq!(module, addr_make("underlying_module"));
            assert_eq!(height, Some(50));
        }
        other => panic!("unexpected {:?}", other),
    }
}

#[test]
fn voting_power_routes() {
    let mut deps = setup_test();
    let dao = addr_make("dao");
    deps.execute_snapshot_voters(&dao, 100, 3, "0xa".to_string(), power(10)).unwrap();
    match deps.query_voting_power_at_height(None, 120) {
        VotingPowerRoute::ViaPoll { poll_id, snapshot_height, query_height, .. } => {
            assert_eq!(poll_id, "zk_vote_3_100");
            assert_eq!(snapshot_height, 100);
            assert_eq!(query_height, 120);
        }
        other => panic!("unexpected {:?}", other),
    }
    match deps.query_voting_power_at_height(Some(99), 120) {
        VotingPowerRoute::Underlying { height, .. } => assert_eq!(height, Some(99)),
        other => panic!("unexpected {:?}", other),
    }
    let zero = voting_power_from_poll(PollAnswer::NotRegistered, 120);
    assert_eq!(zero.power, power(0));
    assert_eq!(zero.height, 120);
    let state = PollState {
        poll_id: "zk_vote_3_100".to_string(),
        merkle_root: "0xa".to_string(),
        total_power: power(10),
        status: "active".to_string(),
        start_block: 100,
        end_block: 200,
    };
    let unproved = PollState { poll_id: state.poll_id.clone(), merkle_root: state.merkle_root.clone(), ..state };
    let got = voting_power_from_poll(
        PollAnswer::Registered { state: unproved, underlying_power: power(7), proved: false },
        120,
    );
    assert_eq!(got.power, power(0));
    let state = PollState {
        poll_id: "zk_vote_3_100".to_string(),
        merkle_root: "0xa".to_string(),
        total_power: power(10),
        status: "active".to_string(),
        start_block: 100,
        end_block: 200,
    };
    let got = voting_power_from_poll(
        PollAnswer::Registered { state, underlying_power: power(7), proved: true },
        120,
    );
    assert_eq!(got.power, power(7));
}

#[test]
fn the_latest_snapshot_at_a_height_is_taken() {
    // Proposal ids need not follow creation heights: the latest creation at or before
    // the height decides.
    let mut deps = setup_test();
    let dao = addr_make("dao");
    deps.execute_snapshot_voters(&dao, 300, 1, "0xa".to_string(), power(10)).unwrap();
    deps.execute_snapshot_voters(&dao, 100, 2, "0xb".to_string(), power(20)).unwrap();
    deps.execute_snapshot_voters(&dao, 200, 3, "0xc".to_string(), power(30)).unwrap();
    assert_eq!(deps.find_snapshot_at_height(250).unwrap().proposal_id, 3);
    assert_eq!(deps.find_snapshot_at_height(150).unwrap().proposal_id, 2);
    assert_eq!(deps.find_snapshot_at_height(1000).unwrap().proposal_id, 1);
    assert!(deps.find_snapshot_at_height(99).is_none());
}

#[test]
fn active_threshold_percentage_bounds() {
    let mut deps = setup_test();
    let dao = addr_make("dao");
    let pct = |p: u64| ActiveThreshold::Percentage {
        percent: Decimal {
            atomics: U256 { be: cosmwasm_std::Decimal256::percent(p).atomics().to_be_bytes() },
        },
    };
    assert!(matches!(
        deps.execute_update_active_threshold(&dao, Some(pct(101))),
        Err(ContractError::Std { .. })
    ));
    assert!(matches!(
        deps.execute_update_active_threshold(&dao, Some(pct(0))),
        Err(ContractError::Std { .. })
    ));
    assert_eq!(
        deps.execute_update_active_threshold(&addr_make("alice"), Some(pct(50))),
        Err(ContractError::Unauthorized {})
    );
    assert!(matches!(deps.query_is_active(), ActiveRoute::Active));
    deps.execute_update_active_threshold(&dao, Some(pct(100))).unwrap();
    assert!(matches!(deps.query_is_active(), ActiveRoute::AskUnderlying { .. }));
    deps.execute_update_active_threshold(&dao, None).unwrap();
    assert!(matches!(deps.query_is_active(), ActiveRoute::Active));
}
