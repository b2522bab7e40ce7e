use cosmwasm_std::testing::MockApi;
use cosmwasm_std::Uint256;
use dao_contracts::token_swap::{
    CheckedTokenInfo, Coin, ContractError, Counterparty, Escrow, InstantiateMsg, TokenInfo,
};
use dao_contracts::uint::U256;

const DAO1: &str = "dao1";
const DAO2: &str = "dao2";

fn addr(name: &str) -> String {
    MockApi::default().addr_make(name).to_string()
}

fn amount(n: u128) -> U256 {
    U256 { be: Uint256::from(n).to_be_bytes() }
}

fn value(a: &U256) -> u128 {
    Uint256::from_be_bytes(a.be).to_string().parse().unwrap()
}

fn ujuno(n: u128) -> Vec<Coin> {
    vec![Coin { denom: "ujuno".to_string(), amount: amount(n) }]
}

/// DAO1 promises 100 ujuno, DAO2 promises 100 of the cw20 `cw20`.
fn native_for_cw20(cw20: &str) -> InstantiateMsg {
    InstantiateMsg {
        counterparty_one: Counterparty {
            address: addr(DAO1),
            promise: TokenInfo::Native { denom: "ujuno".to_string(), amount: amount(100) },
        },
        counterparty_two: Counterparty {
            address: addr(DAO2),
            promise: TokenInfo::Cw20 { contract_addr: cw20.to_string(), amount: amount(100) },
        },
    }
}

#[test]
fn test_simple_escrow() {
    let cw20 = addr("cw20");
    let mut escrow = Escrow::instantiate(native_for_cw20(&cw20)).unwrap();

    let paid = escrow.execute_receive(cw20.clone(), addr(DAO2), amount(100)).unwrap();
    assert!(paid.is_empty());

    let paid = escrow.execute_fund(addr(DAO1), ujuno(100)).unwrap();
    assert_eq!(paid.len(), 2);
    // DAO2 gets the ujuno, DAO1 gets the cw20.
    assert_eq!(paid[0].to, addr(DAO2));
    assert!(matches!(&paid[0].promise, CheckedTokenInfo::Native { denom, amount } if denom == "ujuno" && value(amount) == 100));
    assert_eq!(paid[1].to, addr(DAO1));
    assert!(matches!(&paid[1].promise, CheckedTokenInfo::Cw20 { contract_addr, amount } if *contract_addr == cw20 && value(amount) == 100));
}

#[test]
fn test_withdraw() {
    let cw20 = addr("cw20");
    let mut escrow = Escrow::instantiate(native_for_cw20(&cw20)).unwrap();

    // Can't withdraw before you provide.
    let err = escrow.execute_withdraw(addr(DAO2)).unwrap_err();
    assert!(matches!(err, ContractError::NoProvision {}));

    escrow.execute_receive(cw20.clone(), addr(DAO2), amount(100)).unwrap();

    // Change our minds.
    let back = escrow.execute_withdraw(addr(DAO2)).unwrap();
    assert_eq!(back.to, addr(DAO2));
    assert!(matches!(&back.promise, CheckedTokenInfo::Cw20 { amount, .. } if value(amount) == 100));

    escrow.execute_fund(addr(DAO1), ujuno(100)).unwrap();

    let status = escrow.query_status();
    assert_eq!(status.counterparty_one.address, addr(DAO1));
    assert!(matches!(&status.counterparty_one.promise, CheckedTokenInfo::Native { denom, amount } if denom == "ujuno" && value(amount) == 100));
    assert!(status.counterparty_one.provided);
    assert_eq!(status.counterparty_two.address, addr(DAO2));
    assert!(matches!(&status.counterparty_two.promise, CheckedTokenInfo::Cw20 { contract_addr, amount } if *contract_addr == cw20 && value(amount) == 100));
    assert!(!status.counterparty_two.provided);

    // Change our minds.
    let back = escrow.execute_withdraw(addr(DAO1)).unwrap();
    assert_eq!(back.to, addr(DAO1));
    assert!(matches!(&back.promise, CheckedTokenInfo::Native { amount, .. } if value(amount) == 100));

    let status = escrow.query_status();
    assert!(!status.counterparty_one.provided);
    assert!(!status.counterparty_two.provided);
}

#[test]
fn test_withdraw_post_completion() {
    let cw20 = addr("cw20");
    let mut escrow = Escrow::instantiate(native_for_cw20(&cw20)).unwrap();

    escrow.execute_receive(cw20, addr(DAO2), amount(100)).unwrap();
    let paid = escrow.execute_fund(addr(DAO1), ujuno(100)).unwrap();
    assert_eq!(paid.len(), 2);
    assert_eq!(paid[0].to, addr(DAO2));

    let err = escrow.execute_withdraw(addr(DAO1)).unwrap_err();
    assert!(matches!(err, ContractError::Complete {}));
}

#[test]
fn test_invalid_instantiate() {
    let cw20 = addr("cw20");
    // Zero amount not allowed for native tokens.
    let mut msg = native_for_cw20(&cw20);
    msg.counterparty_one.promise = TokenInfo::Native { denom: "ujuno".to_string(), amount: amount(0) };
    let err = Escrow::instantiate(msg).unwrap_err();
    assert!(matches!(err, ContractError::ZeroTokens {}));

    // Zero amount not allowed for cw20 tokens.
    let mut msg = native_for_cw20(&cw20);
    msg.counterparty_two.promise = TokenInfo::Cw20 { contract_addr: cw20.clone(), amount: amount(0) };
    let err = Escrow::instantiate(msg).unwrap_err();
    assert!(matches!(err, ContractError::ZeroTokens {}));
}

#[test]
fn test_non_distincy_counterparties() {
    let msg = InstantiateMsg {
        counterparty_one: Counterparty {
            address: addr(DAO1),
            promise: TokenInfo::Native { denom: "ujuno".to_string(), amount: amount(110) },
        },
        counterparty_two: Counterparty {
            address: addr(DAO1),
            promise: TokenInfo::Native { denom: "ujuno".to_string(), amount: amount(10) },
        },
    };
    let err = Escrow::instantiate(msg).unwrap_err();
    assert!(matches!(err, ContractError::NonDistinctCounterparties {}));
}

#[test]
fn test_fund_non_counterparty() {
    let cw20 = addr("cw20");
    let mut escrow = Escrow::instantiate(native_for_cw20(&cw20)).unwrap();

    let err = escrow.execute_receive(cw20, addr("noah"), amount(100)).unwrap_err();
    assert!(matches!(err, ContractError::Unauthorized {}));

    let err = escrow.execute_fund(addr("noah"), ujuno(100)).unwrap_err();
    assert!(matches!(err, ContractError::Unauthorized {}));
}

#[test]
fn test_fund_twice() {
    let cw20 = addr("cw20");
    let mut escrow = Escrow::instantiate(native_for_cw20(&cw20)).unwrap();

    escrow.execute_receive(cw20.clone(), addr(DAO2), amount(100)).unwrap();
    escrow.execute_fund(addr(DAO1), ujuno(100)).unwrap();

    let err = escrow.execute_fund(addr(DAO1), ujuno(100)).unwrap_err();
    assert!(matches!(err, ContractError::AlreadyProvided {}));

    let err = escrow.execute_receive(cw20, addr(DAO2), amount(100)).unwrap_err();
    assert!(matches!(err, ContractError::AlreadyProvided {}));
}

#[test]
fn test_fund_invalid_amount() {
    let cw20 = addr("cw20");
    let mut escrow = Escrow::instantiate(native_for_cw20(&cw20)).unwrap();

    let err = escrow.execute_receive(cw20, addr(DAO2), amount(10)).unwrap_err();
    match err {
        ContractError::InvalidAmount { expected, actual } => {
            assert_eq!(value(&expected), 100);
            assert_eq!(value(&actual), 10);
        }
        other => panic!("unexpected error {other:?}"),
    }

    let err = escrow.execute_fund(addr(DAO1), ujuno(200)).unwrap_err();
    match err {
        ContractError::InvalidAmount { expected, actual } => {
            assert_eq!(value(&expected), 100);
            assert_eq!(value(&actual), 200);
        }
        other => panic!("unexpected error {other:?}"),
    }
}

#[test]
fn test_fund_invalid_denom() {
    let msg = InstantiateMsg {
        counterparty_one: Counterparty {
            address: addr(DAO1),
            promise: TokenInfo::Native { denom: "ujuno".to_string(), amount: amount(100) },
        },
        counterparty_two: Counterparty {
            address: addr(DAO2),
            promise: TokenInfo::Native { denom: "uekez".to_string(), amount: amount(100) },
        },
    };
    let mut escrow = Escrow::instantiate(msg).unwrap();

    // Coutnerparty one tries to fund in the denom of counterparty two.
    let funds = vec![Coin { denom: "uekez".to_string(), amount: amount(100) }];
    let err = escrow.execute_fund(addr(DAO1), funds).unwrap_err();
    assert!(matches!(err, ContractError::InvalidFunds {}));
}

#[test]
fn test_fund_invalid_cw20() {
    let cw20 = addr("cw20");
    let bad_cw20 = addr("bad_cw20");
    let mut escrow = Escrow::instantiate(native_for_cw20(&cw20)).unwrap();

    // Try and fund the contract with the wrong cw20.
    let err = escrow.execute_receive(bad_cw20, addr(DAO2), amount(100)).unwrap_err();
    assert!(matches!(err, ContractError::InvalidFunds {}));

    // Try and fund the contract with the correct cw20 but incorrect provider.
    let err = escrow.execute_receive(cw20, addr(DAO1), amount(100)).unwrap_err();
    assert!(matches!(err, ContractError::InvalidFunds {}));
}

#[test]
fn fund_with_no_or_several_coins_is_refused() {
    let cw20 = addr("cw20");
    let mut escrow = Escrow::instantiate(native_for_cw20(&cw20)).unwrap();
    let err = escrow.execute_fund(addr(DAO1), vec![]).unwrap_err();
    assert!(matches!(err, ContractError::InvalidFunds {}));
    let mut two = ujuno(50);
    two.push(Coin { denom: "uatom".to_string(), amount: amount(50) });
    let err = escrow.execute_fund(addr(DAO1), two).unwrap_err();
    assert!(matches!(err, ContractError::InvalidFunds {}));
    let err = escrow.execute_fund(addr(DAO1), ujuno(0)).unwrap_err();
    assert!(matches!(err, ContractError::InvalidFunds {}));
    // The cw20 side cannot fund with native coins.
    let err = escrow.execute_fund(addr(DAO2), ujuno(100)).unwrap_err();
    assert!(matches!(err, ContractError::InvalidFunds {}));
}

#[test]
fn withdraw_then_fund_again_restores_the_swap() {
    let cw20 = addr("cw20");
    let mut escrow = Escrow::instantiate(native_for_cw20(&cw20)).unwrap();
    escrow.execute_fund(addr(DAO1), ujuno(100)).unwrap();
    escrow.execute_withdraw(addr(DAO1)).unwrap();
    let status = escrow.query_status();
    assert!(!status.counterparty_one.provided);
    let paid = escrow.execute_fund(addr(DAO1), ujuno(100)).unwrap();
    assert!(paid.is_empty());
    let paid = escrow.execute_receive(cw20, addr(DAO2), amount(100)).unwrap();
    assert_eq!(paid.len(), 2);
    assert_eq!(paid[0].to, addr(DAO1));
    assert_eq!(paid[1].to, addr(DAO2));
}
