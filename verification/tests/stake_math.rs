use cosmwasm_std::Uint256;
use dao_contracts::stake_math::{
    amount_to_claim, amount_to_stake, checked_amount_to_claim, checked_amount_to_stake,
};
use dao_contracts::uint::U256;

fn u(x: Uint256) -> U256 {
    U256 { be: x.to_be_bytes() }
}

fn back(x: U256) -> Uint256 {
    Uint256::from_be_bytes(x.be)
}

#[test]
fn test_amount_to_stake_no_overflow() {
    let sent = Uint256::new(2);
    let balance = Uint256::MAX - sent;

    let overflows_naively = sent.checked_mul(balance).is_err();
    assert!(overflows_naively);

    // will panic and fail the test if we've done this wrong.
    amount_to_stake(u(balance), u(balance), u(sent));
}

#[test]
fn test_amount_to_stake_with_zeros() {
    let sent = Uint256::new(42);
    let balance = Uint256::zero();
    let amount = amount_to_stake(u(balance), u(balance), u(sent));
    assert_eq!(back(amount), sent);
}

#[test]
fn test_amount_to_claim_no_overflow() {
    let ask = Uint256::new(2);
    let balance = Uint256::MAX - ask;

    let overflows_naively = ask.checked_mul(balance).is_err();
    assert!(overflows_naively);

    amount_to_claim(u(balance), u(balance), u(ask));
}

#[test]
#[should_panic]
fn test_amount_to_claim_invariant_one() {
    let ask = Uint256::new(2);
    let balance = Uint256::zero();

    amount_to_claim(u(balance), u(balance), u(ask));
}

#[test]
#[should_panic(expected = "ConversionOverflowError")]
fn test_amount_to_claim_invariant_two() {
    let ask = Uint256::new(2);
    let balance = Uint256::MAX;
    let staked_total = Uint256::new(1);

    amount_to_claim(u(staked_total), u(balance), u(ask));
}

#[test]
#[should_panic(expected = "ConversionOverflowError")]
fn test_amount_to_claim_invariant_three() {
    let ask = Uint256::new(2);
    let balance = Uint256::MAX;
    let staked_total = Uint256::new(1);

    amount_to_claim(u(staked_total), u(balance), u(ask));
}

#[test]
fn stake_amount_proportional() {
    // 100 staked, 150 held (50 rewards): 30 sent buys 100 * 30 / 150 = 20 shares.
    let r = amount_to_stake(u(Uint256::new(100)), u(Uint256::new(150)), u(Uint256::new(30)));
    assert_eq!(back(r), Uint256::new(20));
    // rounds down: 100 * 10 / 150 = 6.66..
    let r = amount_to_stake(u(Uint256::new(100)), u(Uint256::new(150)), u(Uint256::new(10)));
    assert_eq!(back(r), Uint256::new(6));
}

#[test]
fn claim_amount_proportional() {
    // 20 of 100 shares with 150 held returns 30 tokens.
    let r = amount_to_claim(u(Uint256::new(100)), u(Uint256::new(150)), u(Uint256::new(20)));
    assert_eq!(back(r), Uint256::new(30));
    // rounds down: 1 * 150 / 100 = 1.5
    let r = amount_to_claim(u(Uint256::new(100)), u(Uint256::new(150)), u(Uint256::new(1)));
    assert_eq!(back(r), Uint256::new(1));
}

#[test]
fn stake_when_nothing_staked_returns_sent() {
    let r = amount_to_stake(u(Uint256::zero()), u(Uint256::new(500)), u(Uint256::new(7)));
    assert_eq!(back(r), Uint256::new(7));
}

#[test]
fn checked_amounts_refuse_what_does_not_fit() {
    // 1 staked, 1 held, MAX sent: MAX shares fit; 2 staked, 1 held: twice MAX does not.
    let max = Uint256::MAX;
    let one = Uint256::one();
    assert_eq!(back(checked_amount_to_stake(u(one), u(one), u(max)).unwrap()), max);
    assert!(checked_amount_to_stake(u(Uint256::new(2)), u(one), u(max)).is_none());
    assert_eq!(back(checked_amount_to_stake(u(Uint256::zero()), u(one), u(Uint256::new(5))).unwrap()), Uint256::new(5));
    assert_eq!(back(checked_amount_to_stake(u(Uint256::new(10)), u(Uint256::new(20)), u(Uint256::new(5))).unwrap()), Uint256::new(2));
    assert!(checked_amount_to_claim(u(Uint256::zero()), u(one), u(one)).is_none());
    assert!(checked_amount_to_claim(u(one), u(max), u(Uint256::new(2))).is_none());
    assert_eq!(back(checked_amount_to_claim(u(Uint256::new(10)), u(Uint256::new(20)), u(Uint256::new(5))).unwrap()), Uint256::new(10));
}
