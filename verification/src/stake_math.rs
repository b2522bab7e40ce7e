//! Share arithmetic of the cw20 staking contract: how many shares a deposit buys and how
//! many tokens a claim of shares returns, with 512-bit intermediates.
use crate::uint::{
    lemma_u256_bound, two_pow_256, u256_full_mul, u256_is_zero, u512_div, u512_from_u256, u512_to_u256, U256,
};
use vstd::prelude::*;

verus! {

/// Shares minted for `sent` tokens: `sent` itself when nothing is staked yet or the
/// contract holds no tokens, else `staked_total * sent / balance`, rounded down.
pub open spec fn stake_amount(staked_total: nat, balance: nat, sent: nat) -> nat {
    if staked_total == 0 || balance == 0 {
        sent
    } else {
        staked_total * sent / balance
    }
}

/// Tokens returned for `ask` shares: `ask * balance / staked_total`, rounded down.
pub open spec fn claim_amount(staked_total: nat, balance: nat, ask: nat) -> nat {
    ask * balance / staked_total
}

/// Computes the amount to add to an address' staked balance when
/// staking.
///
/// * `staked_total` - The number of tokens that have been staked.
/// * `balance` - The number of tokens the contract has (staked_total + rewards).
/// * `sent` - The number of tokens the user has sent to be staked.
///
/// The result must fit in 256 bits, which holds whenever `staked_total <= balance`.
pub fn amount_to_stake(staked_total: U256, balance: U256, sent: U256) -> (r: U256)
    requires
        stake_amount(staked_total.value(), balance.value(), sent.value()) < two_pow_256(),
    ensures
        r.value() == stake_amount(staked_total.value(), balance.value(), sent.value()),
{
    if u256_is_zero(&staked_total) || u256_is_zero(&balance) {
        sent
    } else {
        let product = u256_full_mul(&staked_total, &sent);
        let divisor = u512_from_u256(&balance);
        u512_to_u256(u512_div(product, divisor)).unwrap()
    }
}

/// `amount_to_stake`, or `None` where the shares would not fit in 256 bits (where
/// `amount_to_stake` is not defined).
pub fn checked_amount_to_stake(staked_total: U256, balance: U256, sent: U256) -> (r: Option<U256>)
    ensures
        stake_amount(staked_total.value(), balance.value(), sent.value()) < two_pow_256() ==> (r matches Some(
            v,
        ) && v.value() == stake_amount(staked_total.value(), balance.value(), sent.value())),
        stake_amount(staked_total.value(), balance.value(), sent.value()) >= two_pow_256() ==> r is None,
{
    if u256_is_zero(&staked_total) || u256_is_zero(&balance) {
        proof {
            lemma_u256_bound(sent);
        }
        Some(sent)
    } else {
        let product = u256_full_mul(&staked_total, &sent);
        let divisor = u512_from_u256(&balance);
        match u512_to_u256(u512_div(product, divisor)) {
            Ok(v) => Some(v),
            Err(_) => None,
        }
    }
}

/// Computes the number of tokens to return to an address when
/// claiming.
///
/// * `staked_total` - The number of tokens that have been staked.
/// * `balance` - The number of tokens the contract has (staked_total + rewards).
/// * `ask` - The number of tokens being claimed.
///
/// The caller must ensure `staked_total != 0` and that the result fits in 256 bits
/// (it does whenever `ask <= staked_total`).
pub fn amount_to_claim(staked_total: U256, balance: U256, ask: U256) -> (r: U256)
    requires
        staked_total.value() != 0,
        claim_amount(staked_total.value(), balance.value(), ask.value()) < two_pow_256(),
    ensures
        r.value() == claim_amount(staked_total.value(), balance.value(), ask.value()),
{
    let product = u256_full_mul(&ask, &balance);
    let divisor = u512_from_u256(&staked_total);
    u512_to_u256(u512_div(product, divisor)).unwrap()
}

/// `amount_to_claim`, or `None` where nothing is staked or the tokens would not fit in
/// 256 bits (where `amount_to_claim` is not defined).
pub fn checked_amount_to_claim(staked_total: U256, balance: U256, ask: U256) -> (r: Option<U256>)
    ensures
        staked_total.value() == 0 ==> r is None,
        staked_total.value() != 0 && claim_amount(staked_total.value(), balance.value(), ask.value())
            < two_pow_256() ==> (r matches Some(v) && v.value() == claim_amount(
            staked_total.value(),
            balance.value(),
            ask.value(),
        )),
        staked_total.value() != 0 && claim_amount(staked_total.value(), balance.value(), ask.value())
            >= two_pow_256() ==> r is None,
{
    if u256_is_zero(&staked_total) {
        return None;
    }
    let product = u256_full_mul(&ask, &balance);
    let divisor = u512_from_u256(&staked_total);
    match u512_to_u256(u512_div(product, divisor)) {
        Ok(v) => Some(v),
        Err(_) => None,
    }
}

/// Staking never mints more shares than tokens sent when the contract holds at least
/// as many tokens as have been staked.
pub proof fn lemma_stake_not_above_sent(staked_total: nat, balance: nat, sent: nat)
    requires
        staked_total <= balance,
    ensures
        stake_amount(staked_total, balance, sent) <= sent,
{
    if staked_total != 0 && balance != 0 {
        assert(staked_total * sent <= balance * sent) by (nonlinear_arith)
            requires
                staked_total <= balance,
        ;
        assert(staked_total * sent / balance <= balance * sent / balance) by (nonlinear_arith)
            requires
                staked_total * sent <= balance * sent,
                balance > 0,
        ;
        assert(balance * sent / balance == sent) by (nonlinear_arith)
            requires
                balance > 0,
        ;
    }
}

/// Claiming never returns more tokens than the contract holds when at most the staked
/// shares are claimed.
pub proof fn lemma_claim_not_above_balance(staked_total: nat, balance: nat, ask: nat)
    requires
        staked_total != 0,
        ask <= staked_total,
    ensures
        claim_amount(staked_total, balance, ask) <= balance,
{
    assert(ask * balance <= staked_total * balance) by (nonlinear_arith)
        requires
            ask <= staked_total,
    ;
    assert(ask * balance / staked_total <= staked_total * balance / staked_total) by (nonlinear_arith)
        requires
            ask * balance <= staked_total * balance,
            staked_total > 0,
    ;
    assert(staked_total * balance / staked_total == balance) by (nonlinear_arith)
        requires
            staked_total > 0,
    ;
}

} // verus!
