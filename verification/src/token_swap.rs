//! Token swap escrow between two counterparties: each provides the funds it promised;
//! when both have, each receives the other's. Until then a party may withdraw.
use vstd::prelude::*;

pub use crate::uint::Coin;
use crate::uint::{u256_gt, u256_is_zero, U256};

verus! {

/// Information about the token being used on one side of the escrow.
#[derive(Debug)]
pub enum TokenInfo {
    /// A native token.
    Native { denom: String, amount: U256 },
    /// A cw20 token.
    Cw20 { contract_addr: String, amount: U256 },
}

/// A counterparty of the escrow and the funds it promised.
#[derive(Debug)]
pub struct Counterparty {
    pub address: String,
    pub promise: TokenInfo,
}

#[derive(Debug)]
pub struct InstantiateMsg {
    pub counterparty_one: Counterparty,
    pub counterparty_two: Counterparty,
}

#[derive(Debug)]
pub struct MigrateMsg {}

/// A promise whose addresses were validated.
#[derive(Debug)]
pub enum CheckedTokenInfo {
    Native { denom: String, amount: U256 },
    Cw20 { contract_addr: String, amount: U256 },
}

#[derive(Debug)]
pub struct CheckedCounterparty {
    pub address: String,
    pub promise: CheckedTokenInfo,
    /// Whether the promised funds are held by the escrow.
    pub provided: bool,
}

#[derive(Debug)]
pub struct StatusResponse {
    pub counterparty_one: CheckedCounterparty,
    pub counterparty_two: CheckedCounterparty,
}

#[derive(Debug)]
pub enum ContractError {
    Std { msg: String },
    Unauthorized {},
    NonDistinctCounterparties {},
    AlreadyProvided {},
    Complete {},
    NoProvision {},
    ZeroTokens {},
    InvalidFunds {},
    InvalidAmount { expected: U256, actual: U256 },
}

/// Tokens the escrow sends: `promise` to `to`.
#[derive(Debug)]
pub struct Payout {
    pub to: String,
    pub promise: CheckedTokenInfo,
}

pub open spec fn amount_of(t: CheckedTokenInfo) -> nat {
    match t {
        CheckedTokenInfo::Native { amount, .. } => amount.value(),
        CheckedTokenInfo::Cw20 { amount, .. } => amount.value(),
    }
}

pub open spec fn checked_of(t: TokenInfo) -> CheckedTokenInfo {
    match t {
        TokenInfo::Native { denom, amount } => CheckedTokenInfo::Native { denom, amount },
        TokenInfo::Cw20 { contract_addr, amount } => CheckedTokenInfo::Cw20 { contract_addr, amount },
    }
}

/// The amount paid with `funds` in `denom`: exactly one coin, of that denom, not zero.
pub open spec fn paid_in(funds: Seq<Coin>, denom: Seq<char>) -> Option<U256> {
    if funds.len() == 1 && funds[0].amount.value() != 0 && funds[0].denom@ == denom {
        Some(funds[0].amount)
    } else {
        None
    }
}

fn must_pay(funds: &Vec<Coin>, denom: &String) -> (r: Option<U256>)
    ensures
        r == paid_in(funds@, denom@),
{
    if funds.len() != 1 {
        return None;
    }
    let c = &funds[0];
    if u256_is_zero(&c.amount) || c.denom != *denom {
        return None;
    }
    Some(c.amount)
}

fn same_amount(a: &U256, b: &U256) -> (r: bool)
    ensures
        r == (a.value() == b.value()),
{
    !u256_gt(a, b) && !u256_gt(b, a)
}

fn clone_promise(t: &CheckedTokenInfo) -> (r: CheckedTokenInfo)
    ensures
        r == *t,
{
    match t {
        CheckedTokenInfo::Native { denom, amount } => CheckedTokenInfo::Native {
            denom: denom.clone(),
            amount: *amount,
        },
        CheckedTokenInfo::Cw20 { contract_addr, amount } => CheckedTokenInfo::Cw20 {
            contract_addr: contract_addr.clone(),
            amount: *amount,
        },
    }
}

fn check_promise(t: TokenInfo) -> (r: Result<CheckedTokenInfo, ContractError>)
    ensures
        amount_of(checked_of(t)) == 0 ==> r == Err::<CheckedTokenInfo, ContractError>(
            ContractError::ZeroTokens {},
        ),
        amount_of(checked_of(t)) != 0 ==> r == Ok::<CheckedTokenInfo, ContractError>(checked_of(t)),
{
    match t {
        TokenInfo::Native { denom, amount } => if u256_is_zero(&amount) {
            Err(ContractError::ZeroTokens {})
        } else {
            Ok(CheckedTokenInfo::Native { denom, amount })
        },
        TokenInfo::Cw20 { contract_addr, amount } => if u256_is_zero(&amount) {
            Err(ContractError::ZeroTokens {})
        } else {
            Ok(CheckedTokenInfo::Cw20 { contract_addr, amount })
        },
    }
}

/// The escrow's state.
#[derive(Debug)]
pub struct Escrow {
    pub one: CheckedCounterparty,
    pub two: CheckedCounterparty,
}

/// Which side of the escrow a sender is.
pub open spec fn side_of(e: Escrow, sender: Seq<char>) -> Option<bool> {
    if sender == e.one.address@ {
        Some(true)
    } else if sender == e.two.address@ {
        Some(false)
    } else {
        None
    }
}

/// The escrow after side `one` (or the other) is changed to `c`.
pub open spec fn with_side(e: Escrow, one: bool, c: CheckedCounterparty) -> Escrow {
    if one {
        Escrow { one: c, two: e.two }
    } else {
        Escrow { one: e.one, two: c }
    }
}

pub open spec fn side(e: Escrow, one: bool) -> CheckedCounterparty {
    if one {
        e.one
    } else {
        e.two
    }
}

/// The counterparty with its `provided` flag set to `p`.
pub open spec fn flagged(c: CheckedCounterparty, p: bool) -> CheckedCounterparty {
    CheckedCounterparty { address: c.address, promise: c.promise, provided: p }
}

impl Escrow {
    /// Sets up the escrow; promises of zero tokens and a counterparty on both sides are
    /// refused.
    pub fn instantiate(msg: InstantiateMsg) -> (r: Result<Escrow, ContractError>)
        ensures
            amount_of(checked_of(msg.counterparty_one.promise)) == 0 ==> r == Err::<
                Escrow,
                ContractError,
            >(ContractError::ZeroTokens {}),
            amount_of(checked_of(msg.counterparty_one.promise)) != 0 && amount_of(
                checked_of(msg.counterparty_two.promise),
            ) == 0 ==> r == Err::<Escrow, ContractError>(ContractError::ZeroTokens {}),
            amount_of(checked_of(msg.counterparty_one.promise)) != 0 && amount_of(
                checked_of(msg.counterparty_two.promise),
            ) != 0 && msg.counterparty_one.address@ == msg.counterparty_two.address@ ==> r == Err::<
                Escrow,
                ContractError,
            >(ContractError::NonDistinctCounterparties {}),
            amount_of(checked_of(msg.counterparty_one.promise)) != 0 && amount_of(
                checked_of(msg.counterparty_two.promise),
            ) != 0 && msg.counterparty_one.address@ != msg.counterparty_two.address@ ==> r == Ok::<
                Escrow,
                ContractError,
            >(
                Escrow {
                    one: CheckedCounterparty {
                        address: msg.counterparty_one.address,
                        promise: checked_of(msg.counterparty_one.promise),
                        provided: false,
                    },
                    two: CheckedCounterparty {
                        address: msg.counterparty_two.address,
                        promise: checked_of(msg.counterparty_two.promise),
                        provided: false,
                    },
                },
            ),
    {
        let InstantiateMsg { counterparty_one, counterparty_two } = msg;
        let Counterparty { address: a1, promise: p1 } = counterparty_one;
        let Counterparty { address: a2, promise: p2 } = counterparty_two;
        let p1 = check_promise(p1)?;
        let p2 = check_promise(p2)?;
        if a1 == a2 {
            return Err(ContractError::NonDistinctCounterparties {});
        }
        Ok(
            Escrow {
                one: CheckedCounterparty { address: a1, promise: p1, provided: false },
                two: CheckedCounterparty { address: a2, promise: p2, provided: false },
            },
        )
    }

    /// Why funds paid by `sender` are refused, if they are: the sender must be a
    /// counterparty that has not provided yet, and the amount must be what it promised.
    pub open spec fn fund_error(self, one: bool, paid: U256) -> Option<ContractError> {
        if side(self, one).provided {
            Some(ContractError::AlreadyProvided {})
        } else if paid.value() != amount_of(side(self, one).promise) {
            Some(
                ContractError::InvalidAmount {
                    expected: match side(self, one).promise {
                        CheckedTokenInfo::Native { amount, .. } => amount,
                        CheckedTokenInfo::Cw20 { amount, .. } => amount,
                    },
                    actual: paid,
                },
            )
        } else {
            None
        }
    }

    /// Records the funds of side `one` (or the other), paid `paid`; when both sides
    /// have provided, each promise goes to the other side.
    fn do_fund(&mut self, one: bool, paid: U256) -> (r: Result<Vec<Payout>, ContractError>)
        ensures
            old(self).fund_error(one, paid) matches Some(e) ==> r == Err::<Vec<Payout>, ContractError>(
                e,
            ) && *final(self) == *old(self),
            old(self).fund_error(one, paid) is None ==> (r matches Ok(p) && *final(self) == with_side(
                *old(self),
                one,
                flagged(side(*old(self), one), true),
            ) && (if side(*old(self), !one).provided {
                p@.len() == 2 && p@[0].to == side(*old(self), !one).address && p@[0].promise
                    == side(*old(self), one).promise && p@[1].to == side(*old(self), one).address
                    && p@[1].promise == side(*old(self), !one).promise
            } else {
                p@.len() == 0
            })),
    {
        let (mine, other) = if one {
            (&self.one, &self.two)
        } else {
            (&self.two, &self.one)
        };
        if mine.provided {
            return Err(ContractError::AlreadyProvided {});
        }
        let expected = match &mine.promise {
            CheckedTokenInfo::Native { amount, .. } => *amount,
            CheckedTokenInfo::Cw20 { amount, .. } => *amount,
        };
        if !same_amount(&paid, &expected) {
            return Err(ContractError::InvalidAmount { expected, actual: paid });
        }
        let mut payouts: Vec<Payout> = Vec::new();
        if other.provided {
            payouts.push(Payout { to: other.address.clone(), promise: clone_promise(&mine.promise) });
            payouts.push(Payout { to: mine.address.clone(), promise: clone_promise(&other.promise) });
        }
        if one {
            self.one.provided = true;
        } else {
            self.two.provided = true;
        }
        Ok(payouts)
    }

    /// Native funds sent by `sender` toward its promise.
    pub fn execute_fund(&mut self, sender: String, funds: Vec<Coin>) -> (r: Result<Vec<Payout>, ContractError>)
        ensures
            side_of(*old(self), sender@) is None ==> r == Err::<Vec<Payout>, ContractError>(
                ContractError::Unauthorized {},
            ) && *final(self) == *old(self),
            side_of(*old(self), sender@) matches Some(one) ==> match side(*old(self), one).promise {
                CheckedTokenInfo::Cw20 { .. } => r == Err::<Vec<Payout>, ContractError>(
                    ContractError::InvalidFunds {},
                ) && *final(self) == *old(self),
                CheckedTokenInfo::Native { denom, .. } => match paid_in(funds@, denom@) {
                    None => r == Err::<Vec<Payout>, ContractError>(ContractError::InvalidFunds {})
                        && *final(self) == *old(self),
                    Some(paid) => match old(self).fund_error(one, paid) {
                        Some(e) => r == Err::<Vec<Payout>, ContractError>(e) && *final(self)
                            == *old(self),
                        None => r matches Ok(p) && *final(self) == with_side(
                            *old(self),
                            one,
                            flagged(side(*old(self), one), true),
                        ) && (if side(*old(self), !one).provided {
                            p@.len() == 2 && p@[0].to == side(*old(self), !one).address
                                && p@[0].promise == side(*old(self), one).promise && p@[1].to
                                == side(*old(self), one).address && p@[1].promise == side(
                                *old(self),
                                !one,
                            ).promise
                        } else {
                            p@.len() == 0
                        }),
                    },
                },
            },
    {
        let one = if sender == self.one.address {
            true
        } else if sender == self.two.address {
            false
        } else {
            return Err(ContractError::Unauthorized {});
        };
        let denom = match if one {
            &self.one.promise
        } else {
            &self.two.promise
        } {
            CheckedTokenInfo::Native { denom, .. } => denom,
            CheckedTokenInfo::Cw20 { .. } => {
                return Err(ContractError::InvalidFunds {});
            },
        };
        let paid = match must_pay(&funds, denom) {
            Some(p) => p,
            None => {
                return Err(ContractError::InvalidFunds {});
            },
        };
        self.do_fund(one, paid)
    }

    /// cw20 tokens of contract `token` sent by `sender` toward its promise.
    pub fn execute_receive(&mut self, token: String, sender: String, amount: U256) -> (r: Result<Vec<Payout>, ContractError>)
        ensures
            side_of(*old(self), sender@) is None ==> r == Err::<Vec<Payout>, ContractError>(
                ContractError::Unauthorized {},
            ) && *final(self) == *old(self),
            side_of(*old(self), sender@) matches Some(one) ==> match side(*old(self), one).promise {
                CheckedTokenInfo::Native { .. } => r == Err::<Vec<Payout>, ContractError>(
                    ContractError::InvalidFunds {},
                ) && *final(self) == *old(self),
                CheckedTokenInfo::Cw20 { contract_addr, .. } => if contract_addr@ != token@ {
                    r == Err::<Vec<Payout>, ContractError>(ContractError::InvalidFunds {})
                        && *final(self) == *old(self)
                } else {
                    match old(self).fund_error(one, amount) {
                        Some(e) => r == Err::<Vec<Payout>, ContractError>(e) && *final(self)
                            == *old(self),
                        None => r matches Ok(p) && *final(self) == with_side(
                            *old(self),
                            one,
                            flagged(side(*old(self), one), true),
                        ) && (if side(*old(self), !one).provided {
                            p@.len() == 2 && p@[0].to == side(*old(self), !one).address
                                && p@[0].promise == side(*old(self), one).promise && p@[1].to
                                == side(*old(self), one).address && p@[1].promise == side(
                                *old(self),
                                !one,
                            ).promise
                        } else {
                            p@.len() == 0
                        }),
                    }
                },
            },
    {
        let one = if sender == self.one.address {
            true
        } else if sender == self.two.address {
            false
        } else {
            return Err(ContractError::Unauthorized {});
        };
        let ok = match if one {
            &self.one.promise
        } else {
            &self.two.promise
        } {
            CheckedTokenInfo::Native { .. } => false,
            CheckedTokenInfo::Cw20 { contract_addr, .. } => *contract_addr == token,
        };
        if !ok {
            return Err(ContractError::InvalidFunds {});
        }
        self.do_fund(one, amount)
    }

    /// A counterparty takes back what it provided, while the other has not provided.
    pub fn execute_withdraw(&mut self, sender: String) -> (r: Result<Payout, ContractError>)
        ensures
            side_of(*old(self), sender@) is None ==> r == Err::<Payout, ContractError>(
                ContractError::Unauthorized {},
            ) && *final(self) == *old(self),
            side_of(*old(self), sender@) matches Some(one) ==> (if !side(*old(self), one).provided {
                r == Err::<Payout, ContractError>(ContractError::NoProvision {}) && *final(self)
                    == *old(self)
            } else if side(*old(self), !one).provided {
                r == Err::<Payout, ContractError>(ContractError::Complete {}) && *final(self)
                    == *old(self)
            } else {
                r matches Ok(p) && p.to == side(*old(self), one).address && p.promise == side(
                    *old(self),
                    one,
                ).promise && *final(self) == with_side(
                    *old(self),
                    one,
                    flagged(side(*old(self), one), false),
                )
            }),
    {
        let one = if sender == self.one.address {
            true
        } else if sender == self.two.address {
            false
        } else {
            return Err(ContractError::Unauthorized {});
        };
        let (mine, other) = if one {
            (&self.one, &self.two)
        } else {
            (&self.two, &self.one)
        };
        if !mine.provided {
            return Err(ContractError::NoProvision {});
        }
        if other.provided {
            return Err(ContractError::Complete {});
        }
        let payout = Payout { to: mine.address.clone(), promise: clone_promise(&mine.promise) };
        if one {
            self.one.provided = false;
        } else {
            self.two.provided = false;
        }
        Ok(payout)
    }

    /// The current status of the escrow.
    pub fn query_status(&self) -> (r: StatusResponse)
        ensures
            r.counterparty_one == self.one,
            r.counterparty_two == self.two,
    {
        StatusResponse {
            counterparty_one: CheckedCounterparty {
                address: self.one.address.clone(),
                promise: clone_promise(&self.one.promise),
                provided: self.one.provided,
            },
            counterparty_two: CheckedCounterparty {
                address: self.two.address.clone(),
                promise: clone_promise(&self.two.promise),
                provided: self.two.provided,
            },
        }
    }
}

// ═══════════════════════════ Laws ═══════════════════════════

/// Once both sides have provided, the swap is done: neither side can fund again.
pub proof fn law_complete_is_final(e: Escrow, paid: U256)
    requires
        e.one.provided,
        e.two.provided,
    ensures
        e.fund_error(true, paid) == Some(ContractError::AlreadyProvided {}),
        e.fund_error(false, paid) == Some(ContractError::AlreadyProvided {}),
{
}

/// Withdrawing right after funding gives back the escrow as it was.
pub proof fn law_withdraw_undoes_fund(e: Escrow, one: bool)
    requires
        !side(e, one).provided,
    ensures
        ({
            let funded = with_side(e, one, flagged(side(e, one), true));
            with_side(funded, one, flagged(side(funded, one), false)) == e
        }),
{
}

} // verus!
