//! Fixed-width unsigned integers and decimals of cosmwasm, held as big-endian bytes.
use cosmwasm_std::{ConversionOverflowError, Decimal256, Uint256, Uint512};
use vstd::prelude::*;

verus! {

/// 2^256, one past the largest 256-bit value.
pub open spec fn two_pow_256() -> nat {
    115792089237316195423570985008687907853269984665640564039457584007913129639936nat
}

/// The number a big-endian byte string denotes.
pub open spec fn be_value(s: Seq<u8>) -> nat
    decreases s.len(),
{
    if s.len() == 0 {
        0
    } else {
        be_value(s.drop_last()) * 256 + s.last() as nat
    }
}

/// An unsigned 256-bit integer, held as 32 big-endian bytes.
#[derive(Clone, Copy, Debug, PartialEq, Eq)]
pub struct U256 {
    pub be: [u8; 32],
}

/// An amount of a native token.
#[derive(Debug)]
pub struct Coin {
    pub denom: String,
    pub amount: U256,
}

/// An unsigned 512-bit integer, held as 64 big-endian bytes.
#[derive(Clone, Copy, Debug, PartialEq, Eq)]
pub struct U512 {
    pub be: [u8; 64],
}

impl U256 {
    pub open spec fn value(self) -> nat {
        be_value(self.be@)
    }
}

impl U512 {
    pub open spec fn value(self) -> nat {
        be_value(self.be@)
    }
}

/// `cosmwasm_std::Uint256::is_zero`: whether the number is zero.
#[verifier::external_body]
pub(crate) fn u256_is_zero(x: &U256) -> (b: bool)
    ensures
        b == (x.value() == 0),
{
    Uint256::from_be_bytes(x.be).is_zero()
}

/// `cosmwasm_std::Uint256::full_mul`: the exact 512-bit product of two 256-bit numbers.
#[verifier::external_body]
pub(crate) fn u256_full_mul(a: &U256, b: &U256) -> (c: U512)
    ensures
        c.value() == a.value() * b.value(),
{
    U512 { be: Uint256::from_be_bytes(a.be).full_mul(Uint256::from_be_bytes(b.be)).to_be_bytes() }
}

/// `From<Uint256> for Uint512`: widens a 256-bit number to 512 bits.
#[verifier::external_body]
pub(crate) fn u512_from_u256(x: &U256) -> (y: U512)
    ensures
        y.value() == x.value(),
{
    U512 { be: Uint512::from(Uint256::from_be_bytes(x.be)).to_be_bytes() }
}

/// `Div for Uint512`: floor division, which panics on a zero divisor.
#[verifier::external_body]
pub(crate) fn u512_div(a: U512, b: U512) -> (q: U512)
    requires
        b.value() != 0,
    ensures
        q.value() == a.value() / b.value(),
{
    U512 { be: (Uint512::from_be_bytes(a.be) / Uint512::from_be_bytes(b.be)).to_be_bytes() }
}

/// The error of a narrowing conversion that does not fit.
#[verifier::external_type_specification]
#[verifier::external_body]
pub struct ExConversionOverflowError(ConversionOverflowError);

/// `TryFrom<Uint512> for Uint256`: narrows a 512-bit number when it fits in 256 bits, and
/// fails on any larger number.
#[verifier::external_body]
pub(crate) fn u512_to_u256(x: U512) -> (y: Result<U256, ConversionOverflowError>)
    ensures
        match y {
            Ok(v) => x.value() < two_pow_256() && v.value() == x.value(),
            Err(_) => x.value() >= two_pow_256(),
        },
{
    match Uint256::try_from(Uint512::from_be_bytes(x.be)) {
        Ok(v) => Ok(U256 { be: v.to_be_bytes() }),
        Err(e) => Err(e),
    }
}

/// `PartialOrd for Uint256`: whether `a` is greater than `b`.
#[verifier::external_body]
pub(crate) fn u256_gt(a: &U256, b: &U256) -> (r: bool)
    ensures
        r == (a.value() > b.value()),
{
    Uint256::from_be_bytes(a.be) > Uint256::from_be_bytes(b.be)
}

/// A fixed-point decimal with 18 fractional digits: the number `atomics / 10^18`.
#[derive(Clone, Copy, Debug, PartialEq, Eq)]
pub struct Decimal {
    pub atomics: U256,
}

/// `cosmwasm_std::Decimal256::percent`: the decimal `x / 100`, whose atomics are
/// `x * 10^16`.
#[verifier::external_body]
pub(crate) fn decimal_percent(x: u64) -> (d: Decimal)
    ensures
        d.atomics.value() == x * 10_000_000_000_000_000,
{
    Decimal { atomics: U256 { be: Decimal256::percent(x).atomics().to_be_bytes() } }
}


proof fn lemma_be_value_zero(s: Seq<u8>)
    requires
        forall|i: int| 0 <= i < s.len() ==> s[i] == 0,
    ensures
        be_value(s) == 0,
    decreases s.len(),
{
    if s.len() > 0 {
        lemma_be_value_zero(s.drop_last());
    }
}

/// The number zero.
pub fn u256_zero() -> (z: U256)
    ensures
        z.value() == 0,
{
    let z = U256 { be: [0u8; 32] };
    proof {
        lemma_be_value_zero(z.be@);
    }
    z
}
/// 256 to the power `n`.
pub open spec fn pow256(n: nat) -> nat
    decreases n,
{
    if n == 0 {
        1
    } else {
        pow256((n - 1) as nat) * 256
    }
}

proof fn lemma_be_value_bound(s: Seq<u8>)
    ensures
        be_value(s) < pow256(s.len()),
    decreases s.len(),
{
    if s.len() > 0 {
        lemma_be_value_bound(s.drop_last());
        let p = pow256(s.drop_last().len());
        let v = be_value(s.drop_last());
        assert(v * 256 + s.last() < p * 256) by (nonlinear_arith)
            requires
                v < p,
                s.last() < 256,
        ;
    }
}

/// Every 256-bit number is below 2^256.
pub proof fn lemma_u256_bound(x: U256)
    ensures
        x.value() < two_pow_256(),
{
    lemma_be_value_bound(x.be@);
    reveal_with_fuel(pow256, 33);
    assert(pow256(32) == two_pow_256());
}

} // verus!
