//! Protobuf messages of the gauge adapter: a winning submission is read, its amounts
//! are scaled by the gauge's fraction, and the message is written for the chain.
use anybuf::{Anybuf, Bufany};
use cosmwasm_std::Uint256;
use vstd::prelude::*;

use crate::text::decimal;
use crate::uint::{two_pow_256, Coin, U256};

verus! {

/// The protobuf encoder of the `anybuf` crate.
#[verifier::external_type_specification]
#[verifier::external_body]
pub struct ExAnybuf(Anybuf);

// ═══════════════════════════ Wire format ═══════════════════════════

/// Unsigned varint: seven bits per byte, least significant first, the top bit set on
/// every byte but the last.
pub open spec fn varint(n: nat) -> Seq<u8>
    decreases n,
{
    if n < 128 {
        seq![n as u8]
    } else {
        seq![(n % 128 + 128) as u8] + varint(n / 128)
    }
}

/// One length-delimited record: tag (field number, wire type 2), length, data.
pub open spec fn len_record(field: u32, data: Seq<u8>) -> Seq<u8> {
    varint((field * 8 + 2) as nat) + varint(data.len()) + data
}

/// A bytes or string field: nothing when empty, else one record.
pub open spec fn bytes_field(field: u32, data: Seq<u8>) -> Seq<u8> {
    if data.len() == 0 {
        seq![]
    } else {
        len_record(field, data)
    }
}

/// A repeated bytes field: one record per item, empty items included.
pub open spec fn repeated_field(field: u32, items: Seq<Seq<u8>>) -> Seq<u8>
    decreases items.len(),
{
    if items.len() == 0 {
        seq![]
    } else {
        repeated_field(field, items.drop_last()) + len_record(field, items.last())
    }
}

pub open spec fn byte_views(v: Seq<Vec<u8>>) -> Seq<Seq<u8>> {
    v.map_values(|b: Vec<u8>| b@)
}

/// The UTF-8 bytes of a text.
pub open spec fn utf8(s: Seq<char>) -> Seq<u8> {
    vstd::utf8::encode_utf8(s)
}

// ═══════════════════════════ The encoder ═══════════════════════════

/// The bytes written so far by an encoder.
pub uninterp spec fn anybuf_bytes(b: Anybuf) -> Seq<u8>;

/// `Anybuf::new`: an encoder that has written nothing.
#[verifier::external_body]
pub(crate) fn anybuf_new() -> (r: Anybuf)
    ensures
        anybuf_bytes(r) == Seq::<u8>::empty(),
{
    Anybuf::new()
}

/// `Anybuf::append_string`: writes a string field (nothing for an empty string).
#[verifier::external_body]
fn anybuf_append_string(b: Anybuf, field: u32, s: String) -> (r: Anybuf)
    requires
        1 <= field <= 536_870_911,
    ensures
        anybuf_bytes(r) == anybuf_bytes(b) + bytes_field(field, utf8(s@)),
{
    b.append_string(field, s)
}

/// `Anybuf::append_repeated_bytes`: writes one record per item.
#[verifier::external_body]
fn anybuf_append_repeated_bytes(b: Anybuf, field: u32, data: &Vec<Vec<u8>>) -> (r: Anybuf)
    requires
        1 <= field <= 536_870_911,
    ensures
        anybuf_bytes(r) == anybuf_bytes(b) + repeated_field(field, byte_views(data@)),
{
    b.append_repeated_bytes(field, data)
}

/// `Anybuf::into_vec`: the bytes written.
#[verifier::external_body]
fn anybuf_into_vec(b: Anybuf) -> (r: Vec<u8>)
    ensures
        r@ == anybuf_bytes(b),
{
    b.into_vec()
}

// ═══════════════════════════ The decoder ═══════════════════════════

/// The string in field `field` of a protobuf message (the last record of the field,
/// empty when absent), if the message decodes and the field holds UTF-8 bytes.
pub uninterp spec fn bufany_string(msg: Seq<u8>, field: u32) -> Option<Seq<char>>;

/// The items of repeated bytes field `field` of a protobuf message, if the message
/// decodes and every record of the field is length-delimited.
pub uninterp spec fn bufany_repeated_bytes(msg: Seq<u8>, field: u32) -> Option<Seq<Seq<u8>>>;

/// `Bufany::deserialize`, then `Bufany::string` on its result.
#[verifier::external_body]
fn bufany_read_string(msg: &Vec<u8>, field: u32) -> (r: Option<String>)
    ensures
        match r {
            Some(s) => bufany_string(msg@, field) == Some(s@),
            None => bufany_string(msg@, field) is None,
        },
{
    match Bufany::deserialize(msg) {
        Ok(d) => d.string(field),
        Err(_) => None,
    }
}

/// `Bufany::deserialize`, then `Bufany::repeated_bytes` on its result.
#[verifier::external_body]
fn bufany_read_repeated_bytes(msg: &Vec<u8>, field: u32) -> (r: Option<Vec<Vec<u8>>>)
    ensures
        match r {
            Some(v) => bufany_repeated_bytes(msg@, field) == Some(byte_views(v@)),
            None => bufany_repeated_bytes(msg@, field) is None,
        },
{
    match Bufany::deserialize(msg) {
        Ok(d) => d.repeated_bytes(field),
        Err(_) => None,
    }
}

// ═══════════════════════════ Authz messages ═══════════════════════════

/// A chain message given by type URL and protobuf bytes.
#[derive(Debug)]
pub struct StargateMsg {
    pub type_url: String,
    pub value: Vec<u8>,
}

#[derive(Debug)]
pub struct ParseAuthzGrantSubmissionResponse {
    pub granter: String,
    pub grantee: String,
}

#[derive(Debug)]
pub struct ParseAuthzExecSubmissionResponse {
    pub grantee: String,
    pub messages: Vec<Vec<u8>>,
}

/// A submitted authz execution can be read: grantee in field 1, messages in field 2.
pub open spec fn exec_readable(msg: Seq<u8>) -> bool {
    bufany_string(msg, 1) is Some && bufany_repeated_bytes(msg, 2) is Some
}

/// A submitted authz grant can be read: granter in field 1, grantee in field 2.
pub open spec fn grant_readable(msg: Seq<u8>) -> bool {
    bufany_string(msg, 1) is Some && bufany_string(msg, 2) is Some
}

/// Reads a submitted authz execution.
pub fn parse_authz_msg_bufany(msg: &Vec<u8>) -> (r: ParseAuthzExecSubmissionResponse)
    requires
        exec_readable(msg@),
    ensures
        Some(r.grantee@) == bufany_string(msg@, 1),
        Some(byte_views(r.messages@)) == bufany_repeated_bytes(msg@, 2),
{
    let grantee = bufany_read_string(msg, 1).unwrap();
    let messages = bufany_read_repeated_bytes(msg, 2).unwrap();
    ParseAuthzExecSubmissionResponse { grantee, messages }
}

/// Reads a submitted authz grant.
pub fn parse_authz_grant_msg_bufany(msg: &Vec<u8>) -> (r: ParseAuthzGrantSubmissionResponse)
    requires
        grant_readable(msg@),
    ensures
        Some(r.granter@) == bufany_string(msg@, 1),
        Some(r.grantee@) == bufany_string(msg@, 2),
{
    let granter = bufany_read_string(msg, 1).unwrap();
    let grantee = bufany_read_string(msg, 2).unwrap();
    ParseAuthzGrantSubmissionResponse { grantee, granter }
}

/// Executes `msgs` as grantee `grantee`: `MsgExec` with the grantee in field 1 and the
/// messages in field 2, after what `anybuf` already holds.
pub fn encode_authz_exec_msg_anybuf(anybuf: Anybuf, grantee: String, msgs: Vec<Vec<u8>>) -> (r: StargateMsg)
    ensures
        r.type_url@ == "/cosmos.authz.v1beta1.MsgExec"@,
        r.value@ == anybuf_bytes(anybuf) + bytes_field(1, utf8(grantee@)) + repeated_field(
            2,
            byte_views(msgs@),
        ),
{
    let b = anybuf_append_string(anybuf, 1, grantee);
    let b = anybuf_append_repeated_bytes(b, 2, &msgs);
    StargateMsg {
        type_url: String::from_str("/cosmos.authz.v1beta1.MsgExec"),
        value: anybuf_into_vec(b),
    }
}

/// Grants from `granter` to `grantee`: `MsgGrant` with the granter in field 1 and the
/// grantee in field 2, after what `anybuf` already holds.
pub fn encode_authz_grant_msg_anybuf(anybuf: Anybuf, granter: String, grantee: String) -> (r: StargateMsg)
    ensures
        r.type_url@ == "/cosmos.authz.v1beta1.MsgGrant"@,
        r.value@ == anybuf_bytes(anybuf) + bytes_field(1, utf8(granter@)) + bytes_field(
            2,
            utf8(grantee@),
        ),
{
    let b = anybuf_append_string(anybuf, 1, granter);
    let b = anybuf_append_string(b, 2, grantee);
    StargateMsg {
        type_url: String::from_str("/cosmos.authz.v1beta1.MsgGrant"),
        value: anybuf_into_vec(b),
    }
}

/// The authz actions a submission may ask for.
#[derive(Clone, Copy, Debug, PartialEq, Eq, Structural)]
pub enum AdapterAuthzMsg {
    MsgExec,
    MsgGrant,
    MsgRevoke,
}

/// The submission `msg` can be read as the action `kind`; revocations are not handled.
pub open spec fn authz_readable(msg: Seq<u8>, kind: AdapterAuthzMsg) -> bool {
    match kind {
        AdapterAuthzMsg::MsgExec => exec_readable(msg),
        AdapterAuthzMsg::MsgGrant => grant_readable(msg),
        AdapterAuthzMsg::MsgRevoke => false,
    }
}

/// The chain message for a winning authz submission, sent by the DAO `dao`: an execution
/// of the submitted messages with the DAO as grantee, or a grant from the DAO to the
/// submitted grantee.
pub fn parse_stargate_wire_authz(anybuf: Anybuf, dao: String, msg: &Vec<u8>, authz_msg: AdapterAuthzMsg) -> (r: StargateMsg)
    requires
        authz_readable(msg@, authz_msg),
    ensures
        authz_msg == AdapterAuthzMsg::MsgExec ==> r.type_url@ == "/cosmos.authz.v1beta1.MsgExec"@
            && r.value@ == anybuf_bytes(anybuf) + bytes_field(1, utf8(dao@)) + repeated_field(
            2,
            bufany_repeated_bytes(msg@, 2)->0,
        ),
        authz_msg == AdapterAuthzMsg::MsgGrant ==> r.type_url@ == "/cosmos.authz.v1beta1.MsgGrant"@
            && r.value@ == anybuf_bytes(anybuf) + bytes_field(1, utf8(dao@)) + bytes_field(
            2,
            utf8(bufany_string(msg@, 2)->0),
        ),
{
    match authz_msg {
        AdapterAuthzMsg::MsgExec => {
            let parsed = parse_authz_msg_bufany(msg);
            encode_authz_exec_msg_anybuf(anybuf, dao, parsed.messages)
        },
        AdapterAuthzMsg::MsgGrant => {
            let parsed = parse_authz_grant_msg_bufany(msg);
            encode_authz_grant_msg_anybuf(anybuf, dao, parsed.grantee)
        },
        AdapterAuthzMsg::MsgRevoke => {
            proof {
                assert(false);
            }
            encode_authz_grant_msg_anybuf(anybuf, dao, String::new())
        },
    }
}

// ═══════════════════════════ More encoder calls ═══════════════════════════

/// `Anybuf::append_bytes`: writes a bytes field (nothing when empty).
#[verifier::external_body]
fn anybuf_append_bytes(b: Anybuf, field: u32, data: Vec<u8>) -> (r: Anybuf)
    requires
        1 <= field <= 536_870_911,
    ensures
        anybuf_bytes(r) == anybuf_bytes(b) + bytes_field(field, data@),
{
    b.append_bytes(field, data)
}

/// `Anybuf::append_message`: writes a nested message as a bytes field (nothing when the
/// nested message is empty).
#[verifier::external_body]
fn anybuf_append_message(b: Anybuf, field: u32, inner: &Anybuf) -> (r: Anybuf)
    requires
        1 <= field <= 536_870_911,
    ensures
        anybuf_bytes(r) == anybuf_bytes(b) + bytes_field(field, anybuf_bytes(*inner)),
{
    b.append_message(field, inner)
}

pub open spec fn message_bytes(v: Seq<Anybuf>) -> Seq<Seq<u8>> {
    v.map_values(|m: Anybuf| anybuf_bytes(m))
}

/// `Anybuf::append_repeated_message`: one record per nested message, empty ones
/// included.
#[verifier::external_body]
fn anybuf_append_repeated_message(b: Anybuf, field: u32, msgs: &Vec<Anybuf>) -> (r: Anybuf)
    requires
        1 <= field <= 536_870_911,
    ensures
        anybuf_bytes(r) == anybuf_bytes(b) + repeated_field(field, message_bytes(msgs@)),
{
    b.append_repeated_message(field, msgs)
}

/// The bytes in field `field` of a protobuf message (the last record, empty when
/// absent), if the message decodes and the record is length-delimited.
pub uninterp spec fn bufany_bytes(msg: Seq<u8>, field: u32) -> Option<Seq<u8>>;

/// `Bufany::deserialize`, then `Bufany::bytes` on its result.
#[verifier::external_body]
fn bufany_read_bytes(msg: &Vec<u8>, field: u32) -> (r: Option<Vec<u8>>)
    ensures
        match r {
            Some(v) => bufany_bytes(msg@, field) == Some(v@),
            None => bufany_bytes(msg@, field) is None,
        },
{
    match Bufany::deserialize(msg) {
        Ok(d) => d.bytes(field),
        Err(_) => None,
    }
}

// ═══════════════════════════ Amounts ═══════════════════════════

/// The gauge's share, a decimal with 18 fractional digits: `atomics / 10^18`.
#[derive(Clone, Copy, Debug)]
pub struct Fraction {
    pub atomics: u128,
}

#[derive(Clone, Copy, Debug, PartialEq, Eq, Structural)]
pub enum ProtoError {
    /// A scaled amount does not fit in 256 bits.
    AmountOverflow,
}

/// `amount` scaled by the fraction, rounded down.
pub open spec fn scaled(amount: nat, f: Fraction) -> nat {
    (amount * (f.atomics as nat)) / 1_000_000_000_000_000_000nat
}

/// `Uint256::checked_mul_floor` with a `Decimal`: the product rounded down, when it fits
/// in 256 bits.
#[verifier::external_body]
fn u256_mul_floor(amount: &U256, f: Fraction) -> (r: Option<U256>)
    ensures
        match r {
            Some(v) => scaled(amount.value(), f) < two_pow_256() && v.value() == scaled(
                amount.value(),
                f,
            ),
            None => scaled(amount.value(), f) >= two_pow_256(),
        },
{
    match Uint256::from_be_bytes(amount.be).checked_mul_floor(
        cosmwasm_std::Decimal::new(cosmwasm_std::Uint128::new(f.atomics)),
    ) {
        Ok(v) => Some(U256 { be: v.to_be_bytes() }),
        Err(_) => None,
    }
}

/// `Display for Uint256`: the decimal notation.
#[verifier::external_body]
fn u256_to_string(x: &U256) -> (s: String)
    ensures
        s@ == decimal(x.value()),
{
    Uint256::from_be_bytes(x.be).to_string()
}

/// `From<u128> for Uint256`.
#[verifier::external_body]
fn u256_from_u128(x: u128) -> (r: U256)
    ensures
        r.value() == x,
{
    U256 { be: Uint256::from(x).to_be_bytes() }
}

/// The digits `0` to `9`.
pub open spec fn all_digits(ds: Seq<char>) -> bool {
    forall|i: int| 0 <= i < ds.len() ==> '0' <= #[trigger] ds[i] <= '9'
}

/// The number written by decimal digits.
pub open spec fn digits_value(ds: Seq<char>) -> nat
    decreases ds.len(),
{
    if ds.len() == 0 {
        0
    } else {
        digits_value(ds.drop_last()) * 10 + (ds.last() as nat - '0' as nat) as nat
    }
}

/// What `u128::from_str_radix(s, 10)` reads: an optional `+`, then at least one digit
/// and nothing else, of a value that fits in 128 bits.
pub open spec fn parsed_u128(s: Seq<char>) -> Option<u128> {
    let ds = if s.len() > 0 && s[0] == '+' {
        s.drop_first()
    } else {
        s
    };
    if ds.len() > 0 && all_digits(ds) && digits_value(ds) <= u128::MAX {
        Some(digits_value(ds) as u128)
    } else {
        None
    }
}

/// `u128::from_str_radix` in base 10.
#[verifier::external_body]
fn parse_u128(s: &String) -> (r: Option<u128>)
    ensures
        r == parsed_u128(s@),
{
    u128::from_str_radix(s, 10).ok()
}

/// The gauge's share of an amount.
pub fn new_amount_gauge_fraction(amnt: U256, fraction: Fraction) -> (r: Result<U256, ProtoError>)
    ensures
        scaled(amnt.value(), fraction) < two_pow_256() ==> (r matches Ok(v) && v.value() == scaled(
            amnt.value(),
            fraction,
        )),
        scaled(amnt.value(), fraction) >= two_pow_256() ==> r == Err::<U256, ProtoError>(
            ProtoError::AmountOverflow,
        ),
{
    match u256_mul_floor(&amnt, fraction) {
        Some(v) => Ok(v),
        None => Err(ProtoError::AmountOverflow),
    }
}

// ═══════════════════════════ Coins ═══════════════════════════

/// A coin as a nested message: denom in field 1, amount as decimal text in field 2.
pub open spec fn coin_record(denom: Seq<char>, amount: nat) -> Seq<u8> {
    bytes_field(1, utf8(denom)) + bytes_field(2, utf8(decimal(amount)))
}

/// Every coin's share fits in 256 bits.
pub open spec fn shares_fit(coins: Seq<Coin>, f: Fraction) -> bool {
    forall|i: int| 0 <= i < coins.len() ==> scaled(#[trigger] coins[i].amount.value(), f) < two_pow_256()
}

/// The coins' records, each amount scaled by the fraction.
pub open spec fn scaled_coin_records(coins: Seq<Coin>, f: Fraction) -> Seq<Seq<u8>> {
    Seq::new(coins.len(), |i: int| coin_record(coins[i].denom@, scaled(coins[i].amount.value(), f)))
}

/// One coin as a nested message, its amount scaled by the fraction.
fn scaled_coin_message(c: &Coin, fraction: Fraction) -> (r: Result<Anybuf, ProtoError>)
    ensures
        scaled(c.amount.value(), fraction) < two_pow_256() ==> (r matches Ok(m) && anybuf_bytes(m)
            == coin_record(c.denom@, scaled(c.amount.value(), fraction))),
        scaled(c.amount.value(), fraction) >= two_pow_256() ==> r == Err::<Anybuf, ProtoError>(
            ProtoError::AmountOverflow,
        ),
{
    let amount = new_amount_gauge_fraction(c.amount, fraction)?;
    let b = anybuf_append_string(anybuf_new(), 1, c.denom.clone());
    let b = anybuf_append_string(b, 2, u256_to_string(&amount));
    assert(anybuf_bytes(b) =~= coin_record(c.denom@, scaled(c.amount.value(), fraction)));
    Ok(b)
}

/// The coins as nested messages, each amount scaled; the first share that overflows
/// fails them all.
fn scaled_coin_messages(coins: &Vec<Coin>, fraction: Fraction) -> (r: Result<Vec<Anybuf>, ProtoError>)
    ensures
        shares_fit(coins@, fraction) ==> (r matches Ok(v) && message_bytes(v@) == scaled_coin_records(
            coins@,
            fraction,
        )),
        !shares_fit(coins@, fraction) ==> r == Err::<Vec<Anybuf>, ProtoError>(
            ProtoError::AmountOverflow,
        ),
{
    let mut out: Vec<Anybuf> = Vec::new();
    let mut i: usize = 0;
    while i < coins.len()
        invariant
            i <= coins@.len(),
            out@.len() == i,
            forall|j: int| 0 <= j < i ==> scaled(#[trigger] coins@[j].amount.value(), fraction) < two_pow_256(),
            forall|j: int|
                0 <= j < i ==> anybuf_bytes(#[trigger] out@[j]) == coin_record(
                    coins@[j].denom@,
                    scaled(coins@[j].amount.value(), fraction),
                ),
        decreases coins.len() - i,
    {
        let m = scaled_coin_message(&coins[i], fraction)?;
        let ghost before = out@;
        out.push(m);
        assert forall|j: int| 0 <= j <= i implies anybuf_bytes(#[trigger] out@[j]) == coin_record(
            coins@[j].denom@,
            scaled(coins@[j].amount.value(), fraction),
        ) by {
            if j < i {
                assert(out@[j] == before[j]);
            }
        }
        i += 1;
    }
    assert(message_bytes(out@) =~= scaled_coin_records(coins@, fraction));
    Ok(out)
}

/// A coin record can be read: a denom in field 1 and a decimal amount in field 2.
pub open spec fn coin_readable(bytes: Seq<u8>) -> bool {
    &&& bufany_string(bytes, 1) is Some
    &&& bufany_string(bytes, 2) matches Some(a) && parsed_u128(a) is Some
}

/// The coin a readable record holds.
pub open spec fn coin_of(bytes: Seq<u8>, c: Coin) -> bool {
    &&& Some(c.denom@) == bufany_string(bytes, 1)
    &&& bufany_string(bytes, 2) matches Some(a) && parsed_u128(a) matches Some(n) && c.amount.value()
        == n
}

/// Reads a coin record.
pub fn get_coin_from_bytes(coin_bytes: &Vec<u8>) -> (c: Coin)
    requires
        coin_readable(coin_bytes@),
    ensures
        coin_of(coin_bytes@, c),
{
    let denom = bufany_read_string(coin_bytes, 1).unwrap();
    let amount_text = bufany_read_string(coin_bytes, 2).unwrap();
    let amount = parse_u128(&amount_text).unwrap();
    Coin { denom, amount: u256_from_u128(amount) }
}

pub open spec fn coins_readable(items: Seq<Seq<u8>>) -> bool {
    forall|i: int| 0 <= i < items.len() ==> coin_readable(#[trigger] items[i])
}

pub open spec fn coins_of(items: Seq<Seq<u8>>, coins: Seq<Coin>) -> bool {
    &&& coins.len() == items.len()
    &&& forall|i: int| 0 <= i < items.len() ==> coin_of(#[trigger] items[i], coins[i])
}

/// Reads coin records, one coin each.
pub fn get_coins_from_bytes(coin_bytes: &Vec<Vec<u8>>) -> (coins: Vec<Coin>)
    requires
        coins_readable(byte_views(coin_bytes@)),
    ensures
        coins_of(byte_views(coin_bytes@), coins@),
{
    let mut coins: Vec<Coin> = Vec::new();
    let mut i: usize = 0;
    while i < coin_bytes.len()
        invariant
            i <= coin_bytes@.len(),
            coins_readable(byte_views(coin_bytes@)),
            coins@.len() == i,
            forall|j: int| 0 <= j < i ==> coin_of(coin_bytes@[j]@, #[trigger] coins@[j]),
        decreases coin_bytes.len() - i,
    {
        assert(byte_views(coin_bytes@)[i as int] == coin_bytes@[i as int]@);
        let c = get_coin_from_bytes(&coin_bytes[i]);
        let ghost before = coins@;
        coins.push(c);
        assert forall|j: int| 0 <= j <= i implies coin_of(coin_bytes@[j]@, #[trigger] coins@[j]) by {
            if j < i {
                assert(coins@[j] == before[j]);
            }
        }
        i += 1;
    }
    assert forall|j: int| 0 <= j < coin_bytes@.len() implies coin_of(
        #[trigger] byte_views(coin_bytes@)[j],
        coins@[j],
    ) by {
        assert(byte_views(coin_bytes@)[j] == coin_bytes@[j]@);
    }
    coins
}

// ═══════════════════════════ Bank, distribution, staking, gov ═══════════════════════════

/// Sends the scaled coins from `sender` to `recipient`: `MsgSend`.
pub fn encode_bank_transfer_msg_anybuf(
    anybuf: Anybuf,
    sender: String,
    recipient: String,
    coins: Vec<Coin>,
    fraction: Fraction,
) -> (r: Result<StargateMsg, ProtoError>)
    ensures
        !shares_fit(coins@, fraction) ==> r == Err::<StargateMsg, ProtoError>(
            ProtoError::AmountOverflow,
        ),
        shares_fit(coins@, fraction) ==> (r matches Ok(m) && m.type_url@
            == "/cosmos.bank.v1beta1.MsgSend"@ && m.value@ == anybuf_bytes(anybuf) + bytes_field(
            1,
            utf8(sender@),
        ) + bytes_field(2, utf8(recipient@)) + repeated_field(
            3,
            scaled_coin_records(coins@, fraction),
        )),
{
    let tokens = scaled_coin_messages(&coins, fraction)?;
    let b = anybuf_append_string(anybuf, 1, sender);
    let b = anybuf_append_string(b, 2, recipient);
    let b = anybuf_append_repeated_message(b, 3, &tokens);
    Ok(
        StargateMsg {
            type_url: String::from_str("/cosmos.bank.v1beta1.MsgSend"),
            value: anybuf_into_vec(b),
        },
    )
}

/// Funds the community pool with the scaled coins from `sender`: `MsgFundCommunityPool`.
pub fn encode_fund_community_pool_anybuf(
    anybuf: Anybuf,
    coins: Vec<Coin>,
    sender: String,
    fraction: Fraction,
) -> (r: Result<StargateMsg, ProtoError>)
    ensures
        !shares_fit(coins@, fraction) ==> r == Err::<StargateMsg, ProtoError>(
            ProtoError::AmountOverflow,
        ),
        shares_fit(coins@, fraction) ==> (r matches Ok(m) && m.type_url@
            == "/cosmos.distribution.v1beta1.MsgFundCommunityPool"@ && m.value@ == anybuf_bytes(
            anybuf,
        ) + repeated_field(1, scaled_coin_records(coins@, fraction)) + bytes_field(
            2,
            utf8(sender@),
        )),
{
    let tokens = scaled_coin_messages(&coins, fraction)?;
    let b = anybuf_append_repeated_message(anybuf, 1, &tokens);
    let b = anybuf_append_string(b, 2, sender);
    Ok(
        StargateMsg {
            type_url: String::from_str("/cosmos.distribution.v1beta1.MsgFundCommunityPool"),
            value: anybuf_into_vec(b),
        },
    )
}

/// Delegates the scaled coin from `sender` to `validator`: `MsgDelegate`.
pub fn encode_delegate_msg_anybuf(
    anybuf: Anybuf,
    coin: Coin,
    sender: String,
    validator: String,
    fraction: Fraction,
) -> (r: Result<StargateMsg, ProtoError>)
    ensures
        scaled(coin.amount.value(), fraction) >= two_pow_256() ==> r == Err::<StargateMsg, ProtoError>(
            ProtoError::AmountOverflow,
        ),
        scaled(coin.amount.value(), fraction) < two_pow_256() ==> (r matches Ok(m) && m.type_url@
            == "/cosmos.staking.v1beta1.MsgDelegate"@ && m.value@ == anybuf_bytes(anybuf)
            + bytes_field(1, utf8(sender@)) + bytes_field(2, utf8(validator@)) + bytes_field(
            3,
            coin_record(coin.denom@, scaled(coin.amount.value(), fraction)),
        )),
{
    let token = scaled_coin_message(&coin, fraction)?;
    let b = anybuf_append_string(anybuf, 1, sender);
    let b = anybuf_append_string(b, 2, validator);
    let b = anybuf_append_message(b, 3, &token);
    Ok(
        StargateMsg {
            type_url: String::from_str("/cosmos.staking.v1beta1.MsgDelegate"),
            value: anybuf_into_vec(b),
        },
    )
}

/// Moves the scaled coin of `sender` from validator `old_val` to `new_val`:
/// `MsgReDelegate`.
pub fn encode_redelegate_msg_anybuf(
    anybuf: Anybuf,
    coin: Coin,
    sender: String,
    old_val: String,
    new_val: String,
    fraction: Fraction,
) -> (r: Result<StargateMsg, ProtoError>)
    ensures
        scaled(coin.amount.value(), fraction) >= two_pow_256() ==> r == Err::<StargateMsg, ProtoError>(
            ProtoError::AmountOverflow,
        ),
        scaled(coin.amount.value(), fraction) < two_pow_256() ==> (r matches Ok(m) && m.type_url@
            == "/cosmos.staking.v1beta1.MsgReDelegate"@ && m.value@ == anybuf_bytes(anybuf)
            + bytes_field(1, utf8(sender@)) + bytes_field(2, utf8(old_val@)) + bytes_field(
            3,
            utf8(new_val@),
        ) + bytes_field(4, coin_record(coin.denom@, scaled(coin.amount.value(), fraction)))),
{
    let token = scaled_coin_message(&coin, fraction)?;
    let b = anybuf_append_string(anybuf, 1, sender);
    let b = anybuf_append_string(b, 2, old_val);
    let b = anybuf_append_string(b, 3, new_val);
    let b = anybuf_append_message(b, 4, &token);
    Ok(
        StargateMsg {
            type_url: String::from_str("/cosmos.staking.v1beta1.MsgReDelegate"),
            value: anybuf_into_vec(b),
        },
    )
}

/// Submits a governance proposal by `proposer` with the scaled deposit:
/// `MsgSubmitProposal`.
pub fn encode_gov_prop_msg_anybuf(
    anybuf: Anybuf,
    proposer: String,
    prop_msgs: Vec<Vec<u8>>,
    coins: Vec<Coin>,
    title: String,
    metadata: String,
    summary: String,
    fraction: Fraction,
) -> (r: Result<StargateMsg, ProtoError>)
    ensures
        !shares_fit(coins@, fraction) ==> r == Err::<StargateMsg, ProtoError>(
            ProtoError::AmountOverflow,
        ),
        shares_fit(coins@, fraction) ==> (r matches Ok(m) && m.type_url@
            == "/cosmos.gov.v1.MsgSubmitProposal"@ && m.value@ == anybuf_bytes(anybuf)
            + repeated_field(1, byte_views(prop_msgs@)) + repeated_field(
            2,
            scaled_coin_records(coins@, fraction),
        ) + bytes_field(3, utf8(proposer@)) + bytes_field(4, utf8(metadata@)) + bytes_field(
            5,
            utf8(title@),
        ) + bytes_field(6, utf8(summary@))),
{
    let tokens = scaled_coin_messages(&coins, fraction)?;
    let b = anybuf_append_repeated_bytes(anybuf, 1, &prop_msgs);
    let b = anybuf_append_repeated_message(b, 2, &tokens);
    let b = anybuf_append_string(b, 3, proposer);
    let b = anybuf_append_string(b, 4, metadata);
    let b = anybuf_append_string(b, 5, title);
    let b = anybuf_append_string(b, 6, summary);
    Ok(
        StargateMsg {
            type_url: String::from_str("/cosmos.gov.v1.MsgSubmitProposal"),
            value: anybuf_into_vec(b),
        },
    )
}

// ═══════════════════════════ Reading submissions ═══════════════════════════

#[derive(Debug)]
pub struct ParseBankSubmissionResponse {
    pub coins: Vec<Coin>,
    pub recipient: String,
}

#[derive(Debug)]
pub struct ParseDistrSubmissionResponse {
    pub coins: Vec<Coin>,
}

#[derive(Debug)]
pub struct ParseStakingSubmissionResponse {
    pub amount: Coin,
    pub recipient: String,
}

#[derive(Debug)]
pub struct ParseRedelegationSubmissionResponse {
    pub delegator: String,
    pub amount: Coin,
    pub old: String,
    pub new: String,
}

#[derive(Debug)]
pub struct ParseGovPropSubmissionResponse {
    pub deposit: Vec<Coin>,
    pub messages: Vec<Vec<u8>>,
    pub metadata: String,
    pub title: String,
    pub summary: String,
}

#[derive(Debug)]
pub struct ParseCw20Response {
    pub contract: String,
    pub sender: String,
    pub coins: Vec<Coin>,
    pub exec_msg: Vec<u8>,
}

/// Repeated field `field` of `msg` holds readable coin records.
pub open spec fn coins_field_readable(msg: Seq<u8>, field: u32) -> bool {
    bufany_repeated_bytes(msg, field) matches Some(items) && coins_readable(items)
}

/// Field `field` of `msg` holds a readable coin record.
pub open spec fn coin_field_readable(msg: Seq<u8>, field: u32) -> bool {
    bufany_bytes(msg, field) matches Some(b) && coin_readable(b)
}

/// The coins held by repeated field `field` of `msg`.
pub open spec fn coins_field_of(msg: Seq<u8>, field: u32, coins: Seq<Coin>) -> bool {
    bufany_repeated_bytes(msg, field) matches Some(items) && coins_of(items, coins)
}

/// The coin held by field `field` of `msg`.
pub open spec fn coin_field_of(msg: Seq<u8>, field: u32, c: Coin) -> bool {
    bufany_bytes(msg, field) matches Some(b) && coin_of(b, c)
}

fn read_coins(msg: &Vec<u8>, field: u32) -> (r: Vec<Coin>)
    requires
        coins_field_readable(msg@, field),
    ensures
        coins_field_of(msg@, field, r@),
{
    let items = bufany_read_repeated_bytes(msg, field).unwrap();
    get_coins_from_bytes(&items)
}

fn read_coin(msg: &Vec<u8>, field: u32) -> (r: Coin)
    requires
        coin_field_readable(msg@, field),
    ensures
        coin_field_of(msg@, field, r),
{
    let b = bufany_read_bytes(msg, field).unwrap();
    get_coin_from_bytes(&b)
}

fn read_string(msg: &Vec<u8>, field: u32) -> (r: String)
    requires
        bufany_string(msg@, field) is Some,
    ensures
        bufany_string(msg@, field) == Some(r@),
{
    bufany_read_string(msg, field).unwrap()
}

/// Reads a submitted bank send: recipient in field 2, coins in field 3.
pub fn parse_bank_transfer_msg_bufany(msg: &Vec<u8>) -> (r: ParseBankSubmissionResponse)
    requires
        coins_field_readable(msg@, 3),
        bufany_string(msg@, 2) is Some,
    ensures
        coins_field_of(msg@, 3, r.coins@),
        bufany_string(msg@, 2) == Some(r.recipient@),
{
    let coins = read_coins(msg, 3);
    let recipient = read_string(msg, 2);
    ParseBankSubmissionResponse { coins, recipient }
}

/// Reads a submitted community pool funding: coins in field 1.
pub fn parse_distr_submission_msg_bufany(msg: &Vec<u8>) -> (r: ParseDistrSubmissionResponse)
    requires
        coins_field_readable(msg@, 1),
    ensures
        coins_field_of(msg@, 1, r.coins@),
{
    ParseDistrSubmissionResponse { coins: read_coins(msg, 1) }
}

/// Reads a submitted delegation: validator in field 2, coin in field 3.
pub fn parse_delegate_msg_bufany(msg: &Vec<u8>) -> (r: ParseStakingSubmissionResponse)
    requires
        bufany_string(msg@, 2) is Some,
        coin_field_readable(msg@, 3),
    ensures
        bufany_string(msg@, 2) == Some(r.recipient@),
        coin_field_of(msg@, 3, r.amount),
{
    let recipient = read_string(msg, 2);
    let amount = read_coin(msg, 3);
    ParseStakingSubmissionResponse { amount, recipient }
}

/// Reads a submitted redelegation: delegator, source and target validators in fields 1
/// to 3, coin in field 4.
pub fn parse_redelegate_msg_bufany(msg: &Vec<u8>) -> (r: ParseRedelegationSubmissionResponse)
    requires
        bufany_string(msg@, 1) is Some,
        bufany_string(msg@, 2) is Some,
        bufany_string(msg@, 3) is Some,
        coin_field_readable(msg@, 4),
    ensures
        bufany_string(msg@, 1) == Some(r.delegator@),
        bufany_string(msg@, 2) == Some(r.old@),
        bufany_string(msg@, 3) == Some(r.new@),
        coin_field_of(msg@, 4, r.amount),
{
    let delegator = read_string(msg, 1);
    let old = read_string(msg, 2);
    let new = read_string(msg, 3);
    let amount = read_coin(msg, 4);
    ParseRedelegationSubmissionResponse { delegator, amount, old, new }
}

/// Reads a submitted governance proposal: messages in field 1, deposit in field 2,
/// metadata, title and summary in fields 4 to 6.
pub fn parse_gov_prop_msg_bufany(msg: &Vec<u8>) -> (r: ParseGovPropSubmissionResponse)
    requires
        bufany_repeated_bytes(msg@, 1) is Some,
        coins_field_readable(msg@, 2),
        bufany_string(msg@, 4) is Some,
        bufany_string(msg@, 5) is Some,
        bufany_string(msg@, 6) is Some,
    ensures
        bufany_repeated_bytes(msg@, 1) == Some(byte_views(r.messages@)),
        coins_field_of(msg@, 2, r.deposit@),
        bufany_string(msg@, 4) == Some(r.metadata@),
        bufany_string(msg@, 5) == Some(r.title@),
        bufany_string(msg@, 6) == Some(r.summary@),
{
    let messages = bufany_read_repeated_bytes(msg, 1).unwrap();
    let deposit = read_coins(msg, 2);
    let metadata = read_string(msg, 4);
    let title = read_string(msg, 5);
    let summary = read_string(msg, 6);
    ParseGovPropSubmissionResponse { deposit, messages, metadata, title, summary }
}

/// Reads a submitted cw20 execution: sender and contract in fields 1 and 2, the
/// execute message in field 3, coins in field 5.
pub fn parse_cw20_bufany(msg: &Vec<u8>) -> (r: ParseCw20Response)
    requires
        bufany_string(msg@, 1) is Some,
        bufany_string(msg@, 2) is Some,
        bufany_bytes(msg@, 3) is Some,
        coins_field_readable(msg@, 5),
    ensures
        bufany_string(msg@, 1) == Some(r.sender@),
        bufany_string(msg@, 2) == Some(r.contract@),
        bufany_bytes(msg@, 3) == Some(r.exec_msg@),
        coins_field_of(msg@, 5, r.coins@),
{
    let sender = read_string(msg, 1);
    let contract = read_string(msg, 2);
    let exec_msg = bufany_read_bytes(msg, 3).unwrap();
    let coins = read_coins(msg, 5);
    ParseCw20Response { contract, sender, coins, exec_msg }
}

/// A submitted cw20 execution can be read.
pub open spec fn cw20_readable(msg: Seq<u8>) -> bool {
    &&& bufany_string(msg, 1) is Some
    &&& bufany_string(msg, 2) is Some
    &&& bufany_bytes(msg, 3) is Some
    &&& coins_field_readable(msg, 5)
}

/// Reads a submitted cw20 execution as `parse_cw20_bufany` does; `None` when it cannot be
/// read.
pub fn try_parse_cw20_bufany(msg: &Vec<u8>) -> (r: Option<ParseCw20Response>)
    ensures
        r is Some <==> cw20_readable(msg@),
        r matches Some(p) ==> {
            &&& bufany_string(msg@, 1) == Some(p.sender@)
            &&& bufany_string(msg@, 2) == Some(p.contract@)
            &&& bufany_bytes(msg@, 3) == Some(p.exec_msg@)
            &&& coins_field_of(msg@, 5, p.coins@)
        },
{
    if bufany_read_string(msg, 1).is_some() && bufany_read_string(msg, 2).is_some()
        && bufany_read_bytes(msg, 3).is_some() && coins_field_ok(msg, 5) {
        Some(parse_cw20_bufany(msg))
    } else {
        None
    }
}

// ═══════════════════════════ cw20 executions ═══════════════════════════

#[derive(Clone, Copy, Debug, PartialEq, Eq, Structural)]
pub enum AdapterCw20Msgs {
    Transfer,
    Send,
    IncreaseAllowance,
    DecreaseAllowance,
    Mint,
}

#[derive(Clone, Copy, Debug, PartialEq, Eq, Structural)]
pub enum AdapterWasmMsg {
    Cw20(AdapterCw20Msgs),
}

/// The sender of the execution written for a cw20 submission of kind `wasm_msg`: a
/// transfer is made by the DAO, every other kind by the submitted sender.
pub open spec fn cw20_exec_sender(wasm_msg: AdapterWasmMsg, dao: Seq<char>, submitted: Seq<char>) -> Seq<char> {
    match wasm_msg {
        AdapterWasmMsg::Cw20(AdapterCw20Msgs::Transfer) => dao,
        AdapterWasmMsg::Cw20(_) => submitted,
    }
}

/// The parties of the execution written for a readable cw20 submission: its sender
/// (`cw20_exec_sender`), the submitted cw20 contract, and the submitted execute message,
/// whose amount the caller scales.
pub fn cw20_exec_route(wasm_msg: AdapterWasmMsg, dao: String, parsed: ParseCw20Response) -> (r: (
    String,
    String,
    Vec<u8>,
))
    ensures
        r.0@ == cw20_exec_sender(wasm_msg, dao@, parsed.sender@),
        r.1@ == parsed.contract@,
        r.2@ == parsed.exec_msg@,
{
    let sender = match wasm_msg {
        AdapterWasmMsg::Cw20(AdapterCw20Msgs::Transfer) => dao,
        AdapterWasmMsg::Cw20(_) => parsed.sender,
    };
    (sender, parsed.contract, parsed.exec_msg)
}

/// A contract execution for the chain, `MsgExecuteContract`: sender in field 1, contract
/// in field 2, the execute message in field 3, and no funds (an empty repeated field 5).
pub fn encode_cw20_exec_anybuf(anybuf: Anybuf, sender: String, contract: String, exec_msg: Vec<u8>) -> (r: StargateMsg)
    ensures
        r.type_url@ == "/cosmwasm.v1.wasm.MsgExecuteContract"@,
        r.value@ == anybuf_bytes(anybuf) + bytes_field(1, utf8(sender@)) + bytes_field(
            2,
            utf8(contract@),
        ) + bytes_field(3, exec_msg@),
{
    let b = anybuf_append_string(anybuf, 1, sender);
    let b = anybuf_append_string(b, 2, contract);
    let b = anybuf_append_bytes(b, 3, exec_msg);
    let no_funds: Vec<Anybuf> = Vec::new();
    let b = anybuf_append_repeated_message(b, 5, &no_funds);
    assert(message_bytes(no_funds@) =~= Seq::<Seq<u8>>::empty());
    assert(repeated_field(5, message_bytes(no_funds@)) =~= Seq::<u8>::empty());
    let value = anybuf_into_vec(b);
    assert(value@ =~= anybuf_bytes(anybuf) + bytes_field(1, utf8(sender@)) + bytes_field(
        2,
        utf8(contract@),
    ) + bytes_field(3, exec_msg@));
    StargateMsg { type_url: String::from_str("/cosmwasm.v1.wasm.MsgExecuteContract"), value }
}

// ═══════════════════════════ Winning submissions ═══════════════════════════

/// The amount a readable coin record holds.
pub open spec fn record_amount(b: Seq<u8>) -> nat {
    parsed_u128(bufany_string(b, 2)->0)->0 as nat
}

/// The records of readable coin records, each amount scaled.
pub open spec fn read_records(items: Seq<Seq<u8>>, f: Fraction) -> Seq<Seq<u8>> {
    Seq::new(items.len(), |i: int| coin_record(bufany_string(items[i], 1)->0, scaled(record_amount(items[i]), f)))
}

/// Every readable coin record's scaled amount fits in 256 bits.
pub open spec fn read_fit(items: Seq<Seq<u8>>, f: Fraction) -> bool {
    forall|i: int| 0 <= i < items.len() ==> scaled(record_amount(#[trigger] items[i]), f) < two_pow_256()
}

proof fn lemma_coins_read(items: Seq<Seq<u8>>, coins: Seq<Coin>, f: Fraction)
    requires
        coins_of(items, coins),
    ensures
        scaled_coin_records(coins, f) == read_records(items, f),
        shares_fit(coins, f) == read_fit(items, f),
{
    assert forall|i: int| 0 <= i < items.len() implies #[trigger] coins[i].amount.value() == record_amount(
        items[i],
    ) && coins[i].denom@ == bufany_string(items[i], 1)->0 by {
        assert(coin_of(items[i], coins[i]));
    }
    assert(scaled_coin_records(coins, f) =~= read_records(items, f));
    if shares_fit(coins, f) {
        assert forall|i: int| 0 <= i < items.len() implies scaled(record_amount(#[trigger] items[i]), f)
            < two_pow_256() by {
            assert(scaled(coins[i].amount.value(), f) < two_pow_256());
        }
    }
    if read_fit(items, f) {
        assert forall|i: int| 0 <= i < coins.len() implies scaled(#[trigger] coins[i].amount.value(), f)
            < two_pow_256() by {
            assert(scaled(record_amount(items[i]), f) < two_pow_256());
        }
    }
}

#[derive(Clone, Copy, Debug, PartialEq, Eq, Structural)]
pub enum AdapterBankMsg {
    MsgSend,
}

#[derive(Clone, Copy, Debug, PartialEq, Eq, Structural)]
pub enum AdapterDistributionMsg {
    MsgFundCommunityPool,
}

#[derive(Clone, Copy, Debug, PartialEq, Eq, Structural)]
pub enum AdapterStakingMsg {
    MsgDelegate,
    MsgRedelegate,
}

#[derive(Clone, Copy, Debug, PartialEq, Eq, Structural)]
pub enum AdapterGovMsg {
    MsgSendGovProp,
}

/// The kind of chain message a submission asks for.
#[derive(Clone, Copy, Debug, PartialEq, Eq, Structural)]
pub enum StargateWire {
    Bank(AdapterBankMsg),
    Distribution(AdapterDistributionMsg),
    Staking(AdapterStakingMsg),
    Authz(AdapterAuthzMsg),
    Gov(AdapterGovMsg),
    Wasm(AdapterWasmMsg),
}

/// The submission `msg` can be read as a message of kind `wire`.
pub open spec fn wire_readable(wire: StargateWire, msg: Seq<u8>) -> bool {
    match wire {
        StargateWire::Bank(_) => coins_field_readable(msg, 3) && bufany_string(msg, 2) is Some,
        StargateWire::Distribution(_) => coins_field_readable(msg, 1),
        StargateWire::Staking(AdapterStakingMsg::MsgDelegate) => bufany_string(msg, 2) is Some
            && coin_field_readable(msg, 3),
        StargateWire::Staking(AdapterStakingMsg::MsgRedelegate) => bufany_string(msg, 1) is Some
            && bufany_string(msg, 2) is Some && bufany_string(msg, 3) is Some && coin_field_readable(
            msg,
            4,
        ),
        StargateWire::Authz(k) => authz_readable(msg, k),
        StargateWire::Wasm(_) => cw20_readable(msg),
        StargateWire::Gov(_) => bufany_repeated_bytes(msg, 1) is Some && coins_field_readable(msg, 2)
            && bufany_string(msg, 4) is Some && bufany_string(msg, 5) is Some && bufany_string(
            msg,
            6,
        ) is Some,
    }
}

/// The scaled amounts of a readable submission of kind `wire` fit in 256 bits.
pub open spec fn wire_fits(wire: StargateWire, msg: Seq<u8>, f: Fraction) -> bool {
    match wire {
        StargateWire::Bank(_) => read_fit(bufany_repeated_bytes(msg, 3)->0, f),
        StargateWire::Distribution(_) => read_fit(bufany_repeated_bytes(msg, 1)->0, f),
        StargateWire::Staking(AdapterStakingMsg::MsgDelegate) => scaled(
            record_amount(bufany_bytes(msg, 3)->0),
            f,
        ) < two_pow_256(),
        StargateWire::Staking(AdapterStakingMsg::MsgRedelegate) => scaled(
            record_amount(bufany_bytes(msg, 4)->0),
            f,
        ) < two_pow_256(),
        StargateWire::Authz(_) => true,
        StargateWire::Wasm(_) => true,
        StargateWire::Gov(_) => read_fit(bufany_repeated_bytes(msg, 2)->0, f),
    }
}

/// The protobuf bytes written for a readable submission of kind `wire`, sent by the DAO
/// `dao`, when its scaled amounts fit.
pub open spec fn wire_payload(wire: StargateWire, dao: Seq<char>, msg: Seq<u8>, f: Fraction) -> Seq<u8> {
    let coin_at = |field: u32| coin_record(
        bufany_string(bufany_bytes(msg, field)->0, 1)->0,
        scaled(record_amount(bufany_bytes(msg, field)->0), f),
    );
    match wire {
        StargateWire::Bank(_) => bytes_field(1, utf8(dao)) + bytes_field(
            2,
            utf8(bufany_string(msg, 2)->0),
        ) + repeated_field(3, read_records(bufany_repeated_bytes(msg, 3)->0, f)),
        StargateWire::Distribution(_) => repeated_field(
            1,
            read_records(bufany_repeated_bytes(msg, 1)->0, f),
        ) + bytes_field(2, utf8(dao)),
        StargateWire::Staking(AdapterStakingMsg::MsgDelegate) => bytes_field(1, utf8(dao))
            + bytes_field(2, utf8(bufany_string(msg, 2)->0)) + bytes_field(3, coin_at(3)),
        StargateWire::Staking(AdapterStakingMsg::MsgRedelegate) => bytes_field(1, utf8(dao))
            + bytes_field(2, utf8(bufany_string(msg, 2)->0)) + bytes_field(
            3,
            utf8(bufany_string(msg, 3)->0),
        ) + bytes_field(4, coin_at(4)),
        StargateWire::Authz(AdapterAuthzMsg::MsgExec) => bytes_field(1, utf8(dao)) + repeated_field(
            2,
            bufany_repeated_bytes(msg, 2)->0,
        ),
        StargateWire::Authz(_) => bytes_field(1, utf8(dao)) + bytes_field(
            2,
            utf8(bufany_string(msg, 2)->0),
        ),
        StargateWire::Wasm(_) => bytes_field(1, utf8(bufany_string(msg, 1)->0)) + bytes_field(
            2,
            utf8(bufany_string(msg, 2)->0),
        ) + bytes_field(3, bufany_bytes(msg, 3)->0),
        StargateWire::Gov(_) => repeated_field(1, bufany_repeated_bytes(msg, 1)->0) + repeated_field(
            2,
            read_records(bufany_repeated_bytes(msg, 2)->0, f),
        ) + bytes_field(3, utf8(dao)) + bytes_field(4, utf8(bufany_string(msg, 4)->0))
            + bytes_field(5, utf8(bufany_string(msg, 5)->0)) + bytes_field(
            6,
            utf8(bufany_string(msg, 6)->0),
        ),
    }
}

/// The type URL of the chain message of kind `wire`.
pub open spec fn wire_type_url(wire: StargateWire) -> Seq<char> {
    match wire {
        StargateWire::Bank(_) => "/cosmos.bank.v1beta1.MsgSend"@,
        StargateWire::Distribution(_) => "/cosmos.distribution.v1beta1.MsgFundCommunityPool"@,
        StargateWire::Staking(AdapterStakingMsg::MsgDelegate) => "/cosmos.staking.v1beta1.MsgDelegate"@,
        StargateWire::Staking(AdapterStakingMsg::MsgRedelegate) => "/cosmos.staking.v1beta1.MsgReDelegate"@,
        StargateWire::Authz(AdapterAuthzMsg::MsgExec) => "/cosmos.authz.v1beta1.MsgExec"@,
        StargateWire::Authz(_) => "/cosmos.authz.v1beta1.MsgGrant"@,
        StargateWire::Gov(_) => "/cosmos.gov.v1.MsgSubmitProposal"@,
        StargateWire::Wasm(_) => "/cosmwasm.v1.wasm.MsgExecuteContract"@,
    }
}

/// A bank submission as the DAO's message: the scaled coins go to the submitted
/// recipient.
pub fn parse_stargate_wire_bank(anybuf: Anybuf, dao: String, msg: &Vec<u8>, bank_msg: AdapterBankMsg, fraction: Fraction) -> (r: Result<StargateMsg, ProtoError>)
    requires
        wire_readable(StargateWire::Bank(bank_msg), msg@),
    ensures
        !wire_fits(StargateWire::Bank(bank_msg), msg@, fraction) ==> r == Err::<StargateMsg, ProtoError>(
            ProtoError::AmountOverflow,
        ),
        wire_fits(StargateWire::Bank(bank_msg), msg@, fraction) ==> (r matches Ok(m) && m.type_url@ == wire_type_url(StargateWire::Bank(bank_msg))
            && m.value@ == anybuf_bytes(anybuf) + wire_payload(StargateWire::Bank(bank_msg), dao@, msg@, fraction)),
{
    let p = parse_bank_transfer_msg_bufany(msg);
    proof {
        lemma_coins_read(bufany_repeated_bytes(msg@, 3)->0, p.coins@, fraction);
    }
    encode_bank_transfer_msg_anybuf(anybuf, dao, p.recipient, p.coins, fraction)
}

/// A distribution submission as the DAO's message: the scaled coins fund the community
/// pool.
pub fn parse_stargate_wire_distribution(anybuf: Anybuf, dao: String, msg: &Vec<u8>, distr_msg: AdapterDistributionMsg, fraction: Fraction) -> (r: Result<StargateMsg, ProtoError>)
    requires
        wire_readable(StargateWire::Distribution(distr_msg), msg@),
    ensures
        !wire_fits(StargateWire::Distribution(distr_msg), msg@, fraction) ==> r == Err::<StargateMsg, ProtoError>(
            ProtoError::AmountOverflow,
        ),
        wire_fits(StargateWire::Distribution(distr_msg), msg@, fraction) ==> (r matches Ok(m) && m.type_url@ == wire_type_url(StargateWire::Distribution(distr_msg))
            && m.value@ == anybuf_bytes(anybuf) + wire_payload(StargateWire::Distribution(distr_msg), dao@, msg@, fraction)),
{
    let p = parse_distr_submission_msg_bufany(msg);
    proof {
        lemma_coins_read(bufany_repeated_bytes(msg@, 1)->0, p.coins@, fraction);
    }
    encode_fund_community_pool_anybuf(anybuf, p.coins, dao, fraction)
}

/// A staking submission as the DAO's message: the scaled coin is delegated to the
/// submitted validator, or moved between the submitted validators.
pub fn parse_stargate_wire_staking(anybuf: Anybuf, dao: String, msg: &Vec<u8>, stake_msg: AdapterStakingMsg, fraction: Fraction) -> (r: Result<StargateMsg, ProtoError>)
    requires
        wire_readable(StargateWire::Staking(stake_msg), msg@),
    ensures
        !wire_fits(StargateWire::Staking(stake_msg), msg@, fraction) ==> r == Err::<StargateMsg, ProtoError>(
            ProtoError::AmountOverflow,
        ),
        wire_fits(StargateWire::Staking(stake_msg), msg@, fraction) ==> (r matches Ok(m) && m.type_url@ == wire_type_url(StargateWire::Staking(stake_msg))
            && m.value@ == anybuf_bytes(anybuf) + wire_payload(StargateWire::Staking(stake_msg), dao@, msg@, fraction)),
{
    match stake_msg {
        AdapterStakingMsg::MsgDelegate => {
            let p = parse_delegate_msg_bufany(msg);
            encode_delegate_msg_anybuf(anybuf, p.amount, dao, p.recipient, fraction)
        },
        AdapterStakingMsg::MsgRedelegate => {
            let p = parse_redelegate_msg_bufany(msg);
            encode_redelegate_msg_anybuf(anybuf, p.amount, dao, p.old, p.new, fraction)
        },
    }
}

/// A governance submission as the DAO's message: the proposal, with its deposit scaled,
/// submitted by the DAO.
pub fn parse_stargate_wire_gov(anybuf: Anybuf, dao: String, msg: &Vec<u8>, gov_msg: AdapterGovMsg, fraction: Fraction) -> (r: Result<StargateMsg, ProtoError>)
    requires
        wire_readable(StargateWire::Gov(gov_msg), msg@),
    ensures
        !wire_fits(StargateWire::Gov(gov_msg), msg@, fraction) ==> r == Err::<StargateMsg, ProtoError>(
            ProtoError::AmountOverflow,
        ),
        wire_fits(StargateWire::Gov(gov_msg), msg@, fraction) ==> (r matches Ok(m) && m.type_url@ == wire_type_url(StargateWire::Gov(gov_msg))
            && m.value@ == anybuf_bytes(anybuf) + wire_payload(StargateWire::Gov(gov_msg), dao@, msg@, fraction)),
{
    let p = parse_gov_prop_msg_bufany(msg);
    proof {
        lemma_coins_read(bufany_repeated_bytes(msg@, 2)->0, p.deposit@, fraction);
    }
    encode_gov_prop_msg_anybuf(anybuf, dao, p.messages, p.deposit, p.title, p.metadata, p.summary, fraction)
}

/// A governance submission as the DAO's message, if it can be read.
pub fn try_parse_stargate_wire_gov(anybuf: Anybuf, dao: String, msg: &Vec<u8>, gov_msg: AdapterGovMsg, fraction: Fraction) -> (r: Option<Result<StargateMsg, ProtoError>>)
    ensures
        r is Some <==> wire_readable(StargateWire::Gov(gov_msg), msg@),
        r is Some && !wire_fits(StargateWire::Gov(gov_msg), msg@, fraction) ==> r == Some(
            Err::<StargateMsg, ProtoError>(ProtoError::AmountOverflow),
        ),
        r is Some && wire_fits(StargateWire::Gov(gov_msg), msg@, fraction) ==> (r matches Some(Ok(m))
            && m.type_url@ == wire_type_url(StargateWire::Gov(gov_msg)) && m.value@ == anybuf_bytes(
            anybuf,
        ) + wire_payload(StargateWire::Gov(gov_msg), dao@, msg@, fraction)),
{
    let readable = bufany_read_repeated_bytes(msg, 1).is_some() && coins_field_ok(msg, 2)
        && bufany_read_string(msg, 4).is_some() && bufany_read_string(msg, 5).is_some()
        && bufany_read_string(msg, 6).is_some();
    if readable {
        Some(parse_stargate_wire_gov(anybuf, dao, msg, gov_msg, fraction))
    } else {
        None
    }
}

/// The chain message for a winning submission of kind `wire`, sent by the DAO `dao`
/// with the amounts scaled by the gauge's fraction. Governance proposals are not routed,
/// and a cw20 execution is written by `parse_stargate_wire_wasm` once its JSON message
/// is read.
pub fn stargate_to_anybuf(anybuf: Anybuf, dao: String, wire: StargateWire, msg: &Vec<u8>, fraction: Fraction) -> (r: Result<StargateMsg, ProtoError>)
    requires
        wire_readable(wire, msg@),
        !(wire is Gov),
        !(wire is Wasm),
    ensures
        !wire_fits(wire, msg@, fraction) ==> r == Err::<StargateMsg, ProtoError>(
            ProtoError::AmountOverflow,
        ),
        wire_fits(wire, msg@, fraction) ==> (r matches Ok(m) && m.type_url@ == wire_type_url(wire)
            && m.value@ == anybuf_bytes(anybuf) + wire_payload(wire, dao@, msg@, fraction)),
{
    match wire {
        StargateWire::Bank(b) => parse_stargate_wire_bank(anybuf, dao, msg, b, fraction),
        StargateWire::Distribution(d) => parse_stargate_wire_distribution(anybuf, dao, msg, d, fraction),
        StargateWire::Staking(k) => parse_stargate_wire_staking(anybuf, dao, msg, k, fraction),
        StargateWire::Authz(kind) => Ok(parse_stargate_wire_authz(anybuf, dao, msg, kind)),
        StargateWire::Gov(_) | StargateWire::Wasm(_) => {
            proof {
                assert(false);
            }
            Err(ProtoError::AmountOverflow)
        },
    }
}

/// Reads a submission of kind `wire` as `stargate_to_anybuf` does; `None` when it cannot
/// be read, or is a governance proposal or a cw20 execution.
pub fn try_stargate_to_anybuf(anybuf: Anybuf, dao: String, wire: StargateWire, msg: &Vec<u8>, fraction: Fraction) -> (r: Option<Result<StargateMsg, ProtoError>>)
    ensures
        r is Some <==> wire_readable(wire, msg@) && !(wire is Gov) && !(wire is Wasm),
        r is Some && !wire_fits(wire, msg@, fraction) ==> r == Some(
            Err::<StargateMsg, ProtoError>(ProtoError::AmountOverflow),
        ),
        r is Some && wire_fits(wire, msg@, fraction) ==> (r matches Some(Ok(m)) && m.type_url@
            == wire_type_url(wire) && m.value@ == anybuf_bytes(anybuf) + wire_payload(
            wire,
            dao@,
            msg@,
            fraction,
        )),
{
    let readable = match wire {
        StargateWire::Bank(_) => coins_field_ok(msg, 3) && bufany_read_string(msg, 2).is_some(),
        StargateWire::Distribution(_) => coins_field_ok(msg, 1),
        StargateWire::Staking(AdapterStakingMsg::MsgDelegate) => bufany_read_string(msg, 2).is_some()
            && coin_field_ok(msg, 3),
        StargateWire::Staking(AdapterStakingMsg::MsgRedelegate) => bufany_read_string(msg, 1).is_some()
            && bufany_read_string(msg, 2).is_some() && bufany_read_string(msg, 3).is_some()
            && coin_field_ok(msg, 4),
        StargateWire::Authz(AdapterAuthzMsg::MsgExec) => bufany_read_string(msg, 1).is_some()
            && bufany_read_repeated_bytes(msg, 2).is_some(),
        StargateWire::Authz(AdapterAuthzMsg::MsgGrant) => bufany_read_string(msg, 1).is_some()
            && bufany_read_string(msg, 2).is_some(),
        StargateWire::Authz(AdapterAuthzMsg::MsgRevoke) => false,
        StargateWire::Gov(_) | StargateWire::Wasm(_) => false,
    };
    if readable {
        Some(stargate_to_anybuf(anybuf, dao, wire, msg, fraction))
    } else {
        None
    }
}

/// Whether bytes hold a readable coin record.
fn coin_ok(b: &Vec<u8>) -> (r: bool)
    ensures
        r == coin_readable(b@),
{
    match (bufany_read_string(b, 1), bufany_read_string(b, 2)) {
        (Some(_), Some(a)) => parse_u128(&a).is_some(),
        _ => false,
    }
}

fn coin_field_ok(msg: &Vec<u8>, field: u32) -> (r: bool)
    ensures
        r == coin_field_readable(msg@, field),
{
    match bufany_read_bytes(msg, field) {
        Some(b) => coin_ok(&b),
        None => false,
    }
}

fn coins_field_ok(msg: &Vec<u8>, field: u32) -> (r: bool)
    ensures
        r == coins_field_readable(msg@, field),
{
    match bufany_read_repeated_bytes(msg, field) {
        Some(items) => {
            let mut i: usize = 0;
            while i < items.len()
                invariant
                    i <= items@.len(),
                    bufany_repeated_bytes(msg@, field) == Some(byte_views(items@)),
                    forall|j: int| 0 <= j < i ==> coin_readable(#[trigger] byte_views(items@)[j]),
                decreases items.len() - i,
            {
                assert(byte_views(items@)[i as int] == items@[i as int]@);
                if !coin_ok(&items[i]) {
                    assert(!coin_readable(byte_views(items@)[i as int]));
                    return false;
                }
                i += 1;
            }
            true
        },
        None => false,
    }
}

} // verus!
