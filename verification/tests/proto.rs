use anybuf::Anybuf;
use cosmwasm_std::Uint256;
use dao_contracts::proto::{
    cw20_exec_route, encode_authz_exec_msg_anybuf, encode_cw20_exec_anybuf, encode_authz_grant_msg_anybuf, get_coin_from_bytes,
    new_amount_gauge_fraction, parse_authz_grant_msg_bufany, try_parse_cw20_bufany, parse_authz_msg_bufany,
    try_parse_stargate_wire_gov, try_stargate_to_anybuf, AdapterAuthzMsg, AdapterBankMsg, AdapterCw20Msgs, AdapterWasmMsg,
    AdapterDistributionMsg, AdapterGovMsg, AdapterStakingMsg, Fraction, ProtoError, StargateWire,
};
use dao_contracts::uint::U256;

const HALF: Fraction = Fraction { atomics: 500_000_000_000_000_000 };
const WHOLE: Fraction = Fraction { atomics: 1_000_000_000_000_000_000 };

fn u256(x: u128) -> U256 {
    U256 { be: Uint256::from(x).to_be_bytes() }
}

fn value(x: &U256) -> Uint256 {
    Uint256::from_be_bytes(x.be)
}

fn coin(denom: &str, amount: &str) -> Anybuf {
    Anybuf::new().append_string(1, denom).append_string(2, amount)
}

/// The record of a coin: denom in field 1, amount text in field 2.
fn coin_bytes(denom: &str, amount: &str) -> Vec<u8> {
    let mut v = vec![0x0a, denom.len() as u8];
    v.extend_from_slice(denom.as_bytes());
    v.push(0x12);
    v.push(amount.len() as u8);
    v.extend_from_slice(amount.as_bytes());
    v
}

fn field(tag: u8, data: &[u8]) -> Vec<u8> {
    let mut v = vec![tag, data.len() as u8];
    v.extend_from_slice(data);
    v
}

#[test]
fn grant_is_encoded_field_by_field() {
    let msg = encode_authz_grant_msg_anybuf(Anybuf::new(), "dao".to_string(), "bob".to_string());
    assert_eq!(msg.type_url, "/cosmos.authz.v1beta1.MsgGrant");
    assert_eq!(msg.value, vec![0x0a, 3, b'd', b'a', b'o', 0x12, 3, b'b', b'o', b'b']);
    // An empty string writes nothing.
    let msg = encode_authz_grant_msg_anybuf(Anybuf::new(), String::new(), "b".to_string());
    assert_eq!(msg.value, vec![0x12, 1, b'b']);
}

#[test]
fn exec_is_encoded_with_one_record_per_message() {
    let msg = encode_authz_exec_msg_anybuf(Anybuf::new(), "g".to_string(), vec![vec![7, 8], vec![]]);
    assert_eq!(msg.type_url, "/cosmos.authz.v1beta1.MsgExec");
    assert_eq!(msg.value, vec![0x0a, 1, b'g', 0x12, 2, 7, 8, 0x12, 0]);
}

#[test]
fn submissions_are_read_back() {
    let grant = Anybuf::new().append_string(1, "granter").append_string(2, "grantee").into_vec();
    let parsed = parse_authz_grant_msg_bufany(&grant);
    assert_eq!(parsed.granter, "granter");
    assert_eq!(parsed.grantee, "grantee");

    let exec = Anybuf::new()
        .append_string(1, "grantee")
        .append_repeated_bytes(2, &[vec![1u8, 2], vec![3u8]])
        .into_vec();
    let parsed = parse_authz_msg_bufany(&exec);
    assert_eq!(parsed.grantee, "grantee");
    assert_eq!(parsed.messages, vec![vec![1u8, 2], vec![3u8]]);
}

#[test]
fn unreadable_submissions_are_refused() {
    // A truncated record does not decode.
    let bad = vec![0x0a, 5, b'a'];
    for wire in [
        StargateWire::Authz(AdapterAuthzMsg::MsgGrant),
        StargateWire::Authz(AdapterAuthzMsg::MsgExec),
        StargateWire::Bank(AdapterBankMsg::MsgSend),
        StargateWire::Distribution(AdapterDistributionMsg::MsgFundCommunityPool),
        StargateWire::Staking(AdapterStakingMsg::MsgDelegate),
        StargateWire::Staking(AdapterStakingMsg::MsgRedelegate),
    ] {
        assert!(try_stargate_to_anybuf(Anybuf::new(), "dao".to_string(), wire, &bad, WHOLE).is_none());
    }
    assert!(try_parse_stargate_wire_gov(Anybuf::new(), "dao".to_string(), &bad, AdapterGovMsg::MsgSendGovProp, WHOLE).is_none());
    // A revocation is never written, and governance is not routed.
    let grant = Anybuf::new().append_string(1, "granter").append_string(2, "grantee").into_vec();
    assert!(try_stargate_to_anybuf(Anybuf::new(), "dao".to_string(), StargateWire::Authz(AdapterAuthzMsg::MsgRevoke), &grant, WHOLE).is_none());
    let prop = Anybuf::new()
        .append_repeated_bytes(1, &[vec![1u8]])
        .append_string(4, "m")
        .append_string(5, "t")
        .append_string(6, "s")
        .into_vec();
    assert!(try_stargate_to_anybuf(Anybuf::new(), "dao".to_string(), StargateWire::Gov(AdapterGovMsg::MsgSendGovProp), &prop, WHOLE).is_none());
    // A cw20 execution is written once its JSON message is read, not here.
    let cw20 = Anybuf::new()
        .append_string(1, "alice")
        .append_string(2, "token")
        .append_bytes(3, b"{}")
        .into_vec();
    assert!(try_stargate_to_anybuf(Anybuf::new(), "dao".to_string(), StargateWire::Wasm(AdapterWasmMsg::Cw20(AdapterCw20Msgs::Send)), &cw20, WHOLE).is_none());
    // A coin whose amount is not a number is not readable.
    let send = Anybuf::new()
        .append_string(2, "bob")
        .append_repeated_message(3, &[&coin("ujuno", "ten")])
        .into_vec();
    assert!(try_stargate_to_anybuf(Anybuf::new(), "dao".to_string(), StargateWire::Bank(AdapterBankMsg::MsgSend), &send, WHOLE).is_none());
}

#[test]
fn winning_grant_is_made_by_the_dao() {
    let grant = Anybuf::new().append_string(1, "someone").append_string(2, "bob").into_vec();
    let msg = try_stargate_to_anybuf(Anybuf::new(), "dao".to_string(), StargateWire::Authz(AdapterAuthzMsg::MsgGrant), &grant, WHOLE)
        .unwrap()
        .unwrap();
    assert_eq!(msg.type_url, "/cosmos.authz.v1beta1.MsgGrant");
    assert_eq!(msg.value, vec![0x0a, 3, b'd', b'a', b'o', 0x12, 3, b'b', b'o', b'b']);

    let exec = Anybuf::new().append_string(1, "x").append_repeated_bytes(2, &[vec![9u8]]).into_vec();
    let msg = try_stargate_to_anybuf(Anybuf::new(), "dao".to_string(), StargateWire::Authz(AdapterAuthzMsg::MsgExec), &exec, WHOLE)
        .unwrap()
        .unwrap();
    assert_eq!(msg.type_url, "/cosmos.authz.v1beta1.MsgExec");
    assert_eq!(msg.value, vec![0x0a, 3, b'd', b'a', b'o', 0x12, 1, 9]);
}

#[test]
fn gauge_fraction_scales_down_and_rounds_down() {
    let half = new_amount_gauge_fraction(u256(101), HALF).unwrap();
    assert_eq!(value(&half), Uint256::from(50u128));
    let whole = new_amount_gauge_fraction(u256(7), WHOLE).unwrap();
    assert_eq!(value(&whole), Uint256::from(7u128));
    let none = new_amount_gauge_fraction(u256(7), Fraction { atomics: 0 }).unwrap();
    assert_eq!(value(&none), Uint256::zero());
    let max = U256 { be: Uint256::MAX.to_be_bytes() };
    let twice = Fraction { atomics: 2_000_000_000_000_000_000 };
    assert_eq!(new_amount_gauge_fraction(max, twice).unwrap_err(), ProtoError::AmountOverflow);
}

#[test]
fn coin_record_is_read() {
    let c = get_coin_from_bytes(&coin("uatom", "+0042").into_vec());
    assert_eq!(c.denom, "uatom");
    assert_eq!(value(&c.amount), Uint256::from(42u128));
}

#[test]
fn winning_bank_send_pays_the_scaled_coins_from_the_dao() {
    let send = Anybuf::new()
        .append_string(2, "bob")
        .append_repeated_message(3, &[&coin("ujuno", "100"), &coin("uatom", "7")])
        .into_vec();
    let msg = try_stargate_to_anybuf(Anybuf::new(), "dao".to_string(), StargateWire::Bank(AdapterBankMsg::MsgSend), &send, HALF)
        .unwrap()
        .unwrap();
    assert_eq!(msg.type_url, "/cosmos.bank.v1beta1.MsgSend");
    let mut expected = field(0x0a, b"dao");
    expected.extend(field(0x12, b"bob"));
    expected.extend(field(0x1a, &coin_bytes("ujuno", "50")));
    expected.extend(field(0x1a, &coin_bytes("uatom", "3")));
    assert_eq!(msg.value, expected);
}

#[test]
fn submitted_amounts_stop_at_128_bits() {
    let huge = Uint256::MAX.to_string();
    let big = Fraction { atomics: 2_000_000_000_000_000_000 };
    let send = Anybuf::new()
        .append_string(2, "bob")
        .append_repeated_message(3, &[&coin("ujuno", "1")])
        .into_vec();
    assert!(try_stargate_to_anybuf(Anybuf::new(), "dao".to_string(), StargateWire::Bank(AdapterBankMsg::MsgSend), &send, big)
        .unwrap()
        .is_ok());
    // An amount beyond 128 bits is not readable at all.
    let send = Anybuf::new()
        .append_string(2, "bob")
        .append_repeated_message(3, &[&coin("ujuno", &huge)])
        .into_vec();
    assert!(try_stargate_to_anybuf(Anybuf::new(), "dao".to_string(), StargateWire::Bank(AdapterBankMsg::MsgSend), &send, big).is_none());
}

#[test]
fn winning_pool_funding_is_sent_by_the_dao() {
    let fund = Anybuf::new().append_repeated_message(1, &[&coin("ujuno", "10")]).into_vec();
    let msg = try_stargate_to_anybuf(
        Anybuf::new(),
        "dao".to_string(),
        StargateWire::Distribution(AdapterDistributionMsg::MsgFundCommunityPool),
        &fund,
        HALF,
    )
    .unwrap()
    .unwrap();
    assert_eq!(msg.type_url, "/cosmos.distribution.v1beta1.MsgFundCommunityPool");
    let mut expected = field(0x0a, &coin_bytes("ujuno", "5"));
    expected.extend(field(0x12, b"dao"));
    assert_eq!(msg.value, expected);
}

#[test]
fn winning_delegations_are_made_by_the_dao() {
    let delegate = Anybuf::new()
        .append_string(1, "someone")
        .append_string(2, "val")
        .append_message(3, &coin("ujuno", "9"))
        .into_vec();
    let msg = try_stargate_to_anybuf(Anybuf::new(), "dao".to_string(), StargateWire::Staking(AdapterStakingMsg::MsgDelegate), &delegate, HALF)
        .unwrap()
        .unwrap();
    assert_eq!(msg.type_url, "/cosmos.staking.v1beta1.MsgDelegate");
    let mut expected = field(0x0a, b"dao");
    expected.extend(field(0x12, b"val"));
    expected.extend(field(0x1a, &coin_bytes("ujuno", "4")));
    assert_eq!(msg.value, expected);

    let redelegate = Anybuf::new()
        .append_string(1, "someone")
        .append_string(2, "v1")
        .append_string(3, "v2")
        .append_message(4, &coin("ujuno", "9"))
        .into_vec();
    let msg = try_stargate_to_anybuf(Anybuf::new(), "dao".to_string(), StargateWire::Staking(AdapterStakingMsg::MsgRedelegate), &redelegate, WHOLE)
        .unwrap()
        .unwrap();
    assert_eq!(msg.type_url, "/cosmos.staking.v1beta1.MsgReDelegate");
    let mut expected = field(0x0a, b"dao");
    expected.extend(field(0x12, b"v1"));
    expected.extend(field(0x1a, b"v2"));
    expected.extend(field(0x22, &coin_bytes("ujuno", "9")));
    assert_eq!(msg.value, expected);
}

#[test]
fn winning_proposal_is_submitted_by_the_dao() {
    let prop = Anybuf::new()
        .append_repeated_bytes(1, &[vec![1u8, 2]])
        .append_repeated_message(2, &[&coin("ujuno", "8")])
        .append_string(3, "someone")
        .append_string(4, "m")
        .append_string(5, "t")
        .append_string(6, "s")
        .into_vec();
    let msg = try_parse_stargate_wire_gov(Anybuf::new(), "dao".to_string(), &prop, AdapterGovMsg::MsgSendGovProp, HALF)
        .unwrap()
        .unwrap();
    assert_eq!(msg.type_url, "/cosmos.gov.v1.MsgSubmitProposal");
    let mut expected = field(0x0a, &[1, 2]);
    expected.extend(field(0x12, &coin_bytes("ujuno", "4")));
    expected.extend(field(0x1a, b"dao"));
    expected.extend(field(0x22, b"m"));
    expected.extend(field(0x2a, b"t"));
    expected.extend(field(0x32, b"s"));
    assert_eq!(msg.value, expected);
}

#[test]
fn cw20_submission_is_read_when_complete() {
    let full = Anybuf::new()
        .append_string(1, "sender")
        .append_string(2, "token")
        .append_bytes(3, b"{}")
        .append_repeated_message(5, &[&coin("ujuno", "3")])
        .into_vec();
    let p = try_parse_cw20_bufany(&full).unwrap();
    assert_eq!(p.sender, "sender");
    assert_eq!(p.contract, "token");
    assert_eq!(p.exec_msg, b"{}".to_vec());
    assert_eq!(p.coins.len(), 1);
    assert_eq!(p.coins[0].denom, "ujuno");
    assert_eq!(value(&p.coins[0].amount), Uint256::from(3u128));
    assert!(try_parse_cw20_bufany(&vec![0x0a, 9, b'x']).is_none());
}

#[test]
fn cw20_transfer_is_made_by_the_dao_and_the_rest_by_the_submitter() {
    let sub = Anybuf::new()
        .append_string(1, "alice")
        .append_string(2, "token")
        .append_bytes(3, b"{}")
        .into_vec();
    let p = try_parse_cw20_bufany(&sub).unwrap();
    let (sender, contract, exec) = cw20_exec_route(AdapterWasmMsg::Cw20(AdapterCw20Msgs::Transfer), "dao".to_string(), p);
    assert_eq!((sender.as_str(), contract.as_str(), exec.as_slice()), ("dao", "token", &b"{}"[..]));
    for kind in [
        AdapterCw20Msgs::Send,
        AdapterCw20Msgs::IncreaseAllowance,
        AdapterCw20Msgs::DecreaseAllowance,
        AdapterCw20Msgs::Mint,
    ] {
        let p = try_parse_cw20_bufany(&sub).unwrap();
        let (sender, contract, _) = cw20_exec_route(AdapterWasmMsg::Cw20(kind), "dao".to_string(), p);
        assert_eq!((sender.as_str(), contract.as_str()), ("alice", "token"));
    }
}

#[test]
fn cw20_execution_is_framed_without_funds() {
    let msg = encode_cw20_exec_anybuf(Anybuf::new(), "dao".to_string(), "token".to_string(), b"{}".to_vec());
    assert_eq!(msg.type_url, "/cosmwasm.v1.wasm.MsgExecuteContract");
    let mut expected = field(0x0a, b"dao");
    expected.extend(field(0x12, b"token"));
    expected.extend(field(0x1a, b"{}"));
    assert_eq!(msg.value, expected);
}
