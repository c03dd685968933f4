use lsm_staking::gov::ProposalLookup;
use lsm_staking::proto::{
    create_redeem_tokens_msg, create_tokenize_shares_msg, create_vote_msg, decode_proposal_response,
    encode_proposal_request, proposal_lookup,
};

#[test]
fn vote_message_bytes() {
    let msg = create_vote_msg(&"voter".to_string(), 7, 3);
    assert_eq!(msg.type_url, "/cosmos.gov.v1beta1.MsgVote");
    let mut expected = vec![0x08, 7, 0x12, 5];
    expected.extend_from_slice(b"voter");
    expected.extend_from_slice(&[0x18, 3]);
    assert_eq!(msg.value, expected);
}

#[test]
fn vote_message_matches_prost_field_encoding() {
    let mut expected = Vec::new();
    prost::encoding::uint64::encode(1, &300u64, &mut expected);
    prost::encoding::string::encode(2, &"cosmos1voter".to_string(), &mut expected);
    prost::encoding::int32::encode(3, &-1i32, &mut expected);
    assert_eq!(create_vote_msg(&"cosmos1voter".to_string(), 300, -1).value, expected);
}

#[test]
fn vote_message_omits_default_fields() {
    assert_eq!(create_vote_msg(&String::new(), 0, 0).value, Vec::<u8>::new());
}

#[test]
fn redeem_message_bytes() {
    let msg = create_redeem_tokens_msg(&"pool".to_string(), &"cosmosvaloper1abc/1".to_string(), 500);
    assert_eq!(msg.type_url, "/gaia.liquid.v1beta1.MsgRedeemTokensForShares");
    let mut coin = vec![0x0a, 19];
    coin.extend_from_slice(b"cosmosvaloper1abc/1");
    coin.extend_from_slice(&[0x12, 3]);
    coin.extend_from_slice(b"500");
    let mut expected = vec![0x0a, 4];
    expected.extend_from_slice(b"pool");
    expected.extend_from_slice(&[0x12, coin.len() as u8]);
    expected.extend_from_slice(&coin);
    assert_eq!(msg.value, expected);
}

#[test]
fn redeem_message_writes_zero_amount() {
    let msg = create_redeem_tokens_msg(&String::new(), &String::new(), 0);
    assert_eq!(msg.value, vec![0x12, 3, 0x12, 1, b'0']);
}

#[test]
fn tokenize_message_bytes() {
    let msg = create_tokenize_shares_msg(
        &"pool".to_string(),
        &"cosmosvaloper1abc".to_string(),
        u128::MAX,
        &"uatom".to_string(),
        &"pool".to_string(),
    );
    assert_eq!(msg.type_url, "/gaia.liquid.v1beta1.MsgTokenizeShares");
    let mut coin = Vec::new();
    prost::encoding::string::encode(1, &"uatom".to_string(), &mut coin);
    prost::encoding::string::encode(2, &u128::MAX.to_string(), &mut coin);
    let mut expected = Vec::new();
    prost::encoding::string::encode(1, &"pool".to_string(), &mut expected);
    prost::encoding::string::encode(2, &"cosmosvaloper1abc".to_string(), &mut expected);
    prost::encoding::bytes::encode(3, &coin, &mut expected);
    prost::encoding::string::encode(4, &"pool".to_string(), &mut expected);
    assert_eq!(msg.value, expected);
}

#[test]
fn proposal_request_bytes() {
    assert_eq!(encode_proposal_request(5), vec![0x08, 5]);
    assert_eq!(encode_proposal_request(300), vec![0x08, 0xac, 0x02]);
    assert_eq!(encode_proposal_request(0), Vec::<u8>::new());
}

#[test]
fn proposal_response_status_is_read() {
    // proposal { proposal_id: 5, status: 3 }
    let bytes = vec![0x0a, 4, 0x08, 5, 0x18, 3];
    assert_eq!(decode_proposal_response(&bytes), Some(Some(3)));
}

#[test]
fn proposal_response_skips_other_fields() {
    let mut proposal = Vec::new();
    prost::encoding::uint64::encode(1, &9u64, &mut proposal);
    prost::encoding::bytes::encode(2, &vec![1u8, 2, 3], &mut proposal);
    prost::encoding::int32::encode(3, &4i32, &mut proposal);
    prost::encoding::fixed64::encode(7, &1u64, &mut proposal);
    prost::encoding::fixed32::encode(8, &1u32, &mut proposal);
    prost::encoding::uint64::encode(9, &u64::MAX, &mut proposal);
    let mut bytes = Vec::new();
    prost::encoding::bytes::encode(1, &proposal, &mut bytes);
    prost::encoding::string::encode(2, &"extra".to_string(), &mut bytes);
    assert_eq!(decode_proposal_response(&bytes), Some(Some(4)));
}

#[test]
fn proposal_response_without_status_has_status_zero() {
    assert_eq!(decode_proposal_response(&[0x0a, 2, 0x08, 5]), Some(Some(0)));
}

#[test]
fn proposal_response_merges_repeated_proposal() {
    let bytes = vec![0x0a, 2, 0x18, 2, 0x0a, 2, 0x08, 1];
    assert_eq!(decode_proposal_response(&bytes), Some(Some(2)));
}

#[test]
fn proposal_response_negative_status() {
    let mut proposal = Vec::new();
    prost::encoding::int32::encode(3, &-7i32, &mut proposal);
    let mut bytes = Vec::new();
    prost::encoding::bytes::encode(1, &proposal, &mut bytes);
    assert_eq!(decode_proposal_response(&bytes), Some(Some(-7)));
}

#[test]
fn proposal_response_malformed() {
    assert_eq!(decode_proposal_response(&[]), Some(None));
    assert_eq!(decode_proposal_response(&[0x0a, 5, 0x08]), None);
    assert_eq!(decode_proposal_response(&[0x08]), None);
    assert_eq!(decode_proposal_response(&[0x0a, 2, 0x1a, 0]), None);
    assert_eq!(decode_proposal_response(&[0x00, 1]), None);
    assert_eq!(decode_proposal_response(&[0x0b]), None);
    assert_eq!(decode_proposal_response(&[0x08, 0xff, 0xff, 0xff, 0xff, 0xff, 0xff, 0xff, 0xff, 0xff, 0x02]), None);
}

#[test]
fn proposal_lookup_outcomes() {
    assert_eq!(proposal_lookup(None), ProposalLookup::Unavailable);
    assert_eq!(proposal_lookup(Some(&vec![0x0a, 2, 0x18, 5])), ProposalLookup::Answered(Some(5)));
    assert_eq!(proposal_lookup(Some(&vec![])), ProposalLookup::Answered(None));
    assert_eq!(proposal_lookup(Some(&vec![0x0a])), ProposalLookup::Malformed);
}

/// `n` groups of field 5, each inside the one before.
fn nested_groups(n: usize) -> Vec<u8> {
    let mut bytes = vec![0x2b; n];
    bytes.extend(vec![0x2c; n]);
    bytes
}

fn prost_skips(group: &[u8]) -> bool {
    let mut rest = &group[1..];
    let context = prost::encoding::DecodeContext::default();
    prost::encoding::skip_field(prost::encoding::WireType::StartGroup, 5, &mut rest, context).is_ok()
        && rest.is_empty()
}

#[test]
fn proposal_response_skips_groups() {
    // field 5 as a group holding a varint, then the proposal
    let bytes = vec![0x2b, 0x08, 0x01, 0x2c, 0x0a, 2, 0x18, 3];
    assert!(prost_skips(&bytes[..4]));
    assert_eq!(decode_proposal_response(&bytes), Some(Some(3)));
    // a group inside the proposal
    assert_eq!(decode_proposal_response(&[0x0a, 4, 0x2b, 0x2c, 0x18, 2]), Some(Some(2)));
    // an end key of another field closes nothing
    assert_eq!(decode_proposal_response(&[0x2b, 0x34]), None);
    // an end key with no group open
    assert_eq!(decode_proposal_response(&[0x2c]), None);
}

#[test]
fn proposal_response_group_nesting_limit() {
    assert!(prost_skips(&nested_groups(100)));
    assert!(!prost_skips(&nested_groups(101)));
    assert_eq!(decode_proposal_response(&nested_groups(100)), Some(None));
    assert_eq!(decode_proposal_response(&nested_groups(101)), None);
    // inside the proposal one level is already taken
    let mut bytes = Vec::new();
    prost::encoding::bytes::encode(1, &nested_groups(99), &mut bytes);
    assert_eq!(decode_proposal_response(&bytes), Some(Some(0)));
    let mut bytes = Vec::new();
    prost::encoding::bytes::encode(1, &nested_groups(100), &mut bytes);
    assert_eq!(decode_proposal_response(&bytes), None);
}
