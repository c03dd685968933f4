use vstd::prelude::*;
use vstd::utf8::encode_utf8;

verus! {

/// LEB128 encoding of `v`: seven bits per byte, low bits first, the high bit
/// set on every byte but the last.
pub open spec fn varint(v: nat) -> Seq<u8>
    decreases v,
{
    if v < 128 {
        seq![v as u8]
    } else {
        seq![(v % 128 + 128) as u8] + varint(v / 128)
    }
}

/// Wire type of varint fields.
pub const WIRE_VARINT: u64 = 0;

/// Wire type of length-delimited fields.
pub const WIRE_LEN: u64 = 2;

/// Key of field `field` with wire type `wire`.
pub open spec fn key_bytes(field: nat, wire: nat) -> Seq<u8> {
    varint(field * 8 + wire)
}

/// A length-delimited field, always present.
pub open spec fn len_field(field: nat, payload: Seq<u8>) -> Seq<u8> {
    key_bytes(field, WIRE_LEN as nat) + varint(payload.len()) + payload
}

/// A string field: absent when empty.
pub open spec fn string_field(field: nat, s: Seq<char>) -> Seq<u8> {
    if s.len() == 0 {
        Seq::empty()
    } else {
        len_field(field, encode_utf8(s))
    }
}

/// An unsigned varint field: absent when zero.
pub open spec fn uint_field(field: nat, v: nat) -> Seq<u8> {
    if v == 0 {
        Seq::empty()
    } else {
        key_bytes(field, WIRE_VARINT as nat) + varint(v)
    }
}

/// The 64-bit two's complement of `v`, as an `int32` travels.
pub open spec fn int32_wire(v: i32) -> nat {
    if v < 0 {
        (v + 0x1_0000_0000_0000_0000int) as nat
    } else {
        v as nat
    }
}

/// Decimal digits of `v` as ASCII.
pub open spec fn decimal_text(v: nat) -> Seq<u8>
    decreases v,
{
    if v < 10 {
        seq![(48 + v) as u8]
    } else {
        decimal_text(v / 10).push((48 + v % 10) as u8)
    }
}

/// Relies on prost's `encoding::bytes::encode`: it appends the key of field
/// `field` (length-delimited), the payload's length as a varint, then the
/// payload.
#[verifier::external_body]
fn put_len_field(buf: &mut Vec<u8>, field: u32, payload: &Vec<u8>)
    requires
        1 <= field <= 15,
    ensures
        final(buf)@ == old(buf)@ + len_field(field as nat, payload@),
{
    prost::encoding::bytes::encode(field, payload, buf)
}

/// Relies on prost's `encoding::string::encode`: it appends the key of field
/// `field` (length-delimited), the length of the text's UTF-8 bytes as a
/// varint, then those bytes.
#[verifier::external_body]
fn put_string(buf: &mut Vec<u8>, field: u32, s: &String)
    requires
        1 <= field <= 15,
    ensures
        final(buf)@ == old(buf)@ + len_field(field as nat, encode_utf8(s@)),
{
    prost::encoding::string::encode(field, s, buf)
}

/// Relies on prost's `encoding::uint64::encode`: it appends the key of field
/// `field` (varint), then `v` as a varint.
#[verifier::external_body]
fn put_uint64(buf: &mut Vec<u8>, field: u32, v: u64)
    requires
        1 <= field <= 15,
    ensures
        final(buf)@ == old(buf)@ + key_bytes(field as nat, WIRE_VARINT as nat) + varint(v as nat),
{
    prost::encoding::uint64::encode(field, &v, buf)
}

/// Relies on prost's `encoding::int32::encode`: it appends the key of field
/// `field` (varint), then `v` sign-extended to 64 bits as a varint.
#[verifier::external_body]
fn put_int32(buf: &mut Vec<u8>, field: u32, v: i32)
    requires
        1 <= field <= 15,
    ensures
        final(buf)@ == old(buf)@ + key_bytes(field as nat, WIRE_VARINT as nat) + varint(int32_wire(v)),
{
    prost::encoding::int32::encode(field, &v, buf)
}

proof fn lemma_utf8_empty(s: Seq<char>)
    ensures
        (encode_utf8(s).len() == 0) == (s.len() == 0),
{
    if s.len() > 0 {
        assert(vstd::utf8::encode_scalar(s[0] as u32).len() >= 1);
    }
}

/// A string field as a message writes it: nothing for the empty string.
fn put_string_field(buf: &mut Vec<u8>, field: u32, s: &String)
    requires
        1 <= field <= 15,
    ensures
        final(buf)@ == old(buf)@ + string_field(field as nat, s@),
{
    proof {
        lemma_utf8_empty(s@);
    }
    if s.as_str().unicode_len() == 0 {
        proof {
            assert(final(buf)@ =~= old(buf)@ + string_field(field as nat, s@));
        }
        return;
    }
    put_string(buf, field, s);
}

/// An unsigned field as a message writes it: nothing for zero.
fn put_uint_field(buf: &mut Vec<u8>, field: u32, v: u64)
    requires
        1 <= field <= 15,
    ensures
        final(buf)@ == old(buf)@ + uint_field(field as nat, v as nat),
{
    if v == 0 {
        proof {
            assert(final(buf)@ =~= old(buf)@ + uint_field(field as nat, v as nat));
        }
        return;
    }
    put_uint64(buf, field, v);
    proof {
        assert(final(buf)@ =~= old(buf)@ + uint_field(field as nat, v as nat));
    }
}

/// An `int32` field as a message writes it: nothing for zero.
fn put_int32_field(buf: &mut Vec<u8>, field: u32, v: i32)
    requires
        1 <= field <= 15,
    ensures
        final(buf)@ == old(buf)@ + uint_field(field as nat, int32_wire(v)),
{
    if v == 0 {
        proof {
            assert(final(buf)@ =~= old(buf)@ + uint_field(field as nat, int32_wire(v)));
        }
        return;
    }
    put_int32(buf, field, v);
    proof {
        assert(final(buf)@ =~= old(buf)@ + uint_field(field as nat, int32_wire(v)));
    }
}

fn put_decimal(buf: &mut Vec<u8>, v: u128)
    ensures
        final(buf)@ == old(buf)@ + decimal_text(v as nat),
    decreases v,
{
    if v >= 10 {
        put_decimal(buf, v / 10);
    }
    buf.push((48 + v % 10) as u8);
    proof {
        assert(final(buf)@ =~= old(buf)@ + decimal_text(v as nat));
    }
}

/// A `Coin` message: its denom, and its amount as decimal text.
pub open spec fn coin_bytes(denom: Seq<char>, amount: u128) -> Seq<u8> {
    string_field(1, denom) + len_field(2, decimal_text(amount as nat))
}

fn encode_coin(denom: &String, amount: u128) -> (r: Vec<u8>)
    ensures
        r@ == coin_bytes(denom@, amount),
{
    let mut buf: Vec<u8> = Vec::new();
    put_string_field(&mut buf, 1, denom);
    let mut digits: Vec<u8> = Vec::new();
    put_decimal(&mut digits, amount);
    proof {
        assert(digits@ =~= decimal_text(amount as nat));
    }
    put_len_field(&mut buf, 2, &digits);
    proof {
        assert(buf@ =~= coin_bytes(denom@, amount));
    }
    buf
}

/// A message for the ledger: its type and its protobuf encoding.
#[derive(Clone, Debug, PartialEq, Eq)]
pub struct AnyMsg {
    pub type_url: String,
    pub value: Vec<u8>,
}

/// Body of `MsgRedeemTokensForShares`.
pub open spec fn redeem_tokens_bytes(delegator: Seq<char>, denom: Seq<char>, amount: u128) -> Seq<u8> {
    string_field(1, delegator) + len_field(2, coin_bytes(denom, amount))
}

/// `MsgRedeemTokensForShares`: turn `amount` of receipt token `denom` back
/// into a delegation of `delegator_address`.
pub fn create_redeem_tokens_msg(delegator_address: &String, denom: &String, amount: u128) -> (r: AnyMsg)
    ensures
        r.type_url@ == "/gaia.liquid.v1beta1.MsgRedeemTokensForShares"@,
        r.value@ == redeem_tokens_bytes(delegator_address@, denom@, amount),
{
    let mut buf: Vec<u8> = Vec::new();
    put_string_field(&mut buf, 1, delegator_address);
    let coin = encode_coin(denom, amount);
    put_len_field(&mut buf, 2, &coin);
    proof {
        assert(buf@ =~= redeem_tokens_bytes(delegator_address@, denom@, amount));
    }
    AnyMsg { type_url: String::from_str("/gaia.liquid.v1beta1.MsgRedeemTokensForShares"), value: buf }
}

/// Body of `MsgTokenizeShares`.
pub open spec fn tokenize_shares_bytes(
    delegator: Seq<char>,
    validator: Seq<char>,
    amount: u128,
    denom: Seq<char>,
    owner: Seq<char>,
) -> Seq<u8> {
    string_field(1, delegator) + string_field(2, validator) + len_field(3, coin_bytes(denom, amount))
        + string_field(4, owner)
}

/// `MsgTokenizeShares`: turn `amount` (in `denom`) of `delegator_address`'s
/// delegation to `validator_address` into a receipt token owned by
/// `tokenized_share_owner`.
pub fn create_tokenize_shares_msg(
    delegator_address: &String,
    validator_address: &String,
    amount: u128,
    denom: &String,
    tokenized_share_owner: &String,
) -> (r: AnyMsg)
    ensures
        r.type_url@ == "/gaia.liquid.v1beta1.MsgTokenizeShares"@,
        r.value@ == tokenize_shares_bytes(
            delegator_address@,
            validator_address@,
            amount,
            denom@,
            tokenized_share_owner@,
        ),
{
    let mut buf: Vec<u8> = Vec::new();
    put_string_field(&mut buf, 1, delegator_address);
    put_string_field(&mut buf, 2, validator_address);
    let coin = encode_coin(denom, amount);
    put_len_field(&mut buf, 3, &coin);
    put_string_field(&mut buf, 4, tokenized_share_owner);
    proof {
        assert(buf@ =~= tokenize_shares_bytes(
            delegator_address@,
            validator_address@,
            amount,
            denom@,
            tokenized_share_owner@,
        ));
    }
    AnyMsg { type_url: String::from_str("/gaia.liquid.v1beta1.MsgTokenizeShares"), value: buf }
}

/// Body of `MsgVote`.
pub open spec fn vote_bytes(proposal_id: u64, voter: Seq<char>, option: i32) -> Seq<u8> {
    uint_field(1, proposal_id as nat) + string_field(2, voter) + uint_field(3, int32_wire(option))
}

/// `MsgVote`: `voter` votes `vote_option` on `proposal_id`.
pub fn create_vote_msg(voter: &String, proposal_id: u64, vote_option: i32) -> (r: AnyMsg)
    ensures
        r.type_url@ == "/cosmos.gov.v1beta1.MsgVote"@,
        r.value@ == vote_bytes(proposal_id, voter@, vote_option),
{
    let mut buf: Vec<u8> = Vec::new();
    put_uint_field(&mut buf, 1, proposal_id);
    put_string_field(&mut buf, 2, voter);
    put_int32_field(&mut buf, 3, vote_option);
    proof {
        assert(buf@ =~= vote_bytes(proposal_id, voter@, vote_option));
    }
    AnyMsg { type_url: String::from_str("/cosmos.gov.v1beta1.MsgVote"), value: buf }
}

/// Path of the governance query for one proposal.
pub const PROPOSAL_QUERY_PATH: &'static str = "/cosmos.gov.v1beta1.Query/Proposal";

/// Body of `QueryProposalRequest`.
pub fn encode_proposal_request(proposal_id: u64) -> (r: Vec<u8>)
    ensures
        r@ == uint_field(1, proposal_id as nat),
{
    let mut buf: Vec<u8> = Vec::new();
    put_uint_field(&mut buf, 1, proposal_id);
    proof {
        assert(buf@ =~= uint_field(1, proposal_id as nat));
    }
    buf
}


/// Where the varint at the front of `b` ends, looking from position `i`: just
/// after the first byte below 0x80 among the first ten, the tenth allowed
/// only 0 or 1 so that the value fits in 64 bits.
pub open spec fn varint_end(b: Seq<u8>, i: int) -> Option<int>
    decreases 10 - i,
{
    if i < 0 || i >= 10 || i >= b.len() {
        None
    } else if b[i] < 128 {
        if i == 9 && b[i] >= 2 {
            None
        } else {
            Some(i + 1)
        }
    } else {
        varint_end(b, i + 1)
    }
}

/// Value of LEB128 bytes: seven bits from each, low bits first.
pub open spec fn varint_value(b: Seq<u8>) -> nat
    decreases b.len(),
{
    if b.len() == 0 {
        0
    } else {
        (b[0] % 128) as nat + 128 * varint_value(b.drop_first())
    }
}

/// Relies on prost's `encoding::decode_varint`: it reads the varint at the
/// front (as `varint_end` delimits it) and leaves the rest; it fails when
/// there is none.
#[verifier::external_body]
fn take_varint(bytes: &[u8]) -> (r: Option<(u64, usize)>)
    ensures
        r is Some <==> varint_end(bytes@, 0) is Some,
        r matches Some((v, rest)) ==> rest == bytes@.len() - varint_end(bytes@, 0)->0 && v == varint_value(
            bytes@.subrange(0, varint_end(bytes@, 0)->0),
        ),
{
    let mut rest = bytes;
    prost::encoding::decode_varint(&mut rest).ok().map(|v| (v, rest.len()))
}

/// The varint at position `p` of `m`: its value and where it ends.
pub open spec fn varint_at(m: Seq<u8>, p: int) -> Option<(nat, int)> {
    if 0 <= p <= m.len() {
        match varint_end(m.subrange(p, m.len() as int), 0) {
            Some(e) => Some((varint_value(m.subrange(p, p + e)), p + e)),
            None => None,
        }
    } else {
        None
    }
}

fn read_varint(m: &[u8], p: usize) -> (r: Option<(u64, usize)>)
    requires
        p <= m@.len(),
    ensures
        r is Some <==> varint_at(m@, p as int) is Some,
        r matches Some((v, q)) ==> varint_at(m@, p as int) == Some((v as nat, q as int)) && p < q <= m@.len(),
{
    let tail = vstd::slice::slice_subrange(m, p, m.len());
    match take_varint(tail) {
        Some((v, rest)) => {
            proof {
                let e = varint_end(tail@, 0)->0;
                lemma_varint_end_bounds(tail@, 0);
                assert(tail@.subrange(0, e) =~= m@.subrange(p as int, p + e));
            }
            Some((v, m.len() - rest))
        },
        None => None,
    }
}

proof fn lemma_varint_end_bounds(b: Seq<u8>, i: int)
    requires
        varint_end(b, i) is Some,
    ensures
        i < varint_end(b, i)->0 <= b.len(),
    decreases 10 - i,
{
    if 0 <= i < 10 && i < b.len() && b[i] >= 128 {
        lemma_varint_end_bounds(b, i + 1);
    }
}

/// The `int32` a decoded varint stands for: its low 32 bits, two's
/// complement.
pub open spec fn int32_of(v: nat) -> i32 {
    let low = v % 0x1_0000_0000;
    if low >= 0x8000_0000 {
        (low - 0x1_0000_0000) as i32
    } else {
        low as i32
    }
}

fn to_int32(v: u64) -> (r: i32)
    ensures
        r == int32_of(v as nat),
{
    let low: u64 = v % 0x1_0000_0000;
    if low >= 0x8000_0000 {
        (low as i64 - 0x1_0000_0000) as i32
    } else {
        low as i32
    }
}

/// Where a value that is not a group, of wire type `wire` starting at `q`,
/// ends: a varint, eight bytes, a length-prefixed run, or four bytes. Other
/// wire types are refused here.
pub open spec fn skip_value(m: Seq<u8>, wire: nat, q: int) -> Option<int> {
    if wire == 0 {
        match varint_at(m, q) {
            Some((_, q2)) => Some(q2),
            None => None,
        }
    } else if wire == 1 {
        if q + 8 <= m.len() { Some(q + 8) } else { None }
    } else if wire == 2 {
        match varint_at(m, q) {
            Some((n, q2)) => if q2 + n <= m.len() { Some(q2 + n) } else { None },
            None => None,
        }
    } else if wire == 5 {
        if q + 4 <= m.len() { Some(q + 4) } else { None }
    } else {
        None
    }
}

/// Relies on prost's `encoding::skip_field` for a wire type other than a
/// group's: it passes over the value at the front (a varint, eight bytes, a
/// length-prefixed run or four bytes) and fails when it is not all there.
#[verifier::external_body]
fn skip_front_value(bytes: &[u8], field: u32, wire: u64) -> (r: Option<usize>)
    requires
        wire == 0 || wire == 1 || wire == 2 || wire == 5,
    ensures
        r is Some <==> skip_value(bytes@, wire as nat, 0) is Some,
        r matches Some(rest) ==> skip_value(bytes@, wire as nat, 0) == Some(bytes@.len() - rest),
{
    let wire_type = prost::encoding::WireType::try_from(wire).ok()?;
    let mut rest = bytes;
    let context = prost::encoding::DecodeContext::default();
    prost::encoding::skip_field(wire_type, field, &mut rest, context).ok().map(|_| rest.len())
}

proof fn lemma_varint_at_shift(m: Seq<u8>, q: int, k: int)
    requires
        0 <= q <= m.len(),
        0 <= k <= m.len() - q,
    ensures
        varint_at(m.subrange(q, m.len() as int), k) == match varint_at(m, q + k) {
            Some((v, e)) => Some((v, e - q)),
            None => None::<(nat, int)>,
        },
{
    let t = m.subrange(q, m.len() as int);
    assert(t.subrange(k, t.len() as int) =~= m.subrange(q + k, m.len() as int));
    if let Some(e) = varint_end(m.subrange(q + k, m.len() as int), 0) {
        lemma_varint_end_bounds(m.subrange(q + k, m.len() as int), 0);
        assert(t.subrange(k, k + e) =~= m.subrange(q + k, q + k + e));
    }
}

fn skip_field_value(m: &[u8], field: u32, wire: u64, q: usize) -> (r: Option<usize>)
    requires
        q <= m@.len(),
    ensures
        r.is_some() == skip_value(m@, wire as nat, q as int).is_some(),
        r matches Some(q2) ==> skip_value(m@, wire as nat, q as int) == Some(q2 as int) && q2 <= m@.len(),
{
    if !(wire == 0 || wire == 1 || wire == 2 || wire == 5) {
        return None;
    }
    let tail = vstd::slice::slice_subrange(m, q, m.len());
    proof {
        lemma_varint_at_shift(m@, q as int, 0);
        assert(tail@ =~= m@.subrange(q as int, m@.len() as int));
    }
    proof {
        if varint_end(tail@, 0) is Some {
            lemma_varint_end_bounds(tail@, 0);
        }
    }
    match skip_front_value(tail, field, wire) {
        Some(rest) => {
            Some(m.len() - rest)
        },
        None => None,
    }
}

/// Nesting allowance of a decode: a message read at the top starts with it,
/// and each level of nesting takes one away.
pub const RECURSION_LIMIT: u32 = 100;

/// Where the value of field `tag` of wire type `wire` starting at `q` ends,
/// with `depth` levels of nesting left: nothing once none are left; a group
/// runs to the end key of its own tag, its fields skipped one level deeper;
/// other values as [`skip_value`] has them.
pub open spec fn skip_at(m: Seq<u8>, wire: nat, tag: nat, q: int, depth: nat) -> Option<int>
    decreases m.len() - q, 1nat,
{
    if depth == 0 || q < 0 || q > m.len() {
        None
    } else if wire == 3 {
        group_rest(m, tag, q, depth)
    } else {
        skip_value(m, wire, q)
    }
}

/// Where the rest of group `tag` starting at `q` ends: just after the end key
/// of the same tag, the fields before it skipped one level deeper.
pub open spec fn group_rest(m: Seq<u8>, tag: nat, q: int, depth: nat) -> Option<int>
    decreases m.len() - q, 0nat,
{
    if q < 0 || q > m.len() {
        None
    } else {
        match key_at(m, q) {
            None => None,
            Some((t, w, q1)) => if w == 4 {
                if t == tag {
                    Some(q1)
                } else {
                    None
                }
            } else if q1 <= q || q1 > m.len() {
                None
            } else {
                match skip_at(m, w, t, q1, (depth - 1) as nat) {
                    Some(q2) => if q2 <= q || q2 > m.len() {
                        None
                    } else {
                        group_rest(m, tag, q2, depth)
                    },
                    None => None,
                }
            },
        }
    }
}

fn skip_field_at(m: &[u8], tag: u32, wire: u64, q: usize, depth: u32) -> (r: Option<usize>)
    requires
        q <= m@.len(),
    ensures
        r.is_some() == skip_at(m@, wire as nat, tag as nat, q as int, depth as nat).is_some(),
        r matches Some(q2) ==> skip_at(m@, wire as nat, tag as nat, q as int, depth as nat) == Some(q2 as int)
            && q2 <= m@.len(),
    decreases m@.len() - q, 1nat,
{
    if depth == 0 {
        return None;
    }
    if wire == 3 {
        return skip_group(m, tag, q, depth);
    }
    skip_field_value(m, tag, wire, q)
}

fn skip_group(m: &[u8], tag: u32, q: usize, depth: u32) -> (r: Option<usize>)
    requires
        q <= m@.len(),
        depth >= 1,
    ensures
        r.is_some() == group_rest(m@, tag as nat, q as int, depth as nat).is_some(),
        r matches Some(q2) ==> group_rest(m@, tag as nat, q as int, depth as nat) == Some(q2 as int) && q2
            <= m@.len(),
    decreases m@.len() - q, 0nat,
{
    let mut p = q;
    loop
        invariant
            q <= p <= m@.len(),
            depth >= 1,
            group_rest(m@, tag as nat, p as int, depth as nat) == group_rest(m@, tag as nat, q as int, depth as nat),
        decreases m@.len() - p,
    {
        let (t, w, p1) = match read_key(m, p) {
            Some(k) => k,
            None => {
                return None;
            },
        };
        if w == 4 {
            if t == tag {
                return Some(p1);
            } else {
                return None;
            }
        }
        match skip_field_at(m, t, w, p1, depth - 1) {
            Some(p2) => {
                if p2 <= p {
                    return None;
                }
                p = p2;
            },
            None => {
                return None;
            },
        }
    }
}

/// A field key: its tag and wire type, and where the key ends. Keys beyond
/// 32 bits, tag 0 and wire types 6 and 7 are refused.
pub open spec fn key_at(m: Seq<u8>, p: int) -> Option<(nat, nat, int)> {
    match varint_at(m, p) {
        Some((key, q)) => if key > u32::MAX || key / 8 == 0 || key % 8 >= 6 {
            None
        } else {
            Some((key / 8, key % 8, q))
        },
        None => None,
    }
}

/// Relies on prost's `encoding::decode_key`: it reads the key varint at the
/// front, refusing one beyond 32 bits, tag 0 and wire types 6 and 7, and
/// gives the tag, the wire type and what remains after the key.
#[verifier::external_body]
fn take_key(bytes: &[u8]) -> (r: Option<(u32, u64, usize)>)
    ensures
        r is Some <==> key_at(bytes@, 0) is Some,
        r matches Some((tag, wire, rest)) ==> key_at(bytes@, 0) == Some(
            (tag as nat, wire as nat, bytes@.len() - rest),
        ),
{
    let mut rest = bytes;
    prost::encoding::decode_key(&mut rest).ok().map(|(tag, wire)| (tag, wire as u64, rest.len()))
}

fn read_key(m: &[u8], p: usize) -> (r: Option<(u32, u64, usize)>)
    requires
        p <= m@.len(),
    ensures
        r.is_some() == key_at(m@, p as int).is_some(),
        r matches Some((tag, wire, q)) ==> key_at(m@, p as int) == Some((tag as nat, wire as nat, q as int)) && p
            < q <= m@.len(),
{
    let tail = vstd::slice::slice_subrange(m, p, m.len());
    proof {
        lemma_varint_at_shift(m@, p as int, 0);
        assert(tail@ =~= m@.subrange(p as int, m@.len() as int));
        if let Some(e) = varint_end(tail@, 0) {
            lemma_varint_end_bounds(tail@, 0);
        }
    }
    match take_key(tail) {
        Some((tag, wire, rest)) => Some((tag, wire, m.len() - rest)),
        None => None,
    }
}

/// The status a `Proposal` message carries, read from position `p` of its
/// bytes `m` with `status` seen so far: its `proposal_id` (field 1) and
/// `status` (field 3) must be varints, the last status wins, other fields
/// are skipped (one level of nesting below the answer). Nothing comes out of
/// a malformed message.
pub open spec fn proposal_status(m: Seq<u8>, p: int, status: i32) -> Option<i32>
    decreases m.len() - p,
{
    if p < 0 || p > m.len() {
        None
    } else if p == m.len() {
        Some(status)
    } else {
        match key_at(m, p) {
            None => None,
            Some((tag, wire, q)) => if tag == 1 || tag == 3 {
                if wire != 0 {
                    None
                } else {
                    match varint_at(m, q) {
                        Some((v, q2)) => if q2 <= p || q2 > m.len() {
                            None
                        } else {
                            proposal_status(m, q2, if tag == 3 { int32_of(v) } else { status })
                        },
                        None => None,
                    }
                }
            } else {
                match skip_at(m, wire, tag, q, (RECURSION_LIMIT - 1) as nat) {
                    Some(q2) => if q2 <= p || q2 > m.len() { None } else { proposal_status(m, q2, status) },
                    None => None,
                }
            },
        }
    }
}

fn decode_proposal_status(m: &[u8], initial: i32) -> (r: Option<i32>)
    ensures
        r == proposal_status(m@, 0, initial),
{
    let mut p: usize = 0;
    let mut status = initial;
    while p < m.len()
        invariant
            p <= m@.len(),
            proposal_status(m@, p as int, status) == proposal_status(m@, 0, initial),
        decreases m@.len() - p,
    {
        let (tag, wire, q) = match read_key(m, p) {
            Some(k) => k,
            None => {
                return None;
            },
        };
        if tag == 1 || tag == 3 {
            if wire != 0 {
                return None;
            }
            match read_varint(m, q) {
                Some((v, q2)) => {
                    if tag == 3 {
                        status = to_int32(v);
                    }
                    p = q2;
                },
                None => {
                    return None;
                },
            }
        } else {
            match skip_field_at(m, tag, wire, q, RECURSION_LIMIT - 1) {
                Some(q2) => {
                    if q2 <= p {
                        return None;
                    }
                    p = q2;
                },
                None => {
                    return None;
                },
            }
        }
    }
    Some(status)
}


/// The proposal status a `QueryProposalResponse` carries, read from position
/// `p` of its bytes `b` with `found` the status so far: its `proposal`
/// (field 1) must be length-delimited, and every occurrence is merged into
/// the one before (a proposal without a status field has status 0); other
/// fields are skipped. `Some(None)`: no proposal; `None`: malformed.
pub open spec fn response_status(b: Seq<u8>, p: int, found: Option<i32>) -> Option<Option<i32>>
    decreases b.len() - p,
{
    if p < 0 || p > b.len() {
        None
    } else if p == b.len() {
        Some(found)
    } else {
        match key_at(b, p) {
            None => None,
            Some((tag, wire, q)) => if tag == 1 {
                if wire != 2 {
                    None
                } else {
                    match varint_at(b, q) {
                        Some((n, q2)) => if q2 < 0 || q2 + n > b.len() || q2 + n <= p {
                            None
                        } else {
                            let prior = match found {
                                Some(s) => s,
                                None => 0i32,
                            };
                            match proposal_status(b.subrange(q2, q2 + n), 0, prior) {
                                Some(s) => response_status(b, q2 + n, Some(s)),
                                None => None,
                            }
                        },
                        None => None,
                    }
                }
            } else {
                match skip_at(b, wire, tag, q, RECURSION_LIMIT as nat) {
                    Some(q2) => if q2 <= p || q2 > b.len() { None } else { response_status(b, q2, found) },
                    None => None,
                }
            },
        }
    }
}

/// Decodes the status out of a `QueryProposalResponse`: `Some(None)` when it
/// holds no proposal, `None` when the bytes are malformed.
pub fn decode_proposal_response(b: &[u8]) -> (r: Option<Option<i32>>)
    ensures
        r == response_status(b@, 0, None),
{
    let mut p: usize = 0;
    let mut found: Option<i32> = None;
    while p < b.len()
        invariant
            p <= b@.len(),
            response_status(b@, p as int, found) == response_status(b@, 0, None),
        decreases b@.len() - p,
    {
        let (tag, wire, q) = match read_key(b, p) {
            Some(k) => k,
            None => {
                return None;
            },
        };
        if tag == 1 {
            if wire != 2 {
                return None;
            }
            let (n, q2) = match read_varint(b, q) {
                Some(x) => x,
                None => {
                    return None;
                },
            };
            if n > (b.len() - q2) as u64 {
                return None;
            }
            let end = q2 + n as usize;
            if end <= p {
                return None;
            }
            let prior = match found {
                Some(s) => s,
                None => 0,
            };
            let inner = vstd::slice::slice_subrange(b, q2, end);
            match decode_proposal_status(inner, prior) {
                Some(s) => {
                    found = Some(s);
                    p = end;
                },
                None => {
                    return None;
                },
            }
        } else {
            match skip_field_at(b, tag, wire, q, RECURSION_LIMIT) {
                Some(q2) => {
                    if q2 <= p {
                        return None;
                    }
                    p = q2;
                },
                None => {
                    return None;
                },
            }
        }
    }
    Some(found)
}

/// What a proposal query came to: `response` is the ledger's answer, or
/// nothing when the query failed.
pub fn proposal_lookup(response: Option<&Vec<u8>>) -> (r: crate::gov::ProposalLookup)
    ensures
        response is None ==> r == crate::gov::ProposalLookup::Unavailable,
        response matches Some(b) ==> r == match response_status(b@, 0, None) {
            Some(status) => crate::gov::ProposalLookup::Answered(status),
            None => crate::gov::ProposalLookup::Malformed,
        },
{
    match response {
        None => crate::gov::ProposalLookup::Unavailable,
        Some(b) => match decode_proposal_response(b.as_slice()) {
            Some(status) => crate::gov::ProposalLookup::Answered(status),
            None => crate::gov::ProposalLookup::Malformed,
        },
    }
}

} // verus!
