use vstd::prelude::*;

use crate::ledger::Coin;

verus! {

pub open spec fn is_digit(c: char) -> bool {
    '0' <= c && c <= '9'
}

/// Value of a string of decimal digits.
pub open spec fn digits_value(s: Seq<char>) -> nat
    decreases s.len(),
{
    if s.len() == 0 {
        0
    } else {
        digits_value(s.drop_last()) * 10 + ((s.last() as u32) - ('0' as u32)) as nat
    }
}

/// What `u64`'s `FromStr` accepts: an optional `+`, then one or more decimal
/// digits whose value fits in 64 bits.
pub open spec fn is_u64_text(s: Seq<char>) -> bool {
    let d = if s.len() > 0 && s[0] == '+' { s.subrange(1, s.len() as int) } else { s };
    &&& d.len() > 0
    &&& forall|i: int| 0 <= i < d.len() ==> is_digit(#[trigger] d[i])
    &&& digits_value(d) <= u64::MAX
}

/// Relies on std's `str::parse::<u64>`: it succeeds exactly on an optional
/// `+` followed by decimal digits whose value fits in a `u64`.
#[verifier::external_body]
fn parses_as_u64(s: &str) -> (r: bool)
    ensures
        r == is_u64_text(s@),
{
    s.parse::<u64>().is_ok()
}

pub open spec fn has_prefix(s: Seq<char>, p: Seq<char>) -> bool {
    p.len() <= s.len() && s.subrange(0, p.len() as int) == p
}

/// Whether `s` starts with `p`.
pub fn starts_with(s: &str, p: &str) -> (r: bool)
    ensures
        r == has_prefix(s@, p@),
{
    let n = s.unicode_len();
    let m = p.unicode_len();
    if m > n {
        return false;
    }
    let mut i: usize = 0;
    while i < m
        invariant
            n == s@.len(),
            m == p@.len(),
            m <= n,
            i <= m,
            forall|j: int| 0 <= j < i ==> s@[j] == p@[j],
        decreases m - i,
    {
        if s.get_char(i) != p.get_char(i) {
            assert(s@.subrange(0, m as int)[i as int] != p@[i as int]);
            return false;
        }
        i += 1;
    }
    assert(s@.subrange(0, m as int) =~= p@);
    true
}

pub open spec fn no_slash_in(s: Seq<char>, lo: int, hi: int) -> bool {
    forall|j: int| lo <= j < hi ==> #[trigger] s[j] != '/'
}

/// `s` holds exactly one `/`, at `p`.
pub open spec fn single_slash_at(s: Seq<char>, p: int) -> bool {
    &&& 0 <= p < s.len()
    &&& s[p] == '/'
    &&& no_slash_in(s, 0, p)
    &&& no_slash_in(s, p + 1, s.len() as int)
}

/// Validator part of a receipt denom: it must carry one of the recognised
/// operator-address prefixes.
pub open spec fn is_valoper(v: Seq<char>) -> bool {
    has_prefix(v, "cosmosvaloper"@) || has_prefix(v, "osmosisvaloper"@)
}

/// Why a receipt denom was refused.
#[derive(Clone, Copy, Debug, PartialEq, Eq, Structural)]
pub enum DenomError {
    /// Not of the form `{validator}/{record_id}`.
    Format,
    /// The validator part lacks an operator-address prefix.
    Validator,
    /// The record id is not an unsigned 64-bit number.
    RecordId,
}

/// The outcome of parsing receipt denom `s`.
pub open spec fn parse_denom_spec(s: Seq<char>) -> Result<(Seq<char>, Seq<char>), DenomError> {
    if exists|p: int| single_slash_at(s, p) {
        let p = choose|p: int| single_slash_at(s, p);
        let validator = s.subrange(0, p);
        let record_id = s.subrange(p + 1, s.len() as int);
        if !is_valoper(validator) {
            Err(DenomError::Validator)
        } else if !is_u64_text(record_id) {
            Err(DenomError::RecordId)
        } else {
            Ok((validator, record_id))
        }
    } else {
        Err(DenomError::Format)
    }
}

proof fn lemma_single_slash_unique(s: Seq<char>, p: int, q: int)
    requires
        single_slash_at(s, p),
        single_slash_at(s, q),
    ensures
        p == q,
{
    if p < q {
        assert(s[p] == '/');
    } else if q < p {
        assert(s[q] == '/');
    }
}

/// Position of the only `/` of `s`, if it has exactly one.
fn find_single_slash(s: &str) -> (r: Option<usize>)
    ensures
        r matches Some(p) ==> single_slash_at(s@, p as int),
        r is None ==> !exists|p: int| single_slash_at(s@, p),
{
    let n = s.unicode_len();
    let mut pos: Option<usize> = None;
    let mut i: usize = 0;
    while i < n
        invariant
            n == s@.len(),
            i <= n,
            pos is None ==> no_slash_in(s@, 0, i as int),
            pos matches Some(p) ==> p < i && s@[p as int] == '/' && no_slash_in(s@, 0, p as int)
                && no_slash_in(s@, p + 1, i as int),
        decreases n - i,
    {
        if s.get_char(i) == '/' {
            if let Some(p) = pos {
                assert forall|q: int| !single_slash_at(s@, q) by {
                    if single_slash_at(s@, q) {
                        if q < p {
                            assert(s@[p as int] == '/');
                        } else if q > p {
                            assert(s@[p as int] == '/');
                        } else {
                            assert(s@[i as int] == '/');
                        }
                    }
                }
                return None;
            }
            pos = Some(i);
        }
        i += 1;
    }
    if pos.is_none() {
        assert forall|q: int| !single_slash_at(s@, q) by {
            if single_slash_at(s@, q) {
                assert(s@[q] == '/');
            }
        }
    }
    pos
}

/// Splits a receipt denom `{validator}/{record_id}` into its two parts,
/// checking that the validator part has an operator-address prefix and that
/// the record id is an unsigned 64-bit number.
pub fn parse_receipt_denom(s: &str) -> (r: Result<(String, String), DenomError>)
    ensures
        r matches Ok((v, id)) ==> parse_denom_spec(s@) == Ok::<(Seq<char>, Seq<char>), DenomError>((v@, id@)),
        r matches Err(e) ==> parse_denom_spec(s@) == Err::<(Seq<char>, Seq<char>), DenomError>(e),
{
    let p = match find_single_slash(s) {
        Some(p) => p,
        None => return Err(DenomError::Format),
    };
    proof {
        let q = choose|q: int| single_slash_at(s@, q);
        lemma_single_slash_unique(s@, p as int, q);
    }
    let n = s.unicode_len();
    let validator = s.substring_char(0, p);
    let record_id = s.substring_char(p + 1, n);
    if !starts_with(validator, "cosmosvaloper") && !starts_with(validator, "osmosisvaloper") {
        return Err(DenomError::Validator);
    }
    if !parses_as_u64(record_id) {
        return Err(DenomError::RecordId);
    }
    Ok((String::from_str(validator), String::from_str(record_id)))
}

/// Whether `denom` is a receipt token of `validator`: it starts with
/// `{validator}/`.
pub open spec fn is_receipt_of(denom: Seq<char>, validator: Seq<char>) -> bool {
    &&& denom.len() > validator.len()
    &&& denom.subrange(0, validator.len() as int) == validator
    &&& denom[validator.len() as int] == '/'
}

/// Index of the first coin in `balances` that is a receipt token of
/// `validator`.
pub fn find_receipt(balances: &Vec<Coin>, validator: &String) -> (r: Option<usize>)
    ensures
        r matches Some(i) ==> i < balances@.len() && is_receipt_of(balances@[i as int].denom@, validator@)
            && forall|j: int| 0 <= j < i ==> !is_receipt_of(#[trigger] balances@[j].denom@, validator@),
        r is None ==> forall|j: int| 0 <= j < balances@.len() ==> !is_receipt_of(#[trigger] balances@[j].denom@, validator@),
{
    let vlen = validator.as_str().unicode_len();
    let mut i: usize = 0;
    while i < balances.len()
        invariant
            i <= balances@.len(),
            vlen == validator@.len(),
            forall|j: int| 0 <= j < i ==> !is_receipt_of(#[trigger] balances@[j].denom@, validator@),
        decreases balances@.len() - i,
    {
        let denom = balances[i].denom.as_str();
        if starts_with(denom, validator.as_str()) && denom.unicode_len() > vlen {
            if denom.get_char(vlen) == '/' {
                return Some(i);
            }
        }
        i += 1;
    }
    None
}

} // verus!
