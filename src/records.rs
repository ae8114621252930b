//! Prefixed records and balance reads: what a record's fields mean, the
//! commands of a pipelined balance read, and the alignment of its replies.

use vstd::prelude::*;
use crate::decimal::{parse_u64, parse_u64_spec};
use crate::keys::{key_of, prefixed_key, Prefix};

verus! {

/// The value that marks a full-access key in a public-key record.
pub open spec fn full_access_flag() -> Seq<char> {
    seq!['f']
}

/// Each field with its value read as a block height.
pub open spec fn parsed_record(fields: Seq<(String, String)>) -> Seq<(String, Option<u64>)> {
    fields.map_values(|f: (String, String)| (f.0, parse_u64_spec(f.1@)))
}

/// Parses each field's value as a block height; a value that is not a
/// number gives none for that field alone. An absent record has no fields
/// and gives none.
pub fn parse_record(fields: Vec<(String, String)>) -> (r: Vec<(String, Option<u64>)>)
    ensures
        r@ == parsed_record(fields@),
{
    let mut out: Vec<(String, Option<u64>)> = Vec::new();
    let mut rest = fields;
    let ghost n = rest.len();
    let mut reversed: Vec<(String, String)> = Vec::new();
    while rest.len() > 0
        invariant
            rest.len() + reversed.len() == n,
            forall|i: int| 0 <= i < rest.len() ==> #[trigger] rest@[i] == fields@[i],
            forall|i: int| 0 <= i < reversed.len() ==> #[trigger] reversed@[i] == fields@[n - 1 - i],
        decreases rest.len(),
    {
        let field = rest.pop().unwrap();
        reversed.push(field);
    }
    while reversed.len() > 0
        invariant
            out.len() + reversed.len() == n,
            forall|i: int| 0 <= i < reversed.len() ==> #[trigger] reversed@[i] == fields@[n - 1 - i],
            forall|i: int|
                0 <= i < out.len() ==> {
                    &&& (#[trigger] out@[i]).0 == fields@[i].0
                    &&& out@[i].1 == parse_u64_spec(fields@[i].1@)
                },
        decreases reversed.len(),
    {
        let (name, value) = reversed.pop().unwrap();
        let height = parse_u64(value.as_str());
        out.push((name, height));
    }
    assert(out@ =~= parsed_record(fields@));
    out
}

/// A record that does not exist reads as no fields, and parsing it, or
/// listing its full-access accounts, gives nothing rather than a failure.
pub proof fn law_absent_record_is_empty()
    ensures
        parsed_record(Seq::empty()) == Seq::<(String, Option<u64>)>::empty(),
        full_access_spec(Seq::empty()) == Seq::<Seq<char>>::empty(),
{
    assert(parsed_record(Seq::empty()) =~= Seq::<(String, Option<u64>)>::empty());
}

/// A field whose value is not a number parses to none, and what it holds
/// changes no other field's result.
pub proof fn law_malformed_value_is_isolated(
    fields: Seq<(String, String)>,
    i: int,
    value: String,
)
    requires
        0 <= i < fields.len(),
        !crate::decimal::is_decimal(value@),
    ensures
        parsed_record(fields.update(i, (fields[i].0, value)))[i] == (fields[i].0, None::<u64>),
        forall|j: int|
            0 <= j < fields.len() && j != i ==> #[trigger] parsed_record(
                fields.update(i, (fields[i].0, value)),
            )[j] == parsed_record(fields)[j],
{
}

/// The names of a record's fields, in order.
pub fn field_names(fields: &Vec<(String, String)>) -> (r: Vec<String>)
    ensures
        r.len() == fields.len(),
        forall|i: int| 0 <= i < r.len() ==> (#[trigger] r@[i])@ == fields@[i].0@,
{
    let mut names: Vec<String> = Vec::new();
    for i in 0..fields.len()
        invariant
            names.len() == i,
            forall|k: int| 0 <= k < i ==> (#[trigger] names@[k])@ == fields@[k].0@,
    {
        names.push(fields[i].0.clone());
    }
    names
}

/// The accounts of a public-key record whose flag marks a full-access key.
pub open spec fn full_access_spec(fields: Seq<(String, String)>) -> Seq<Seq<char>>
    decreases fields.len(),
{
    if fields.len() == 0 {
        Seq::empty()
    } else {
        let rest = full_access_spec(fields.drop_last());
        if fields.last().1@ == full_access_flag() {
            rest.push(fields.last().0@)
        } else {
            rest
        }
    }
}

/// The accounts of a public-key record that hold the key with full access,
/// in record order.
pub fn full_access_accounts(fields: &Vec<(String, String)>) -> (r: Vec<String>)
    ensures
        r@.map_values(|s: String| s@) == full_access_spec(fields@),
{
    let flag = String::from_str("f");
    proof {
        reveal_strlit("f");
    }
    let mut accounts: Vec<String> = Vec::new();
    for i in 0..fields.len()
        invariant
            flag@ == full_access_flag(),
            accounts@.map_values(|s: String| s@) == full_access_spec(fields@.subrange(0, i as int)),
    {
        assert(fields@.subrange(0, i + 1).drop_last() =~= fields@.subrange(0, i as int));
        if fields[i].1 == flag {
            let ghost before = accounts@;
            accounts.push(fields[i].0.clone());
            assert(accounts@.map_values(|s: String| s@) =~= before.map_values(|s: String| s@).push(
                fields@[i as int].0@,
            ));
        }
    }
    assert(fields@.subrange(0, fields.len() as int) =~= fields@);
    accounts
}

/// The pipelined commands that read the balances of (token, account) pairs:
/// one field read of `b:<token>` for the account, per pair, in order.
pub fn balance_requests(pairs: &Vec<(String, String)>) -> (r: Vec<(String, String)>)
    ensures
        r.len() == pairs.len(),
        forall|i: int|
            0 <= i < r.len() ==> {
                &&& (#[trigger] r@[i]).0@ == key_of(Prefix::Balance, pairs@[i].0@)
                &&& r@[i].1@ == pairs@[i].1@
            },
{
    let mut requests: Vec<(String, String)> = Vec::new();
    for i in 0..pairs.len()
        invariant
            requests.len() == i,
            forall|k: int|
                0 <= k < i ==> {
                    &&& (#[trigger] requests@[k]).0@ == key_of(Prefix::Balance, pairs@[k].0@)
                    &&& requests@[k].1@ == pairs@[k].1@
                },
    {
        let key = prefixed_key(Prefix::Balance, pairs[i].0.as_str());
        requests.push((key, pairs[i].1.clone()));
    }
    requests
}

/// A batch of reads always yields one entry per request, and a request
/// whose reply is missing leaves every other entry as it was.
pub proof fn law_missing_reply_is_isolated(n: nat, replies: Seq<Option<String>>, i: int)
    requires
        0 <= i < replies.len(),
    ensures
        aligned(n, replies).len() == n,
        aligned(n, replies.update(i, None)).len() == n,
        i < n ==> aligned(n, replies.update(i, None))[i] is None,
        forall|j: int|
            0 <= j < n && j != i ==> #[trigger] aligned(n, replies.update(i, None))[j] == aligned(
                n,
                replies,
            )[j],
{
}

/// The `i`-th reply of a batch of `n` reads, or none where it is missing.
pub open spec fn aligned(n: nat, replies: Seq<Option<String>>) -> Seq<Option<String>> {
    Seq::new(n, |i: int| if i < replies.len() { replies[i] } else { None })
}

/// Aligns the replies of a batch of `n` balance reads with its requests:
/// one entry per request, in order, a missing reply reading as an unknown
/// balance.
pub fn aligned_balances(n: usize, replies: Vec<Option<String>>) -> (r: Vec<Option<String>>)
    ensures
        r@ == aligned(n as nat, replies@),
{
    let mut out = replies;
    out.truncate(n);
    while out.len() < n
        invariant
            out.len() <= n,
            replies@.len() <= out.len() || out.len() == n,
            forall|i: int| 0 <= i < out.len() ==> #[trigger] out@[i] == aligned(n as nat, replies@)[i],
        decreases n - out.len(),
    {
        out.push(None);
    }
    assert(out@ =~= aligned(n as nat, replies@));
    out
}

/// A fungible token of an account: its contract, the height at which the
/// account last touched it, and the balance read for it.
pub struct TokenHolding {
    pub contract_id: String,
    pub last_update_block_height: Option<u64>,
    pub balance: Option<String>,
}

/// Pairs each token of an account's record with the balance read at the
/// same position; a token with no balance read has none.
pub fn token_holdings(tokens: Vec<(String, Option<u64>)>, balances: Vec<Option<String>>) -> (r: Vec<TokenHolding>)
    ensures
        r.len() == tokens.len(),
        forall|i: int|
            0 <= i < r.len() ==> {
                &&& (#[trigger] r@[i]).contract_id == tokens@[i].0
                &&& r@[i].last_update_block_height == tokens@[i].1
                &&& r@[i].balance == aligned(tokens.len() as nat, balances@)[i]
            },
{
    let n = tokens.len();
    let mut rest_balances = aligned_balances(n, balances);
    let mut rest_tokens = tokens;
    let mut reversed: Vec<TokenHolding> = Vec::new();
    while rest_tokens.len() > 0
        invariant
            rest_tokens.len() == rest_balances.len(),
            rest_tokens.len() + reversed.len() == n,
            n == tokens.len(),
            forall|i: int| 0 <= i < rest_tokens.len() ==> #[trigger] rest_tokens@[i] == tokens@[i],
            forall|i: int| 0 <= i < rest_balances.len() ==> #[trigger] rest_balances@[i] == aligned(n as nat, balances@)[i],
            forall|i: int|
                0 <= i < reversed.len() ==> {
                    &&& (#[trigger] reversed@[i]).contract_id == tokens@[n - 1 - i].0
                    &&& reversed@[i].last_update_block_height == tokens@[n - 1 - i].1
                    &&& reversed@[i].balance == aligned(n as nat, balances@)[n - 1 - i]
                },
        decreases rest_tokens.len(),
    {
        let (contract_id, last_update_block_height) = rest_tokens.pop().unwrap();
        let balance = rest_balances.pop().unwrap();
        reversed.push(TokenHolding { contract_id, last_update_block_height, balance });
    }
    let mut out: Vec<TokenHolding> = Vec::new();
    while reversed.len() > 0
        invariant
            out.len() + reversed.len() == n,
            n == tokens.len(),
            forall|i: int|
                0 <= i < reversed.len() ==> {
                    &&& (#[trigger] reversed@[i]).contract_id == tokens@[n - 1 - i].0
                    &&& reversed@[i].last_update_block_height == tokens@[n - 1 - i].1
                    &&& reversed@[i].balance == aligned(n as nat, balances@)[n - 1 - i]
                },
            forall|i: int|
                0 <= i < out.len() ==> {
                    &&& (#[trigger] out@[i]).contract_id == tokens@[i].0
                    &&& out@[i].last_update_block_height == tokens@[i].1
                    &&& out@[i].balance == aligned(n as nat, balances@)[i]
                },
        decreases reversed.len(),
    {
        let holding = reversed.pop().unwrap();
        out.push(holding);
    }
    out
}

/// The stored state of an account: an empty value counts as none.
pub fn stored_account_state(raw: Option<String>) -> (r: Option<String>)
    ensures
        r == match raw {
            Some(s) => if s@.len() == 0 {
                None
            } else {
                Some(s)
            },
            None => None,
        },
{
    match raw {
        Some(s) => {
            if s.as_str().is_empty() {
                None
            } else {
                Some(s)
            }
        },
        None => None,
    }
}

} // verus!
