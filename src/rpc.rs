//! The remote balance fallback: one batched request of `ft_balance_of` calls,
//! and the replies matched back to the token that each call asked about.
//! Sending the request and reading the replies is left to the caller.

use vstd::prelude::*;
use vstd::utf8::encode_utf8;
use crate::decimal::{decimal_string, decimal_text, parse_u128, parse_u128_spec};
use crate::opt_view;

verus! {

/// `reqwest::Error`, the transport failure of the request, carried through
/// as it is.
#[verifier::external_type_specification]
#[verifier::external_body]
pub struct ExReqwestError(reqwest::Error);

/// Why the fallback as a whole failed.
#[derive(Debug)]
pub enum RpcError {
    /// The request could not be sent or its reply not read.
    ReqwestError(reqwest::Error),
    /// A reply names a call that was not in the request.
    InvalidJsonRpcResponse,
}

/// One `ft_balance_of` call of the batch: `id` correlates the reply,
/// `token_id` is the contract called and `args_base64` its arguments.
pub struct BalanceCall {
    pub id: String,
    pub token_id: String,
    pub args_base64: String,
}

/// What a reply carried for its call.
pub enum CallOutcome {
    /// The reply had no result.
    NoResult,
    /// The result was not a function-call result.
    Malformed,
    /// The bytes that the called function returned.
    Returned(Vec<u8>),
}

/// A reply, with the correlation id it carried.
pub struct CallReply {
    pub id: String,
    pub outcome: CallOutcome,
}

/// The JSON arguments `{"account_id": "<account_id>"}`.
pub open spec fn balance_args(account_id: Seq<char>) -> Seq<char> {
    seq!['{', '"', 'a', 'c', 'c', 'o', 'u', 'n', 't', '_', 'i', 'd', '"', ':', ' ', '"']
        + account_id + seq!['"', '}']
}

/// The standard base64 text of `bytes`, with padding.
pub uninterp spec fn base64_standard(bytes: Seq<u8>) -> Seq<char>;

/// The string that `bytes` holds as a JSON string, if they hold one.
pub uninterp spec fn json_string(bytes: Seq<u8>) -> Option<Seq<char>>;

/// Relies on base64's `Engine::encode` with the `STANDARD` engine, which
/// depends on the bytes alone.
#[verifier::external_body]
fn encode_base64(bytes: &[u8]) -> (r: String)
    ensures
        r@ == base64_standard(bytes@),
{
    base64::Engine::encode(&base64::engine::general_purpose::STANDARD, bytes)
}

/// Relies on `serde_json::from_slice::<String>`, which accepts exactly the
/// byte strings that hold one JSON string.
#[verifier::external_body]
fn decode_json_string(bytes: &[u8]) -> (r: Option<String>)
    ensures
        opt_view(r) == json_string(bytes@),
{
    serde_json::from_slice::<String>(bytes).ok()
}

/// The arguments of `ft_balance_of` for `account_id`, as JSON text.
pub fn balance_args_text(account_id: &str) -> (r: String)
    ensures
        r@ == balance_args(account_id@),
{
    proof {
        reveal_strlit("{\"account_id\": \"");
        reveal_strlit("\"}");
    }
    let mut args = String::from_str("{\"account_id\": \"");
    args.append(account_id);
    args.append("\"}");
    args
}

/// The calls of one batch: the `i`-th asks the `i`-th token for
/// `account_id`'s balance, under the correlation id `i`.
pub fn balance_calls(account_id: &str, token_ids: &Vec<String>) -> (r: Vec<BalanceCall>)
    ensures
        r.len() == token_ids.len(),
        forall|i: int|
            0 <= i < r.len() ==> {
                &&& (#[trigger] r@[i]).id@ == decimal_text(i as nat)
                &&& r@[i].token_id@ == token_ids@[i]@
                &&& r@[i].args_base64@ == base64_standard(encode_utf8(balance_args(account_id@)))
            },
{
    let args = balance_args_text(account_id);
    let args_base64 = encode_base64(args.as_str().as_bytes());
    let mut calls: Vec<BalanceCall> = Vec::new();
    for i in 0..token_ids.len()
        invariant
            calls.len() == i,
            args_base64@ == base64_standard(encode_utf8(balance_args(account_id@))),
            forall|k: int|
                0 <= k < i ==> {
                    &&& (#[trigger] calls@[k]).id@ == decimal_text(k as nat)
                    &&& calls@[k].token_id@ == token_ids@[k]@
                    &&& calls@[k].args_base64@ == args_base64@
                },
    {
        calls.push(
            BalanceCall {
                id: decimal_string(i as u128),
                token_id: token_ids[i].clone(),
                args_base64: args_base64.clone(),
            },
        );
    }
    calls
}

/// A balance as text, in canonical form: text that is not an unsigned
/// 128-bit integer gives none.
pub open spec fn canonical_balance_spec(text: Option<Seq<char>>) -> Option<Seq<char>> {
    match text {
        Some(s) => match parse_u128_spec(s) {
            Some(v) => Some(decimal_text(v as nat)),
            None => None,
        },
        None => None,
    }
}

/// The balance that a call's outcome reports.
pub open spec fn reply_balance(outcome: CallOutcome) -> Option<Seq<char>> {
    match outcome {
        CallOutcome::Returned(bytes) => canonical_balance_spec(json_string(bytes@)),
        _ => None,
    }
}

/// Writes a balance in canonical form, as the fallback reports it.
pub fn canonical_balance(text: Option<String>) -> (r: Option<String>)
    ensures
        opt_view(r) == canonical_balance_spec(opt_view(text)),
{
    match text {
        Some(s) => match parse_u128(s.as_str()) {
            Some(v) => Some(decimal_string(v)),
            None => None,
        },
        None => None,
    }
}

/// The balance that a call's outcome reports: a missing result, a result of
/// the wrong shape, or returned bytes that are not a JSON string holding an
/// unsigned integer all give none.
pub fn outcome_balance(outcome: &CallOutcome) -> (r: Option<String>)
    ensures
        opt_view(r) == reply_balance(*outcome),
{
    match outcome {
        CallOutcome::Returned(bytes) => canonical_balance(decode_json_string(bytes.as_slice())),
        _ => None,
    }
}

/// The position in the batch that a reply answers, if its id names one.
pub open spec fn reply_index(reply: CallReply, n: nat) -> Option<nat> {
    match crate::decimal::parse_unsigned(reply.id@, u128::MAX as nat) {
        Some(i) => if i < n {
            Some(i)
        } else {
            None
        },
        None => None,
    }
}

/// Every reply names a call of the batch.
pub open spec fn replies_match(n: nat, replies: Seq<CallReply>) -> bool {
    forall|i: int| 0 <= i < replies.len() ==> (#[trigger] reply_index(replies[i], n)) is Some
}

/// Every requested token id, with no balance yet.
pub open spec fn unanswered_map(token_ids: Seq<String>) -> Map<Seq<char>, Option<Seq<char>>>
    decreases token_ids.len(),
{
    if token_ids.len() == 0 {
        Map::empty()
    } else {
        unanswered_map(token_ids.drop_last()).insert(token_ids.last()@, None)
    }
}

/// The texts of the requested token ids.
pub open spec fn token_keys(token_ids: Seq<String>) -> Set<Seq<char>> {
    Set::new(|t: Seq<char>| exists|i: int| 0 <= i < token_ids.len() && token_ids[i]@ == t)
}

/// Some reply of `replies` answers a call about the token `t`.
pub open spec fn names_token(token_ids: Seq<String>, replies: Seq<CallReply>, t: Seq<char>) -> bool {
    exists|j: int|
        0 <= j < replies.len() && match #[trigger] reply_index(replies[j], token_ids.len()) {
            Some(k) => token_ids[k as int]@ == t,
            None => false,
        }
}

/// Token id to balance: every requested token starts with none, and the
/// replies are taken in order, a later reply for a token replacing an
/// earlier one.
pub open spec fn balances_map(token_ids: Seq<String>, replies: Seq<CallReply>) -> Map<
    Seq<char>,
    Option<Seq<char>>,
>
    decreases replies.len(),
{
    if replies.len() == 0 {
        unanswered_map(token_ids)
    } else {
        let m = balances_map(token_ids, replies.drop_last());
        match reply_index(replies.last(), token_ids.len()) {
            Some(i) => m.insert(token_ids[i as int]@, reply_balance(replies.last().outcome)),
            None => m,
        }
    }
}

proof fn lemma_unanswered_map(token_ids: Seq<String>)
    ensures
        unanswered_map(token_ids).dom() == token_keys(token_ids),
        forall|t: Seq<char>| #[trigger] unanswered_map(token_ids).dom().contains(t) ==> unanswered_map(token_ids)[t] is None,
    decreases token_ids.len(),
{
    if token_ids.len() > 0 {
        let rest = token_ids.drop_last();
        lemma_unanswered_map(rest);
        assert forall|t: Seq<char>| token_keys(token_ids).contains(t) implies unanswered_map(
            token_ids,
        ).dom().contains(t) by {
            let i = choose|i: int| 0 <= i < token_ids.len() && token_ids[i]@ == t;
            if i < token_ids.len() - 1 {
                assert(rest[i]@ == t);
                assert(token_keys(rest).contains(t));
            }
        }
        assert forall|t: Seq<char>| unanswered_map(token_ids).dom().contains(t) implies token_keys(
            token_ids,
        ).contains(t) by {
            if t != token_ids.last()@ {
                let i = choose|i: int| 0 <= i < rest.len() && rest[i]@ == t;
                assert(token_ids[i]@ == t);
            } else {
                assert(token_ids[token_ids.len() - 1]@ == t);
            }
        }
        assert(unanswered_map(token_ids).dom() =~= token_keys(token_ids));
    } else {
        assert(unanswered_map(token_ids).dom() =~= token_keys(token_ids));
    }
}

proof fn lemma_balances_map_keys(token_ids: Seq<String>, replies: Seq<CallReply>)
    ensures
        balances_map(token_ids, replies).dom() == token_keys(token_ids),
    decreases replies.len(),
{
    if replies.len() == 0 {
        lemma_unanswered_map(token_ids);
    } else {
        lemma_balances_map_keys(token_ids, replies.drop_last());
        if let Some(i) = reply_index(replies.last(), token_ids.len()) {
            assert(token_keys(token_ids).contains(token_ids[i as int]@));
            assert(balances_map(token_ids, replies).dom() =~= token_keys(token_ids));
        }
    }
}

proof fn lemma_unnamed_token_is_none(token_ids: Seq<String>, replies: Seq<CallReply>, t: Seq<char>)
    requires
        token_keys(token_ids).contains(t),
        !names_token(token_ids, replies, t),
    ensures
        balances_map(token_ids, replies)[t] is None,
    decreases replies.len(),
{
    if replies.len() == 0 {
        lemma_unanswered_map(token_ids);
    } else {
        let rest = replies.drop_last();
        assert(!names_token(token_ids, rest, t)) by {
            if names_token(token_ids, rest, t) {
                let j = choose|j: int|
                    0 <= j < rest.len() && match #[trigger] reply_index(rest[j], token_ids.len()) {
                        Some(k) => token_ids[k as int]@ == t,
                        None => false,
                    };
                assert(replies[j] == rest[j]);
            }
        }
        lemma_unnamed_token_is_none(token_ids, rest, t);
        let last = replies.len() - 1;
        assert(replies[last] == replies.last());
        if let Some(k) = reply_index(replies.last(), token_ids.len()) {
            assert(token_ids[k as int]@ != t);
        }
    }
}

/// Every requested token has an entry and no other key does; a token that
/// no reply answers has none.
pub proof fn law_every_token_has_an_entry(token_ids: Seq<String>, replies: Seq<CallReply>)
    ensures
        balances_map(token_ids, replies).dom() == token_keys(token_ids),
        forall|t: Seq<char>|
            token_keys(token_ids).contains(t) && !names_token(token_ids, replies, t)
                ==> #[trigger] balances_map(token_ids, replies)[t] is None,
{
    lemma_balances_map_keys(token_ids, replies);
    assert forall|t: Seq<char>|
        token_keys(token_ids).contains(t) && !names_token(token_ids, replies, t)
            implies #[trigger] balances_map(token_ids, replies)[t] is None by {
        lemma_unnamed_token_is_none(token_ids, replies, t);
    }
}

/// A token's entry is the balance of the last reply that answers it, in
/// whatever order the replies came: a reply for one token never touches
/// another token's entry.
pub proof fn law_entry_is_last_reply(token_ids: Seq<String>, replies: Seq<CallReply>, j: int, k: nat)
    requires
        0 <= j < replies.len(),
        reply_index(replies[j], token_ids.len()) == Some(k),
        !names_token(token_ids, replies.subrange(j + 1, replies.len() as int), token_ids[k as int]@),
    ensures
        balances_map(token_ids, replies)[token_ids[k as int]@] == reply_balance(replies[j].outcome),
    decreases replies.len(),
{
    let t = token_ids[k as int]@;
    if j == replies.len() - 1 {
        assert(replies.last() == replies[j]);
    } else {
        let rest = replies.drop_last();
        assert(rest.subrange(j + 1, rest.len() as int) =~= replies.subrange(j + 1, replies.len() as int).drop_last());
        assert(!names_token(token_ids, rest.subrange(j + 1, rest.len() as int), t)) by {
            let later = replies.subrange(j + 1, replies.len() as int);
            let rest_later = rest.subrange(j + 1, rest.len() as int);
            if names_token(token_ids, rest_later, t) {
                let m = choose|m: int|
                    0 <= m < rest_later.len() && match #[trigger] reply_index(rest_later[m], token_ids.len()) {
                        Some(k2) => token_ids[k2 as int]@ == t,
                        None => false,
                    };
                assert(later[m] == rest_later[m]);
            }
        }
        assert(rest[j] == replies[j]);
        law_entry_is_last_reply(token_ids, rest, j, k);
        let later = replies.subrange(j + 1, replies.len() as int);
        let last_in_later = later.len() - 1;
        assert(later[last_in_later] == replies.last());
        if let Some(k2) = reply_index(replies.last(), token_ids.len()) {
            assert(token_ids[k2 as int]@ != t);
        }
    }
}

/// The map that a list of (token id, balance) entries stands for.
pub open spec fn entries_map(entries: Seq<(String, Option<String>)>) -> Map<
    Seq<char>,
    Option<Seq<char>>,
>
    decreases entries.len(),
{
    if entries.len() == 0 {
        Map::empty()
    } else {
        entries_map(entries.drop_last()).insert(
            entries.last().0@,
            opt_view(entries.last().1),
        )
    }
}

pub open spec fn keys_unique(entries: Seq<(String, Option<String>)>) -> bool {
    forall|i: int, j: int|
        0 <= i < j < entries.len() ==> (#[trigger] entries[i]).0@ != (#[trigger] entries[j]).0@
}

/// What a reply's call returned never decides whether the batch fails: only
/// the correlation ids do.
pub proof fn law_payload_never_fails_batch(
    n: nat,
    replies: Seq<CallReply>,
    i: int,
    outcome: CallOutcome,
)
    requires
        0 <= i < replies.len(),
    ensures
        replies_match(n, replies) == replies_match(
            n,
            replies.update(i, CallReply { id: replies[i].id, outcome }),
        ),
{
    let updated = replies.update(i, CallReply { id: replies[i].id, outcome });
    assert forall|j: int| 0 <= j < replies.len() implies reply_index(updated[j], n) == reply_index(
        replies[j],
        n,
    ) by {}
    if replies_match(n, replies) {
        assert forall|j: int| 0 <= j < updated.len() implies (#[trigger] reply_index(
            updated[j],
            n,
        )) is Some by {
            assert(reply_index(replies[j], n) is Some);
        }
    } else {
        let j = choose|j: int| 0 <= j < replies.len() && !(#[trigger] reply_index(replies[j], n) is Some);
        assert(reply_index(updated[j], n) is None);
    }
}

proof fn lemma_entries_map_update(s: Seq<(String, Option<String>)>, k: int, e: (String, Option<String>))
    requires
        keys_unique(s),
        0 <= k < s.len(),
        e.0@ == s[k].0@,
    ensures
        entries_map(s.update(k, e)) == entries_map(s).insert(e.0@, opt_view(e.1)),
    decreases s.len(),
{
    let t = s.update(k, e);
    if k == s.len() - 1 {
        assert(t.drop_last() =~= s.drop_last());
        assert(entries_map(t) =~= entries_map(s).insert(e.0@, opt_view(e.1)));
    } else {
        assert(t.drop_last() =~= s.drop_last().update(k, e));
        assert(keys_unique(s.drop_last()));
        lemma_entries_map_update(s.drop_last(), k, e);
        assert(s.last().0@ != e.0@);
        assert(entries_map(t) =~= entries_map(s).insert(e.0@, opt_view(e.1)));
    }
}

/// Sets `key`'s entry to `value`, adding the key if it is new.
fn upsert(entries: &mut Vec<(String, Option<String>)>, key: String, value: Option<String>)
    requires
        keys_unique(old(entries)@),
    ensures
        keys_unique(final(entries)@),
        entries_map(final(entries)@) == entries_map(old(entries)@).insert(key@, opt_view(value)),
{
    let mut k: usize = 0;
    while k < entries.len()
        invariant
            entries@ == old(entries)@,
            keys_unique(entries@),
            k <= entries.len(),
            forall|j: int| 0 <= j < k ==> (#[trigger] entries@[j]).0@ != key@,
        decreases entries.len() - k,
    {
        if entries[k].0 == key {
            proof {
                lemma_entries_map_update(entries@, k as int, (key, value));
            }
            let ghost before = entries@;
            entries.set(k, (key, value));
            assert forall|i: int, j: int| 0 <= i < j < entries@.len() implies (
            #[trigger] entries@[i]).0@ != (#[trigger] entries@[j]).0@ by {
                assert(before[i].0@ != before[j].0@);
            }
            return;
        }
        k = k + 1;
    }
    let ghost before = entries@;
    entries.push((key, value));
    assert(entries@.drop_last() =~= before);
}

/// Matches each reply to the token of the call it answers and reads its
/// balance. Every requested token gets an entry: none where no reply answers
/// it or its reply's balance cannot be read, which touches that token alone.
/// A reply whose id names no call of the batch fails the whole batch.
pub fn collect_balances(token_ids: &Vec<String>, replies: &Vec<CallReply>) -> (r: Result<
    Vec<(String, Option<String>)>,
    RpcError,
>)
    ensures
        r is Err <==> !replies_match(token_ids.len() as nat, replies@),
        match r {
            Ok(entries) => {
                &&& keys_unique(entries@)
                &&& entries_map(entries@) == balances_map(token_ids@, replies@)
                &&& entries_map(entries@).dom() == token_keys(token_ids@)
                &&& forall|t: Seq<char>|
                    token_keys(token_ids@).contains(t) && !names_token(token_ids@, replies@, t)
                        ==> #[trigger] entries_map(entries@)[t] is None
            },
            Err(e) => e is InvalidJsonRpcResponse,
        },
{
    let mut entries: Vec<(String, Option<String>)> = Vec::new();
    let n = token_ids.len();
    for i in 0..n
        invariant
            n == token_ids.len(),
            keys_unique(entries@),
            entries_map(entries@) == unanswered_map(token_ids@.subrange(0, i as int)),
    {
        assert(token_ids@.subrange(0, i + 1).drop_last() =~= token_ids@.subrange(0, i as int));
        upsert(&mut entries, token_ids[i].clone(), None);
    }
    assert(token_ids@.subrange(0, n as int) =~= token_ids@);
    assert(replies@.subrange(0, 0) =~= Seq::<CallReply>::empty());
    for i in 0..replies.len()
        invariant
            n == token_ids.len(),
            keys_unique(entries@),
            entries_map(entries@) == balances_map(token_ids@, replies@.subrange(0, i as int)),
            replies_match(n as nat, replies@.subrange(0, i as int)),
    {
        let reply = &replies[i];
        assert(replies@.subrange(0, i + 1).drop_last() =~= replies@.subrange(0, i as int));
        let index: usize = match parse_u128(reply.id.as_str()) {
            Some(v) => {
                if v < n as u128 {
                    v as usize
                } else {
                    assert(reply_index(replies@[i as int], n as nat) is None);
                    return Err(RpcError::InvalidJsonRpcResponse);
                }
            },
            None => {
                assert(reply_index(replies@[i as int], n as nat) is None);
                return Err(RpcError::InvalidJsonRpcResponse);
            },
        };
        let balance = outcome_balance(&reply.outcome);
        upsert(&mut entries, token_ids[index].clone(), balance);
        assert(replies_match(n as nat, replies@.subrange(0, i + 1))) by {
            assert forall|j: int| 0 <= j < i + 1 implies (#[trigger] reply_index(
                replies@.subrange(0, i + 1)[j],
                n as nat,
            )) is Some by {
                if j < i {
                    assert(replies@.subrange(0, i + 1)[j] == replies@.subrange(0, i as int)[j]);
                }
            }
        }
    }
    assert(replies@.subrange(0, replies.len() as int) =~= replies@);
    proof {
        law_every_token_has_an_entry(token_ids@, replies@);
    }
    Ok(entries)
}

} // verus!
