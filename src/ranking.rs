//! Final order of a token's top holders: by live balance, then by account id,
//! both descending.

use vstd::prelude::*;
use vstd::multiset::Multiset;
use vstd::utf8::encode_utf8;
use crate::decimal::{parse_u128, parse_u128_spec};

verus! {

broadcast use vstd::seq_lib::group_to_multiset_ensures;

/// An account with the balance read for it, if any.
pub struct Holder {
    pub account_id: String,
    pub balance: Option<String>,
}

/// The balance that ranks a holder: a missing or unreadable balance counts
/// as zero.
pub open spec fn balance_rank(balance: Option<String>) -> nat {
    match balance {
        Some(s) => match parse_u128_spec(s@) {
            Some(v) => v as nat,
            None => 0,
        },
        None => 0,
    }
}

/// The bytes by which Rust orders two strings.
pub open spec fn id_bytes(s: String) -> Seq<u8> {
    encode_utf8(s@)
}

/// Lexicographic order on byte strings; a proper prefix comes first.
pub open spec fn bytes_lt(a: Seq<u8>, b: Seq<u8>) -> bool
    decreases a.len(),
{
    if b.len() == 0 {
        false
    } else if a.len() == 0 {
        true
    } else if a[0] != b[0] {
        a[0] < b[0]
    } else {
        bytes_lt(a.drop_first(), b.drop_first())
    }
}

/// `a` comes strictly before `b` in the leaderboard.
pub open spec fn ranks_above(a: Holder, b: Holder) -> bool {
    balance_rank(a.balance) > balance_rank(b.balance) || (balance_rank(a.balance)
        == balance_rank(b.balance) && bytes_lt(id_bytes(b.account_id), id_bytes(a.account_id)))
}

pub open spec fn is_ranked(s: Seq<Holder>) -> bool {
    forall|i: int, j: int| 0 <= i < j < s.len() ==> !ranks_above(#[trigger] s[j], #[trigger] s[i])
}

/// The `i`-th account paired with the `i`-th balance; accounts past the end
/// of `balances` have none.
pub open spec fn paired(accounts: Seq<String>, balances: Seq<Option<String>>) -> Seq<Holder> {
    Seq::new(
        accounts.len(),
        |i: int|
            Holder {
                account_id: accounts[i],
                balance: if i < balances.len() {
                    balances[i]
                } else {
                    None
                },
            },
    )
}

proof fn lemma_bytes_lt_transitive(a: Seq<u8>, b: Seq<u8>, c: Seq<u8>)
    requires
        bytes_lt(a, b),
        bytes_lt(b, c),
    ensures
        bytes_lt(a, c),
    decreases a.len(),
{
    if a.len() > 0 && a[0] == b[0] && b[0] == c[0] {
        lemma_bytes_lt_transitive(a.drop_first(), b.drop_first(), c.drop_first());
    }
}

proof fn lemma_bytes_lt_irreflexive(a: Seq<u8>)
    ensures
        !bytes_lt(a, a),
    decreases a.len(),
{
    if a.len() > 0 {
        lemma_bytes_lt_irreflexive(a.drop_first());
    }
}

proof fn lemma_ranks_above_transitive(a: Holder, b: Holder, c: Holder)
    requires
        ranks_above(a, b),
        ranks_above(b, c),
    ensures
        ranks_above(a, c),
{
    if balance_rank(a.balance) == balance_rank(b.balance) && balance_rank(b.balance)
        == balance_rank(c.balance) {
        lemma_bytes_lt_transitive(id_bytes(c.account_id), id_bytes(b.account_id), id_bytes(a.account_id));
    }
}

proof fn lemma_insert_keeps_ranked(s: Seq<Holder>, p: int, h: Holder)
    requires
        is_ranked(s),
        0 <= p <= s.len(),
        forall|k: int| 0 <= k < p ==> !ranks_above(h, #[trigger] s[k]),
        p < s.len() ==> ranks_above(h, s[p]),
    ensures
        is_ranked(s.insert(p, h)),
{
    let t = s.insert(p, h);
    assert forall|i: int, j: int| 0 <= i < j < t.len() implies !ranks_above(
        #[trigger] t[j],
        #[trigger] t[i],
    ) by {
        if j == p {
            assert(t[i] == s[i]);
        } else if i == p {
            assert(t[j] == s[j - 1]);
            if j - 1 > p {
                assert(!ranks_above(s[j - 1], s[p]));
            }
            if ranks_above(s[j - 1], h) {
                lemma_ranks_above_transitive(s[j - 1], h, s[p]);
                if j - 1 == p {
                    lemma_bytes_lt_irreflexive(id_bytes(s[p].account_id));
                }
            }
        } else {
            let si = if i < p { i } else { i - 1 };
            let sj = if j < p { j } else { j - 1 };
            assert(t[i] == s[si]);
            assert(t[j] == s[sj]);
        }
    }
}

proof fn lemma_bytes_lt_total(a: Seq<u8>, b: Seq<u8>)
    requires
        a != b,
    ensures
        bytes_lt(a, b) || bytes_lt(b, a),
    decreases a.len(),
{
    if a.len() > 0 && b.len() > 0 && a[0] == b[0] {
        if a.drop_first() == b.drop_first() {
            assert(a =~= seq![a[0]] + a.drop_first());
            assert(b =~= seq![b[0]] + b.drop_first());
        }
        lemma_bytes_lt_total(a.drop_first(), b.drop_first());
    } else if a.len() == 0 && b.len() == 0 {
        assert(a =~= b);
    }
}

/// Holders whose account ids differ, in leaderboard order, are in strictly
/// decreasing order: the balance, then the account id, settles every pair.
/// The members of the top-holder set are distinct, so this is the order
/// `rank_holders` gives them.
pub proof fn law_distinct_accounts_rank_strictly(
    accounts: Seq<String>,
    balances: Seq<Option<String>>,
    r: Seq<Holder>,
)
    requires
        forall|i: int, j: int| 0 <= i < j < accounts.len() ==> (#[trigger] accounts[i])@ != (#[trigger] accounts[j])@,
        r.to_multiset() == paired(accounts, balances).to_multiset(),
        is_ranked(r),
    ensures
        forall|i: int, j: int| 0 <= i < j < r.len() ==> ranks_above(#[trigger] r[i], #[trigger] r[j]),
{
    let p = paired(accounts, balances);
    assert(p.no_duplicates()) by {
        assert forall|i: int, j: int| 0 <= i < p.len() && 0 <= j < p.len() && i != j implies p[i] != p[j] by {
            if i < j {
                assert(accounts[i]@ != accounts[j]@);
            } else {
                assert(accounts[j]@ != accounts[i]@);
            }
        }
    }
    p.lemma_multiset_has_no_duplicates();
    r.lemma_multiset_has_no_duplicates_conv();
    assert forall|i: int, j: int| 0 <= i < j < r.len() implies ranks_above(#[trigger] r[i], #[trigger] r[j]) by {
        assert(r.contains(r[i]));
        assert(r.contains(r[j]));
        assert(r.to_multiset().count(r[i]) > 0);
        assert(r.to_multiset().count(r[j]) > 0);
        assert(p.contains(r[i]));
        assert(p.contains(r[j]));
        let a = choose|a: int| 0 <= a < p.len() && p[a] == r[i];
        let b = choose|b: int| 0 <= b < p.len() && p[b] == r[j];
        assert(r[i] != r[j]);
        assert(a != b);
        assert(r[i].account_id@ != r[j].account_id@) by {
            if a < b {
                assert(accounts[a]@ != accounts[b]@);
            } else {
                assert(accounts[b]@ != accounts[a]@);
            }
        }
        assert(id_bytes(r[i].account_id) != id_bytes(r[j].account_id)) by {
            vstd::utf8::encode_utf8_decode_utf8(r[i].account_id@);
            vstd::utf8::encode_utf8_decode_utf8(r[j].account_id@);
        }
        lemma_bytes_lt_total(id_bytes(r[i].account_id), id_bytes(r[j].account_id));
        assert(!ranks_above(r[j], r[i]));
    }
}

/// A missing balance ranks as zero, as does one that is not a number; two
/// holders that rank as zero are ordered by account id alone, and both come
/// after any holder with a positive balance.
pub proof fn law_unknown_balance_ties_with_zero(x: Holder, y: Holder, z: Holder, text: String)
    requires
        balance_rank(x.balance) == 0,
        balance_rank(y.balance) == 0,
        balance_rank(z.balance) > 0,
        parse_u128_spec(text@) is None,
    ensures
        balance_rank(None) == 0,
        balance_rank(Some(text)) == 0,
        ranks_above(x, y) == bytes_lt(id_bytes(y.account_id), id_bytes(x.account_id)),
        ranks_above(z, x),
        ranks_above(z, y),
{
}

/// Lexicographic comparison of two byte strings.
fn bytes_less(a: &[u8], b: &[u8]) -> (r: bool)
    ensures
        r == bytes_lt(a@, b@),
{
    let mut i: usize = 0;
    assert(a@.skip(0) =~= a@);
    assert(b@.skip(0) =~= b@);
    while i < a.len() && i < b.len()
        invariant
            i <= a@.len(),
            i <= b@.len(),
            bytes_lt(a@, b@) == bytes_lt(a@.skip(i as int), b@.skip(i as int)),
        decreases a@.len() - i,
    {
        if a[i] != b[i] {
            return a[i] < b[i];
        }
        assert(a@.skip(i as int).drop_first() =~= a@.skip(i + 1));
        assert(b@.skip(i as int).drop_first() =~= b@.skip(i + 1));
        i = i + 1;
    }
    i < b.len()
}

fn ranks_above_exec(rank_a: u128, id_a: &String, rank_b: u128, id_b: &String) -> (r: bool)
    ensures
        r == (rank_a > rank_b || (rank_a == rank_b && bytes_lt(id_bytes(*id_b), id_bytes(*id_a)))),
{
    if rank_a != rank_b {
        rank_a > rank_b
    } else {
        bytes_less(id_b.as_str().as_bytes(), id_a.as_str().as_bytes())
    }
}

fn rank_of(balance: &Option<String>) -> (r: u128)
    ensures
        r as nat == balance_rank(*balance),
{
    match balance {
        Some(s) => match parse_u128(s.as_str()) {
            Some(v) => v,
            None => 0,
        },
        None => 0,
    }
}

/// Pairs each account with the balance at the same position and orders the
/// pairs by balance, then account id, both descending. The `i`-th balance
/// belongs to the `i`-th account; an account with no balance read ranks as
/// zero.
pub fn rank_holders(accounts: Vec<String>, balances: Vec<Option<String>>) -> (r: Vec<Holder>)
    ensures
        r@.to_multiset() == paired(accounts@, balances@).to_multiset(),
        is_ranked(r@),
{
    let ghost full = paired(accounts@, balances@);
    let mut rest_accounts = accounts;
    let mut rest_balances = balances;
    rest_balances.truncate(rest_accounts.len());
    while rest_balances.len() < rest_accounts.len()
        invariant
            rest_accounts@ == accounts@,
            full == paired(accounts@, balances@),
            rest_balances.len() <= rest_accounts.len(),
            balances@.len() <= rest_balances.len() || rest_balances.len() == rest_accounts.len(),
            forall|i: int| 0 <= i < rest_balances.len() ==> #[trigger] rest_balances@[i] == full[i].balance,
        decreases rest_accounts.len() - rest_balances.len(),
    {
        rest_balances.push(None);
    }
    let mut out: Vec<Holder> = Vec::new();
    let mut ranks: Vec<u128> = Vec::new();
    proof {
        broadcast use vstd::multiset::group_multiset_axioms;
        assert(full.subrange(0, rest_accounts.len() as int) =~= full);
        assert(out@.to_multiset() =~= Multiset::empty());
        assert(out@.to_multiset().add(full.to_multiset()) =~= full.to_multiset());
    }
    while rest_accounts.len() > 0
        invariant
            rest_accounts.len() == rest_balances.len(),
            rest_accounts.len() <= full.len(),
            forall|i: int| 0 <= i < rest_accounts.len() ==> #[trigger] rest_accounts@[i] == full[i].account_id,
            forall|i: int| 0 <= i < rest_balances.len() ==> #[trigger] rest_balances@[i] == full[i].balance,
            out@.to_multiset().add(full.subrange(0, rest_accounts.len() as int).to_multiset())
                == full.to_multiset(),
            is_ranked(out@),
            ranks.len() == out.len(),
            forall|k: int| 0 <= k < out.len() ==> #[trigger] ranks@[k] as nat == balance_rank(out@[k].balance),
        decreases rest_accounts.len(),
    {
        let ghost k = rest_accounts.len() - 1;
        let account_id = rest_accounts.pop().unwrap();
        let balance = rest_balances.pop().unwrap();
        let rank = rank_of(&balance);
        let h = Holder { account_id, balance };
        assert(h == full[k]);
        let mut p: usize = 0;
        loop
            invariant
                p <= out.len(),
                ranks.len() == out.len(),
                forall|k: int| 0 <= k < out.len() ==> #[trigger] ranks@[k] as nat == balance_rank(out@[k].balance),
                rank as nat == balance_rank(h.balance),
                forall|j: int| 0 <= j < p ==> !ranks_above(h, #[trigger] out@[j]),
            ensures
                p <= out.len(),
                forall|j: int| 0 <= j < p ==> !ranks_above(h, #[trigger] out@[j]),
                p < out.len() ==> ranks_above(h, out@[p as int]),
            decreases out.len() - p,
        {
            if p == out.len() {
                break;
            }
            if ranks_above_exec(rank, &h.account_id, ranks[p], &out[p].account_id) {
                break;
            }
            p = p + 1;
        }
        proof {
            lemma_insert_keeps_ranked(out@, p as int, h);
            assert(full.subrange(0, k + 1) =~= full.subrange(0, k).push(full[k]));
        }
        out.insert(p, h);
        ranks.insert(p, rank);
    }
    assert(full.subrange(0, 0) =~= Seq::<Holder>::empty());
    out
}

} // verus!
