//! The store's key layout: every key is a fixed tag, a colon, and an
//! identifier.

use vstd::prelude::*;

verus! {

/// The relation that a key holds.
#[derive(Clone, Copy, Debug, PartialEq, Eq, Structural)]
pub enum Prefix {
    /// `pk`: public key to the accounts that hold it.
    PublicKey,
    /// `st`: account to the staking pools it used.
    Staking,
    /// `ft`: account to the fungible token contracts it touched.
    FungibleToken,
    /// `nf`: account to the non-fungible token contracts it touched.
    NonFungibleToken,
    /// `b`: token to the balances of its holders.
    Balance,
    /// `tb`: token to its holders ranked by balance.
    TopHolders,
}

pub open spec fn prefix_tag(p: Prefix) -> Seq<char> {
    match p {
        Prefix::PublicKey => seq!['p', 'k'],
        Prefix::Staking => seq!['s', 't'],
        Prefix::FungibleToken => seq!['f', 't'],
        Prefix::NonFungibleToken => seq!['n', 'f'],
        Prefix::Balance => seq!['b'],
        Prefix::TopHolders => seq!['t', 'b'],
    }
}

/// The key `<tag>:<id>`.
pub open spec fn key_of(p: Prefix, id: Seq<char>) -> Seq<char> {
    prefix_tag(p) + seq![':'] + id
}

pub const LATEST_BLOCK_KEY: &'static str = "meta:latest_block";

pub const LATEST_BLOCK_TIME_KEY: &'static str = "meta:latest_block_time";

pub const LATEST_BALANCE_BLOCK_KEY: &'static str = "meta:latest_balance_block";

pub const ACCOUNTS_KEY: &'static str = "accounts";

impl Prefix {
    pub fn tag(&self) -> (r: &'static str)
        ensures
            r@ == prefix_tag(*self),
    {
        proof {
            reveal_strlit("pk");
            reveal_strlit("st");
            reveal_strlit("ft");
            reveal_strlit("nf");
            reveal_strlit("b");
            reveal_strlit("tb");
        }
        match self {
            Prefix::PublicKey => "pk",
            Prefix::Staking => "st",
            Prefix::FungibleToken => "ft",
            Prefix::NonFungibleToken => "nf",
            Prefix::Balance => "b",
            Prefix::TopHolders => "tb",
        }
    }
}

/// Builds the key `<tag>:<id>` under which `id`'s record of kind `p` is kept.
pub fn prefixed_key(p: Prefix, id: &str) -> (r: String)
    ensures
        r@ == key_of(p, id@),
{
    let mut key = String::from_str(p.tag());
    proof {
        reveal_strlit(":");
    }
    key.append(":");
    key.append(id);
    key
}

} // verus!
