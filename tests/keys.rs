use account_index::keys::{prefixed_key, Prefix, LATEST_BLOCK_KEY};

#[test]
fn builds_prefixed_keys() {
    assert_eq!(prefixed_key(Prefix::PublicKey, "ed25519:abc"), "pk:ed25519:abc");
    assert_eq!(prefixed_key(Prefix::Staking, "alice.near"), "st:alice.near");
    assert_eq!(prefixed_key(Prefix::FungibleToken, "alice.near"), "ft:alice.near");
    assert_eq!(prefixed_key(Prefix::NonFungibleToken, "alice.near"), "nf:alice.near");
    assert_eq!(prefixed_key(Prefix::Balance, "token.near"), "b:token.near");
    assert_eq!(prefixed_key(Prefix::TopHolders, "token.near"), "tb:token.near");
}

#[test]
fn empty_id_keeps_the_separator() {
    assert_eq!(prefixed_key(Prefix::Balance, ""), "b:");
}

#[test]
fn tags_are_fixed() {
    assert_eq!(Prefix::PublicKey.tag(), "pk");
    assert_eq!(Prefix::TopHolders.tag(), "tb");
    assert_eq!(LATEST_BLOCK_KEY, "meta:latest_block");
}
