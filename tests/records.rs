use account_index::records::{
    aligned_balances, balance_requests, field_names, full_access_accounts, parse_record,
    stored_account_state, token_holdings,
};

fn pair(a: &str, b: &str) -> (String, String) {
    (a.to_string(), b.to_string())
}

#[test]
fn absent_record_parses_to_nothing() {
    assert!(parse_record(vec![]).is_empty());
    assert!(full_access_accounts(&vec![]).is_empty());
    assert!(field_names(&vec![]).is_empty());
}

#[test]
fn malformed_value_is_none_for_that_field_only() {
    let parsed = parse_record(vec![
        pair("pool-a.near", "100"),
        pair("pool-b.near", "not-a-height"),
        pair("pool-c.near", "+300"),
    ]);
    assert_eq!(
        parsed,
        vec![
            ("pool-a.near".to_string(), Some(100)),
            ("pool-b.near".to_string(), None),
            ("pool-c.near".to_string(), Some(300)),
        ]
    );
}

#[test]
fn full_access_accounts_keep_only_flagged() {
    let fields = vec![pair("a.near", "f"), pair("b.near", "l"), pair("c.near", "f"), pair("d.near", "ff")];
    assert_eq!(full_access_accounts(&fields), vec!["a.near".to_string(), "c.near".to_string()]);
    assert_eq!(field_names(&fields), vec!["a.near", "b.near", "c.near", "d.near"]);
}

#[test]
fn balance_requests_follow_pairs() {
    let pairs = vec![pair("usdt.near", "alice.near"), pair("wrap.near", "alice.near")];
    assert_eq!(
        balance_requests(&pairs),
        vec![pair("b:usdt.near", "alice.near"), pair("b:wrap.near", "alice.near")]
    );
}

#[test]
fn aligned_balances_keep_length() {
    let replies = vec![Some("5".to_string()), None, Some("7".to_string())];
    assert_eq!(aligned_balances(3, replies.clone()), replies);
    assert_eq!(
        aligned_balances(4, replies.clone()),
        vec![Some("5".to_string()), None, Some("7".to_string()), None]
    );
    assert_eq!(aligned_balances(2, replies), vec![Some("5".to_string()), None]);
    assert!(aligned_balances(0, vec![]).is_empty());
}

#[test]
fn token_holdings_pair_by_position() {
    let tokens = vec![("usdt.near".to_string(), Some(10)), ("wrap.near".to_string(), None)];
    let holdings = token_holdings(tokens, vec![Some("1000".to_string())]);
    assert_eq!(holdings.len(), 2);
    assert_eq!(holdings[0].contract_id, "usdt.near");
    assert_eq!(holdings[0].last_update_block_height, Some(10));
    assert_eq!(holdings[0].balance, Some("1000".to_string()));
    assert_eq!(holdings[1].contract_id, "wrap.near");
    assert_eq!(holdings[1].last_update_block_height, None);
    assert_eq!(holdings[1].balance, None);
}

#[test]
fn empty_account_state_is_none() {
    assert_eq!(stored_account_state(None), None);
    assert_eq!(stored_account_state(Some(String::new())), None);
    assert_eq!(stored_account_state(Some("{}".to_string())), Some("{}".to_string()));
}
