use account_index::ranking::{rank_holders, Holder};

fn ids(holders: &[Holder]) -> Vec<&str> {
    holders.iter().map(|h| h.account_id.as_str()).collect()
}

#[test]
fn ranks_by_live_balance_then_id() {
    let accounts = vec!["a.near", "b.near", "c.near", "d.near", "e.near"]
        .into_iter()
        .map(String::from)
        .collect();
    let balances = vec![
        Some("10".to_string()),
        Some("300".to_string()),
        None,
        Some("10".to_string()),
        Some("garbage".to_string()),
    ];
    let ranked = rank_holders(accounts, balances);
    assert_eq!(ids(&ranked), vec!["b.near", "d.near", "a.near", "e.near", "c.near"]);
    assert_eq!(ranked[0].balance, Some("300".to_string()));
    assert_eq!(ranked[3].balance, Some("garbage".to_string()));
    assert_eq!(ranked[4].balance, None);
}

#[test]
fn absent_balance_ties_with_zero_by_id() {
    let accounts = vec!["zed.near".to_string(), "amy.near".to_string(), "max.near".to_string()];
    let balances = vec![None, Some("0".to_string()), None];
    let ranked = rank_holders(accounts, balances);
    assert_eq!(ids(&ranked), vec!["zed.near", "max.near", "amy.near"]);
}

#[test]
fn missing_replies_rank_as_zero() {
    let accounts = vec!["a".to_string(), "b".to_string(), "c".to_string()];
    let ranked = rank_holders(accounts, vec![Some("1".to_string())]);
    assert_eq!(ids(&ranked), vec!["a", "c", "b"]);
}

#[test]
fn large_balances_compare_as_integers() {
    let accounts = vec!["x".to_string(), "y".to_string()];
    let balances = vec![
        Some("9".to_string()),
        Some("340282366920938463463374607431768211455".to_string()),
    ];
    assert_eq!(ids(&rank_holders(accounts, balances)), vec!["y", "x"]);
}

#[test]
fn prefix_id_ranks_below_longer() {
    let accounts = vec!["ab".to_string(), "abc".to_string(), "b".to_string()];
    let ranked = rank_holders(accounts, vec![None, None, None]);
    assert_eq!(ids(&ranked), vec!["b", "abc", "ab"]);
}

#[test]
fn ranking_matches_std_sort() {
    let names = ["q", "w", "e", "r", "t", "y", "u", "i", "o", "p", "qq", "ww"];
    let values = [Some("5"), None, Some("5"), Some("x"), Some("0"), Some("12"), None, Some("5"), Some("100"), Some("+5"), Some("12"), None];
    let accounts: Vec<String> = names.iter().map(|s| s.to_string()).collect();
    let balances: Vec<Option<String>> = values.iter().map(|v| v.map(String::from)).collect();
    let mut expected: Vec<(String, Option<String>)> =
        accounts.iter().cloned().zip(balances.iter().cloned()).collect();
    expected.sort_unstable_by(|a, b| {
        (b.1.as_ref().and_then(|s| s.parse::<u128>().ok()).unwrap_or(0), &b.0)
            .cmp(&(a.1.as_ref().and_then(|s| s.parse::<u128>().ok()).unwrap_or(0), &a.0))
    });
    let ranked = rank_holders(accounts, balances);
    let got: Vec<(String, Option<String>)> =
        ranked.into_iter().map(|h| (h.account_id, h.balance)).collect();
    assert_eq!(got, expected);
}

#[test]
fn empty_input_ranks_to_nothing() {
    assert!(rank_holders(vec![], vec![]).is_empty());
}

#[test]
fn stale_scores_reranked_by_live_balance() {
    let accounts = vec!["a.near", "b.near", "c.near", "z.near"]
        .into_iter()
        .map(String::from)
        .collect();
    let balances = vec![None, Some("10".to_string()), Some("9".to_string()), Some("0".to_string())];
    let ranked = rank_holders(accounts, balances);
    assert_eq!(ids(&ranked), vec!["b.near", "c.near", "z.near", "a.near"]);
    assert_eq!(ranked[2].balance, Some("0".to_string()));
    assert_eq!(ranked[3].balance, None);
}
