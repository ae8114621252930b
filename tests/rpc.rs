use account_index::rpc::{
    balance_args_text, balance_calls, canonical_balance, collect_balances, outcome_balance,
    CallOutcome, CallReply, RpcError,
};

fn reply(id: &str, outcome: CallOutcome) -> CallReply {
    CallReply { id: id.to_string(), outcome }
}

fn returned(json: &str) -> CallOutcome {
    CallOutcome::Returned(json.as_bytes().to_vec())
}

fn tokens(ids: &[&str]) -> Vec<String> {
    ids.iter().map(|s| s.to_string()).collect()
}

#[test]
fn builds_one_call_per_token() {
    let calls = balance_calls("alice.near", &tokens(&["usdt.near", "wrap.near"]));
    assert_eq!(calls.len(), 2);
    assert_eq!(calls[0].id, "0");
    assert_eq!(calls[1].id, "1");
    assert_eq!(calls[0].token_id, "usdt.near");
    assert_eq!(calls[1].token_id, "wrap.near");
    assert_eq!(calls[0].args_base64, "eyJhY2NvdW50X2lkIjogImFsaWNlLm5lYXIifQ==");
    assert_eq!(calls[1].args_base64, calls[0].args_base64);
}

#[test]
fn balance_args_are_json() {
    assert_eq!(balance_args_text("alice.near"), "{\"account_id\": \"alice.near\"}");
}

#[test]
fn malformed_payload_nulls_only_its_token() {
    let ids = tokens(&["a.near", "b.near", "c.near"]);
    let replies = vec![
        reply("0", returned("\"100\"")),
        reply("1", returned("{not json")),
        reply("2", returned("\"300\"")),
    ];
    let mut entries = match collect_balances(&ids, &replies) {
        Ok(e) => e,
        Err(_) => panic!("batch failed"),
    };
    entries.sort();
    assert_eq!(
        entries,
        vec![
            ("a.near".to_string(), Some("100".to_string())),
            ("b.near".to_string(), None),
            ("c.near".to_string(), Some("300".to_string())),
        ]
    );
}

#[test]
fn wrong_shaped_or_missing_result_is_none() {
    let ids = tokens(&["a.near", "b.near", "c.near"]);
    let replies = vec![
        reply("2", CallOutcome::Malformed),
        reply("0", CallOutcome::NoResult),
        reply("1", returned("\"abc\"")),
    ];
    let mut entries = collect_balances(&ids, &replies).ok().unwrap();
    entries.sort();
    assert_eq!(
        entries,
        vec![
            ("a.near".to_string(), None),
            ("b.near".to_string(), None),
            ("c.near".to_string(), None),
        ]
    );
}

#[test]
fn unknown_reply_id_fails_the_batch() {
    let ids = tokens(&["a.near"]);
    let out_of_range = collect_balances(&ids, &vec![reply("1", returned("\"5\""))]);
    assert!(matches!(out_of_range, Err(RpcError::InvalidJsonRpcResponse)));
    let not_a_number = collect_balances(&ids, &vec![reply("x", returned("\"5\""))]);
    assert!(matches!(not_a_number, Err(RpcError::InvalidJsonRpcResponse)));
}

#[test]
fn later_reply_for_same_token_wins() {
    let ids = tokens(&["a.near", "a.near"]);
    let replies = vec![reply("1", returned("\"7\"")), reply("0", returned("\"9\""))];
    let entries = collect_balances(&ids, &replies).ok().unwrap();
    assert_eq!(entries, vec![("a.near".to_string(), Some("9".to_string()))]);
}

#[test]
fn tokens_without_reply_are_none() {
    let ids = tokens(&["a.near", "b.near"]);
    let entries = collect_balances(&ids, &vec![reply("1", returned("\"1\""))]).ok().unwrap();
    assert_eq!(
        entries,
        vec![("a.near".to_string(), None), ("b.near".to_string(), Some("1".to_string()))]
    );
    assert_eq!(
        collect_balances(&ids, &vec![]).ok().unwrap(),
        vec![("a.near".to_string(), None), ("b.near".to_string(), None)]
    );
}

#[test]
fn reply_order_does_not_matter_for_distinct_tokens() {
    let ids = tokens(&["a.near", "b.near", "c.near"]);
    let replies = vec![
        reply("2", returned("\"300\"")),
        reply("1", CallOutcome::Malformed),
        reply("0", returned("\"100\"")),
    ];
    let entries = collect_balances(&ids, &replies).ok().unwrap();
    assert_eq!(
        entries,
        vec![
            ("a.near".to_string(), Some("100".to_string())),
            ("b.near".to_string(), None),
            ("c.near".to_string(), Some("300".to_string())),
        ]
    );
}

#[test]
fn balances_come_back_canonical() {
    assert_eq!(outcome_balance(&returned("\"+000123\"")), Some("123".to_string()));
    assert_eq!(outcome_balance(&returned("123")), None);
    assert_eq!(outcome_balance(&returned("\"-1\"")), None);
    assert_eq!(canonical_balance(Some("0042".to_string())), Some("42".to_string()));
    assert_eq!(canonical_balance(None), None);
}
