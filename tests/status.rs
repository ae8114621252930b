use account_index::status::{health, status, Config, HealthVerdict};

const NOW: u128 = 1_700_000_000_000_000_000;
const SEC: u128 = 1_000_000_000;

fn config() -> Config {
    Config { max_healthy_latency_sec: 10, max_healthy_sync_block_diff: 3 }
}

fn s(v: &str) -> Option<String> {
    Some(v.to_string())
}

#[test]
fn healthy_when_recent_and_close() {
    let st = status(s("100"), s(&(NOW - 5 * SEC).to_string()), s("98"), NOW);
    assert_eq!(st.sync_block_height, Some(100));
    assert_eq!(st.sync_latency_nanos, Some(5 * SEC));
    assert_eq!(st.sync_balance_block_height, Some(98));
    assert_eq!(st.sync_block_timestamp_nanosec, Some((NOW - 5 * SEC).to_string()));
    assert_eq!(health(&st, &config()), HealthVerdict::Healthy);
}

#[test]
fn unhealthy_when_balance_sync_lags() {
    let st = status(s("100"), s(&(NOW - 5 * SEC).to_string()), s("90"), NOW);
    assert_eq!(health(&st, &config()), HealthVerdict::Unhealthy);
}

#[test]
fn unhealthy_without_block_time() {
    let st = status(s("100"), None, s("98"), NOW);
    assert_eq!(st.sync_latency_nanos, None);
    assert_eq!(health(&st, &config()), HealthVerdict::Unhealthy);
}

#[test]
fn unhealthy_without_heights() {
    let time = (NOW - SEC).to_string();
    assert_eq!(health(&status(None, s(&time), s("98"), NOW), &config()), HealthVerdict::Unhealthy);
    assert_eq!(health(&status(s("100"), s(&time), None, NOW), &config()), HealthVerdict::Unhealthy);
}

#[test]
fn latency_limit_is_inclusive() {
    let at_limit = status(s("100"), s(&(NOW - 10 * SEC).to_string()), s("100"), NOW);
    assert_eq!(health(&at_limit, &config()), HealthVerdict::Healthy);
    let past_limit = status(s("100"), s(&(NOW - 10 * SEC - 1).to_string()), s("100"), NOW);
    assert_eq!(health(&past_limit, &config()), HealthVerdict::Unhealthy);
}

#[test]
fn balance_sync_ahead_counts_as_no_lag() {
    let st = status(s("100"), s(&NOW.to_string()), s("120"), NOW);
    assert_eq!(health(&st, &config()), HealthVerdict::Healthy);
}

#[test]
fn clock_skew_saturates_latency() {
    let st = status(s("1"), s(&(NOW + SEC).to_string()), s("1"), NOW);
    assert_eq!(st.sync_latency_nanos, Some(0));
}

#[test]
fn malformed_metadata_is_unknown_and_unhealthy() {
    let st = status(s("abc"), s("xyz"), s(""), NOW);
    assert_eq!(st.sync_block_height, None);
    assert_eq!(st.sync_balance_block_height, None);
    assert_eq!(st.sync_latency_nanos, None);
    assert_eq!(st.sync_block_timestamp_nanosec, s("xyz"));
    assert_eq!(health(&st, &config()), HealthVerdict::Unhealthy);
}

#[test]
fn malformed_block_height_is_unhealthy() {
    let time = (NOW - SEC).to_string();
    let st = status(s("abc"), s(&time), s("98"), NOW);
    assert_eq!(st.sync_block_height, None);
    assert_eq!(health(&st, &config()), HealthVerdict::Unhealthy);
    let st = status(s("100"), s(&time), s("9x8"), NOW);
    assert_eq!(health(&st, &config()), HealthVerdict::Unhealthy);
}

#[test]
fn malformed_block_time_is_unhealthy() {
    let st = status(s("100"), s("soon"), s("100"), NOW);
    assert_eq!(st.sync_latency_nanos, None);
    assert_eq!(health(&st, &config()), HealthVerdict::Unhealthy);
}
