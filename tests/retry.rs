use account_index::retry::{Backoff, RetryState, MAX_ATTEMPTS};

/// Runs `attempt` under the policy; returns its result, the attempts made,
/// the reconnects made and the delays slept.
fn run<T, E>(mut attempt: impl FnMut(u32) -> Result<T, E>) -> (Result<T, E>, u32, u32, Vec<u64>) {
    let mut state = RetryState::new();
    let mut attempts = 0;
    let mut reconnects = 0;
    let mut delays = Vec::new();
    loop {
        attempts += 1;
        match attempt(attempts) {
            Ok(v) => return (Ok(v), attempts, reconnects, delays),
            Err(e) => {
                let Backoff { delay_ms, retry } = state.on_failure();
                delays.push(delay_ms);
                reconnects += 1;
                if !retry {
                    return (Err(e), attempts, reconnects, delays);
                }
            }
        }
    }
}

#[test]
fn recovers_after_three_failures() {
    let (result, attempts, reconnects, delays) =
        run(|n| if n <= 3 { Err(format!("down {}", n)) } else { Ok("value") });
    assert_eq!(result, Ok("value"));
    assert_eq!(attempts, 4);
    assert_eq!(reconnects, 3);
    assert_eq!(delays, vec![100, 200, 400]);
}

#[test]
fn always_failing_returns_last_error_after_ten_attempts() {
    let (result, attempts, reconnects, delays) = run::<(), String>(|n| Err(format!("down {}", n)));
    assert_eq!(result, Err("down 10".to_string()));
    assert_eq!(attempts, 10);
    assert_eq!(attempts, MAX_ATTEMPTS);
    assert_eq!(reconnects, 10);
    assert_eq!(delays, vec![100, 200, 400, 800, 1600, 3200, 6400, 12800, 25600, 51200]);
    assert_eq!(delays.iter().sum::<u64>(), 102300);
}

#[test]
fn first_attempt_success_needs_no_reconnect() {
    let (result, attempts, reconnects, delays) = run::<u8, ()>(|_| Ok(1));
    assert_eq!(result, Ok(1));
    assert_eq!(attempts, 1);
    assert_eq!(reconnects, 0);
    assert!(delays.is_empty());
}

#[test]
fn exhausted_state_gives_no_more_retries() {
    let mut state = RetryState::new();
    for _ in 0..10 {
        state.on_failure();
    }
    assert_eq!(state.on_failure(), Backoff { delay_ms: 0, retry: false });
}
