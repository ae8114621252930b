//! Retry policy for store operations: after each failure the caller backs
//! off, reconnects, and tries again, with the delay doubling each time and a
//! hard cap on attempts. The caller runs the operation, sleeps and
//! reconnects; this module decides what comes next.

use vstd::prelude::*;

verus! {

/// Attempts made before the last error is returned.
pub const MAX_ATTEMPTS: u32 = 10;

/// Back-off after the first failure, in milliseconds.
pub const INITIAL_DELAY_MS: u64 = 100;

/// The back-off after `failures` earlier failures and one more:
/// `100 ms * 2^failures`.
pub open spec fn backoff_delay_ms(failures: nat) -> nat
    decreases failures,
{
    if failures == 0 {
        INITIAL_DELAY_MS as nat
    } else {
        2 * backoff_delay_ms((failures - 1) as nat)
    }
}

/// What to do after a failed attempt: sleep `delay_ms`, reconnect, and then
/// try again if `retry`, else return the attempt's error as it is.
#[derive(Clone, Copy, Debug, PartialEq, Eq, Structural)]
pub struct Backoff {
    pub delay_ms: u64,
    pub retry: bool,
}

/// The step after a failure that follows `failures` earlier ones. Once the
/// attempts are used up there is nothing to wait for.
pub open spec fn next_backoff(failures: nat) -> (nat, bool) {
    if failures < MAX_ATTEMPTS {
        (backoff_delay_ms(failures), failures + 1 < MAX_ATTEMPTS)
    } else {
        (0, false)
    }
}

/// The failures seen so far by one operation.
pub struct RetryState {
    failures: u32,
    delay_ms: u64,
}

impl RetryState {
    #[verifier::type_invariant]
    spec fn inv(self) -> bool {
        &&& self.failures <= MAX_ATTEMPTS
        &&& self.delay_ms == backoff_delay_ms(self.failures as nat)
    }

    pub closed spec fn failures(self) -> nat {
        self.failures as nat
    }

    pub fn new() -> (r: RetryState)
        ensures
            r.failures() == 0,
    {
        RetryState { failures: 0, delay_ms: INITIAL_DELAY_MS }
    }

    /// Records a failed attempt and says how to go on.
    pub fn on_failure(&mut self) -> (b: Backoff)
        ensures
            b.delay_ms == next_backoff(old(self).failures()).0,
            b.retry == next_backoff(old(self).failures()).1,
            final(self).failures() == if old(self).failures() < MAX_ATTEMPTS {
                old(self).failures() + 1
            } else {
                old(self).failures()
            },
    {
        proof {
            use_type_invariant(&*self);
        }
        if self.failures >= MAX_ATTEMPTS {
            return Backoff { delay_ms: 0, retry: false };
        }
        let delay_ms = self.delay_ms;
        assert(backoff_delay_ms(self.failures as nat) <= 51200) by {
            lemma_backoff_delay_bound(self.failures as nat);
        }
        let failures = self.failures + 1;
        assert(backoff_delay_ms(failures as nat) == 2 * delay_ms);
        *self = RetryState { failures, delay_ms: delay_ms * 2 };
        Backoff { delay_ms, retry: failures < MAX_ATTEMPTS }
    }
}

/// How an operation ends when run under this policy from `failures` earlier
/// failures, where `fails(k)` says whether attempt `k` (from zero) fails:
/// (attempts made, reconnects made, milliseconds slept, whether the last
/// attempt succeeded). The caller gets the last attempt's result as it is.
pub open spec fn run_under_policy(fails: spec_fn(nat) -> bool, failures: nat) -> (
    nat,
    nat,
    nat,
    bool,
)
    decreases MAX_ATTEMPTS - failures,
{
    if failures >= MAX_ATTEMPTS {
        (failures, failures, 0, false)
    } else if !fails(failures) {
        (failures + 1, failures, 0, true)
    } else {
        let (delay, retry) = next_backoff(failures);
        if retry {
            let rest = run_under_policy(fails, failures + 1);
            (rest.0, rest.1, rest.2 + delay, rest.3)
        } else {
            (failures + 1, failures + 1, delay, false)
        }
    }
}

proof fn lemma_recovers_from(fails: spec_fn(nat) -> bool, start: nat, k: nat)
    requires
        start <= k < MAX_ATTEMPTS,
        forall|j: nat| j < k ==> #[trigger] fails(j),
        !fails(k),
    ensures
        run_under_policy(fails, start) == (k + 1, k, (backoff_delay_ms(k) - backoff_delay_ms(
            start,
        )) as nat, true),
    decreases k - start,
{
    if start < k {
        lemma_recovers_from(fails, start + 1, k);
        lemma_backoff_delay_increasing(start + 1, k);
    }
}

proof fn lemma_exhausts_from(fails: spec_fn(nat) -> bool, start: nat)
    requires
        start < MAX_ATTEMPTS,
        forall|j: nat| j < MAX_ATTEMPTS ==> #[trigger] fails(j),
    ensures
        run_under_policy(fails, start) == (MAX_ATTEMPTS as nat, MAX_ATTEMPTS as nat, (
        backoff_delay_ms(MAX_ATTEMPTS as nat) - backoff_delay_ms(start)) as nat, false),
    decreases MAX_ATTEMPTS - start,
{
    if start + 1 < MAX_ATTEMPTS {
        lemma_exhausts_from(fails, start + 1);
        lemma_backoff_delay_increasing(start + 1, MAX_ATTEMPTS as nat);
    }
}

proof fn lemma_backoff_delay_increasing(a: nat, b: nat)
    requires
        a <= b,
    ensures
        backoff_delay_ms(a) <= backoff_delay_ms(b),
    decreases b - a,
{
    if a < b {
        lemma_backoff_delay_increasing(a, (b - 1) as nat);
    }
}

/// An operation whose first `k` attempts fail and whose next one succeeds,
/// with `k` under the cap, succeeds on attempt `k + 1` after exactly `k`
/// reconnects and `100 ms * (2^k - 1)` of back-off.
pub proof fn law_retry_recovers(fails: spec_fn(nat) -> bool, k: nat)
    requires
        k < MAX_ATTEMPTS,
        forall|j: nat| j < k ==> #[trigger] fails(j),
        !fails(k),
    ensures
        run_under_policy(fails, 0) == (k + 1, k, (backoff_delay_ms(k) - INITIAL_DELAY_MS) as nat, true),
{
    lemma_recovers_from(fails, 0, k);
}

/// An operation that always fails is attempted exactly ten times, and the
/// error of the tenth attempt is what the caller gets; the back-off slept
/// adds up to `100 ms * (2^10 - 1)`.
pub proof fn law_retry_exhausts(fails: spec_fn(nat) -> bool)
    requires
        forall|j: nat| #[trigger] fails(j),
    ensures
        run_under_policy(fails, 0) == (10nat, 10nat, 102300nat, false),
{
    lemma_exhausts_from(fails, 0);
    reveal_with_fuel(backoff_delay_ms, 11);
}

proof fn lemma_backoff_delay_bound(failures: nat)
    requires
        failures < MAX_ATTEMPTS,
    ensures
        backoff_delay_ms(failures) <= 51200,
    decreases failures,
{
    reveal_with_fuel(backoff_delay_ms, 11);
}

} // verus!
