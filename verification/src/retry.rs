//! Reconnection backoff policy: exponential delay growth clamped to a maximum,
//! with a cap on the number of attempts.

use vstd::prelude::*;
use vstd::arithmetic::mul::lemma_mul_inequality;
use vstd::arithmetic::mul::lemma_mul_upper_bound;

verus! {

/// Exponential backoff for reconnects. The delay for attempt `n` below the
/// attempt cap is `initial_delay_ms * multiplier^n`, clamped to `max_delay_ms`;
/// at or past the cap it is `max_delay_ms`.
#[derive(Clone, Copy, Debug)]
pub struct RetryPolicy {
    pub max_attempts: u32,
    pub initial_delay_ms: u64,
    pub max_delay_ms: u64,
    pub multiplier: u64,
}

pub open spec fn spec_pow(base: int, n: nat) -> int
    decreases n,
{
    if n == 0 {
        1
    } else {
        base * spec_pow(base, (n - 1) as nat)
    }
}

/// `v` clamped from above to `cap`.
pub open spec fn clamped(v: int, cap: int) -> int {
    if v <= cap {
        v
    } else {
        cap
    }
}

/// The delay, in milliseconds, that the policy assigns to attempt number `n`.
pub open spec fn spec_delay(p: RetryPolicy, n: nat) -> int {
    if n >= p.max_attempts {
        p.max_delay_ms as int
    } else {
        clamped(p.initial_delay_ms as int * spec_pow(p.multiplier as int, n), p.max_delay_ms as int)
    }
}

proof fn lemma_pow_pos(base: int, n: nat)
    requires
        base >= 1,
    ensures
        spec_pow(base, n) >= 1,
    decreases n,
{
    if n > 0 {
        lemma_pow_pos(base, (n - 1) as nat);
        assert(base * spec_pow(base, (n - 1) as nat) >= spec_pow(base, (n - 1) as nat))
            by (nonlinear_arith)
            requires
                base >= 1,
                spec_pow(base, (n - 1) as nat) >= 1,
        ;
    }
}

proof fn lemma_pow_mono(base: int, i: nat, n: nat)
    requires
        base >= 1,
        i <= n,
    ensures
        1 <= spec_pow(base, i) <= spec_pow(base, n),
    decreases n,
{
    lemma_pow_pos(base, i);
    if i < n {
        lemma_pow_mono(base, i, (n - 1) as nat);
        lemma_pow_pos(base, (n - 1) as nat);
        assert(base * spec_pow(base, (n - 1) as nat) >= spec_pow(base, (n - 1) as nat))
            by (nonlinear_arith)
            requires
                base >= 1,
                spec_pow(base, (n - 1) as nat) >= 1,
        ;
    }
}

impl RetryPolicy {
    /// The delay before retry attempt number `attempt`, in milliseconds.
    pub fn delay_for_attempt(&self, attempt: u32) -> (r: u64)
        ensures
            r as int == spec_delay(*self, attempt as nat),
    {
        if attempt >= self.max_attempts {
            return self.max_delay_ms;
        }
        if attempt == 0 {
            return if self.initial_delay_ms <= self.max_delay_ms {
                self.initial_delay_ms
            } else {
                self.max_delay_ms
            };
        }
        if self.multiplier == 0 {
            assert(spec_pow(0, attempt as nat) == 0);
            return 0;
        }
        let mut d: u128 = self.initial_delay_ms as u128;
        let mut i: u32 = 0;
        while i < attempt
            invariant
                i <= attempt,
                self.multiplier >= 1,
                d as int == self.initial_delay_ms as int * spec_pow(self.multiplier as int, i as nat),
                d <= 0xffff_ffff_ffff_ffffu128 * 0xffff_ffff_ffff_ffffu128,
            decreases attempt - i,
        {
            if d > self.max_delay_ms as u128 {
                proof {
                    lemma_pow_mono(self.multiplier as int, i as nat, attempt as nat);
                    let pi = spec_pow(self.multiplier as int, i as nat);
                    let pa = spec_pow(self.multiplier as int, attempt as nat);
                    let init = self.initial_delay_ms as int;
                    lemma_mul_inequality(pi, pa, init);
                    assert(init * pi == pi * init) by (nonlinear_arith);
                    assert(init * pa == pa * init) by (nonlinear_arith);
                    assert(init * pa > self.max_delay_ms as int);
                }
                return self.max_delay_ms;
            }
            proof {
                lemma_pow_pos(self.multiplier as int, i as nat);
                lemma_mul_upper_bound(
                    d as int,
                    0xffff_ffff_ffff_ffff,
                    self.multiplier as int,
                    0xffff_ffff_ffff_ffff,
                );
                assert(self.initial_delay_ms as int * (self.multiplier as int * spec_pow(
                    self.multiplier as int,
                    i as nat,
                )) == (self.initial_delay_ms as int * spec_pow(self.multiplier as int, i as nat))
                    * self.multiplier as int) by (nonlinear_arith);
            }
            d = d * self.multiplier as u128;
            i = i + 1;
        }
        if d > self.max_delay_ms as u128 {
            self.max_delay_ms
        } else {
            d as u64
        }
    }

    /// Whether another attempt is allowed after `attempt` failures.
    pub fn should_retry(&self, attempt: u32) -> (r: bool)
        ensures
            r == (attempt < self.max_attempts),
    {
        attempt < self.max_attempts
    }
}

impl Default for RetryPolicy {
    fn default() -> (r: Self)
        ensures
            r.max_attempts == 5,
            r.initial_delay_ms == 500,
            r.max_delay_ms == 60000,
            r.multiplier == 2,
    {
        RetryPolicy { max_attempts: 5, initial_delay_ms: 500, max_delay_ms: 60000, multiplier: 2 }
    }
}

/// The next delay after a failed attempt, or `None` once the attempt cap is reached.
pub fn next_retry_delay(policy: &RetryPolicy, attempt: u32) -> (r: Option<u64>)
    ensures
        (attempt < policy.max_attempts) == (r is Some),
        r matches Some(d) ==> d as int == spec_delay(*policy, attempt as nat),
{
    if !policy.should_retry(attempt) {
        return None;
    }
    Some(policy.delay_for_attempt(attempt))
}

/// Backoff law: the delay for attempt 0 is the initial delay; below the attempt
/// cap the delay is the exponentially grown initial delay clamped to the
/// maximum; at or past the cap it is exactly the maximum delay.
pub proof fn lemma_backoff_shape(p: RetryPolicy, n: nat)
    ensures
        (n == 0 && p.max_attempts > 0 && p.initial_delay_ms <= p.max_delay_ms) ==> spec_delay(p, n)
            == p.initial_delay_ms as int,
        (0 < n < p.max_attempts) ==> spec_delay(p, n) == clamped(
            p.initial_delay_ms as int * spec_pow(p.multiplier as int, n),
            p.max_delay_ms as int,
        ),
        n >= p.max_attempts ==> spec_delay(p, n) == p.max_delay_ms as int,
{
}

} // verus!
