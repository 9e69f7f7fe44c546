//! Retrying with exponentially growing delays.
use crate::error::SparklingError;
use crate::throttle::min_of;
use vstd::arithmetic::power2::{lemma2_to64, lemma_pow2_pos, lemma_pow2_unfold, pow2};
use vstd::prelude::*;

verus! {

/// A span of time in nanoseconds.
#[derive(Debug, Clone, Copy, PartialEq, Eq, Structural)]
pub struct Delay {
    pub nanos: u128,
}

impl Delay {
    pub fn from_secs(secs: u64) -> (r: Self)
        ensures
            r.nanos == secs * 1_000_000_000,
    {
        Delay { nanos: secs as u128 * 1_000_000_000 }
    }

    pub fn from_millis(millis: u64) -> (r: Self)
        ensures
            r.nanos == millis * 1_000_000,
    {
        Delay { nanos: millis as u128 * 1_000_000 }
    }
}

/// How often a failed request is repeated, and how long to wait before each time: twice
/// as long as before, up to a limit.
#[derive(Debug, Clone, Copy, PartialEq, Eq, Structural)]
pub struct RetryPolicy {
    pub max_retries: u32,
    pub initial: Delay,
    pub max: Delay,
}

impl Default for RetryPolicy {
    fn default() -> (r: Self)
        ensures
            r.max_retries == 5,
            r.initial.nanos == 1_000_000_000,
            r.max.nanos == 30_000_000_000,
    {
        RetryPolicy { max_retries: 5, initial: Delay::from_secs(1), max: Delay::from_secs(30) }
    }
}

/// The delay before attempt `attempt`.
pub open spec fn delay(policy: RetryPolicy, attempt: int) -> int {
    min_of(
        policy.initial.nanos * pow2(min_of(attempt - 1, 30) as nat),
        policy.max.nanos as int,
    )
}

impl RetryPolicy {
    /// Five quick retries.
    pub fn fast() -> (r: Self)
        ensures
            r.max_retries == 5,
            r.initial.nanos == 10_000_000,
            r.max.nanos == 50_000_000,
    {
        RetryPolicy { max_retries: 5, initial: Delay::from_millis(10), max: Delay::from_millis(50) }
    }

    /// The delay before attempt `attempt`, counted from one.
    pub fn backoff(&self, attempt: u32) -> (r: Delay)
        requires
            attempt >= 1,
        ensures
            r.nanos == delay(*self, attempt as int),
    {
        let shift: u32 = if attempt - 1 < 30 { attempt - 1 } else { 30 };
        let mut d: u128 = if self.initial.nanos < self.max.nanos {
            self.initial.nanos
        } else {
            self.max.nanos
        };
        let mut i: u32 = 0;
        proof {
            lemma2_to64();
        }
        while i < shift
            invariant
                i <= shift <= 30,
                d == min_of(self.initial.nanos * pow2(i as nat), self.max.nanos as int),
            decreases shift - i,
        {
            proof {
                let x = self.initial.nanos as int;
                let p = pow2(i as nat) as int;
                let p2 = pow2((i + 1) as nat) as int;
                lemma_pow2_unfold((i + 1) as nat);
                lemma_pow2_pos(i as nat);
                assert(x * p2 == 2 * (x * p)) by (nonlinear_arith)
                    requires
                        p2 == 2 * p,
                ;
            }
            d = if d > self.max.nanos - d { self.max.nanos } else { d + d };
            i = i + 1;
        }
        Delay { nanos: d }
    }
}

/// Delays never exceed the limit and never shrink from one attempt to the next.
pub proof fn delays_grow_to_the_limit(policy: RetryPolicy, attempt: int)
    requires
        attempt >= 1,
    ensures
        delay(policy, attempt) <= policy.max.nanos,
        delay(policy, attempt) <= delay(policy, attempt + 1),
        delay(policy, 1) == min_of(policy.initial.nanos as int, policy.max.nanos as int),
{
    lemma2_to64();
    assert(policy.initial.nanos * pow2(0) == policy.initial.nanos) by (nonlinear_arith)
        requires
            pow2(0) == 1,
    ;
    let a = min_of(attempt - 1, 30);
    let b = min_of(attempt, 30);
    let x = policy.initial.nanos as int;
    let p = pow2(a as nat) as int;
    let q = pow2(b as nat) as int;
    lemma_pow2_pos(a as nat);
    if b == a + 1 {
        lemma_pow2_unfold(b as nat);
    }
    assert(x * p <= x * q) by (nonlinear_arith)
        requires
            x >= 0,
            0 < p <= q,
    ;
}

/// The first delay is the initial one, and each is twice the one before, as far as the limit
/// allows; after the thirtieth doubling it stays.
pub proof fn delays_double(policy: RetryPolicy, attempt: int)
    requires
        attempt >= 1,
    ensures
        delay(policy, 1) == if policy.initial.nanos <= policy.max.nanos {
            policy.initial.nanos as int
        } else {
            policy.max.nanos as int
        },
        attempt <= 30 ==> delay(policy, attempt + 1) == if 2 * delay(policy, attempt)
            <= policy.max.nanos {
            2 * delay(policy, attempt)
        } else {
            policy.max.nanos as int
        },
        attempt >= 31 ==> delay(policy, attempt + 1) == delay(policy, attempt),
{
    delays_grow_to_the_limit(policy, attempt);
    if attempt <= 30 {
        let x = policy.initial.nanos as int;
        let p = pow2((attempt - 1) as nat) as int;
        let q = pow2(attempt as nat) as int;
        lemma_pow2_unfold(attempt as nat);
        assert(x * q == 2 * (x * p)) by (nonlinear_arith)
            requires
                q == 2 * p,
        ;
    }
}

/// What comes after a failed attempt.
#[derive(Debug)]
pub enum RetryStep {
    /// Wait, then try again.
    Again(Delay),
    /// No attempt is left.
    GiveUp(SparklingError),
}

/// The failures counted so far of one request that is repeated under a policy.
#[derive(Debug, Clone, Copy, PartialEq, Eq, Structural)]
pub struct RetryCount {
    pub attempt: u32,
}

impl RetryCount {
    pub fn new() -> (r: Self)
        ensures
            r.attempt == 0,
    {
        RetryCount { attempt: 0 }
    }

    /// Counts a failure: the request is repeated until `max_retries` repetitions have
    /// failed too, and then the last error stands.
    pub fn on_failure(&mut self, policy: &RetryPolicy, e: SparklingError) -> (r: RetryStep)
        requires
            old(self).attempt < u32::MAX,
        ensures
            final(self).attempt == old(self).attempt + 1,
            match r {
                RetryStep::Again(d) => final(self).attempt <= policy.max_retries && d.nanos
                    == delay(*policy, final(self).attempt as int),
                RetryStep::GiveUp(last) => final(self).attempt > policy.max_retries && last == e,
            },
    {
        self.attempt = self.attempt + 1;
        if self.attempt > policy.max_retries {
            RetryStep::GiveUp(e)
        } else {
            RetryStep::Again(policy.backoff(self.attempt))
        }
    }
}

} // verus!
