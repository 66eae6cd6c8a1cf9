//! Whole-operation retry policy with capped, fully jittered backoff.

use vstd::arithmetic::power2::{lemma2_to64, lemma_pow2_adds, lemma_pow2_strictly_increases, pow2};
use vstd::prelude::*;

use crate::api::config::RuntimeConfig;
use crate::api::duration::Duration;
use crate::api::error::{plain_error, Error, ErrorKind, Result};
use crate::hashing::{jitter_sample, le_bytes, xxh3_64_of};

verus! {

/// The longest doubling run of the backoff.
pub const MAX_BACKOFF_SHIFT: u32 = 31;

/// Whole-operation retry policy copied from one validated configuration.
#[derive(Clone, Copy, Debug, PartialEq, Eq, Structural)]
pub struct RetryPolicy {
    /// The most attempts, the first one included.
    pub attempts: u32,
    /// The first backoff.
    pub initial_backoff: Duration,
    /// The longest backoff.
    pub max_backoff: Duration,
}

/// The number of doublings after some failed attempts.
pub open spec fn doublings(failed_attempts: u32) -> nat {
    if failed_attempts < MAX_BACKOFF_SHIFT {
        failed_attempts as nat
    } else {
        MAX_BACKOFF_SHIFT as nat
    }
}

/// The jittered part of an interval: the sample's share of the whole, in
/// nanoseconds and at most `u64::MAX`.
pub open spec fn share(sample: u64, interval: nat) -> nat {
    let scaled = sample as nat * interval / (u64::MAX as nat);
    if scaled > u64::MAX {
        u64::MAX as nat
    } else {
        scaled
    }
}

impl RetryPolicy {
    /// The policy of a foreground operation.
    pub fn from_config(config: &RuntimeConfig) -> (res: Self)
        ensures
            res == (RetryPolicy {
                attempts: config@.foreground_attempts,
                initial_backoff: config@.retry_initial_backoff,
                max_backoff: config@.retry_max_backoff,
            }),
    {
        RetryPolicy {
            attempts: config.foreground_attempts(),
            initial_backoff: config.retry_initial_backoff(),
            max_backoff: config.retry_max_backoff(),
        }
    }

    /// The policy of a maintenance step.
    pub fn for_fixup(config: &RuntimeConfig) -> (res: Self)
        ensures
            res == (RetryPolicy {
                attempts: config@.fixup_attempts,
                initial_backoff: config@.retry_initial_backoff,
                max_backoff: config@.retry_max_backoff,
            }),
    {
        RetryPolicy {
            attempts: config.fixup_attempts(),
            initial_backoff: config.retry_initial_backoff(),
            max_backoff: config.retry_max_backoff(),
        }
    }

    /// Whether one more failed attempt uses up the policy.
    pub open spec fn exhausted_after(self, failed_attempts: u32) -> bool {
        failed_attempts == u32::MAX || failed_attempts + 1 >= self.attempts
    }

    /// Returns whether one more failed attempt uses up the policy.
    pub fn would_exhaust(self, failed_attempts: u32) -> (res: bool)
        ensures
            res == self.exhausted_after(failed_attempts),
    {
        failed_attempts.saturating_add(1) >= self.attempts
    }

    /// The interval to wait within after some failed attempts: the first
    /// backoff doubled per failed attempt, at most the longest.
    pub open spec fn interval(self, failed_attempts: u32) -> nat {
        let doubled = self.initial_backoff@ * pow2(doublings(failed_attempts));
        if doubled <= self.max_backoff@ {
            doubled
        } else {
            self.max_backoff@
        }
    }

    /// Returns the interval to wait within after some failed attempts.
    pub fn backoff(self, failed_attempts: u32) -> (res: Duration)
        ensures
            res@ == self.interval(failed_attempts),
    {
        let shift: u32 = if failed_attempts < MAX_BACKOFF_SHIFT {
            failed_attempts
        } else {
            MAX_BACKOFF_SHIFT
        };
        let mut factor: u128 = 1;
        let mut done: u32 = 0;
        proof {
            lemma2_to64();
        }
        while done < shift
            invariant
                done <= shift <= 31,
                factor == pow2(done as nat),
            decreases shift - done,
        {
            proof {
                lemma2_to64();
                lemma_pow2_adds(done as nat, 1);
                lemma_pow2_strictly_increases(done as nat, 31);
            }
            factor = factor * 2;
            done = done + 1;
        }
        proof {
            lemma2_to64();
            if shift < 31 {
                lemma_pow2_strictly_increases(shift as nat, 31);
            }
        }
        self.initial_backoff.scaled_up_to(factor, self.max_backoff)
    }

    /// Decides how to go on after a retryable failure: the nanoseconds to wait
    /// before the next attempt, or exhausted contention. `sequence` numbers
    /// the retries of this process; its hash spreads their waits.
    pub fn wait_or_exhaust(self, failed_attempts: &mut u32, sequence: u64) -> (res: Result<u64>)
        ensures
            match res {
                Ok(nanos) => {
                    &&& !self.exhausted_after(*old(failed_attempts))
                    &&& *final(failed_attempts) == *old(failed_attempts) + 1
                    &&& nanos == share(
                        xxh3_64_of(le_bytes(sequence as nat, 8)),
                        self.interval(*old(failed_attempts)),
                    )
                },
                Err(error) => {
                    &&& self.exhausted_after(*old(failed_attempts))
                    &&& *final(failed_attempts) == *old(failed_attempts)
                    &&& error == plain_error(ErrorKind::ContentionExhausted)
                },
            },
    {
        if self.would_exhaust(*failed_attempts) {
            return Err(Error::new(ErrorKind::ContentionExhausted));
        }
        let nanos: u64 = jittered(jitter_sample(sequence), self.backoff(*failed_attempts));
        *failed_attempts = *failed_attempts + 1;
        Ok(nanos)
    }
}

/// Returns the sample's share of an interval, in nanoseconds.
pub fn jittered(sample: u64, interval: Duration) -> (res: u64)
    ensures
        res == share(sample, interval@),
{
    let nanos: u128 = interval.as_nanos();
    match (sample as u128).checked_mul(nanos) {
        None => {
            proof {
                let product = sample as int * nanos as int;
                assert(product / (u64::MAX as int) > u64::MAX) by (nonlinear_arith)
                    requires
                        product > u128::MAX,
                        u128::MAX == 0xffff_ffff_ffff_ffff_ffff_ffff_ffff_ffff,
                        u64::MAX == 0xffff_ffff_ffff_ffff,
                ;
            }
            u64::MAX
        },
        Some(product) => {
            let scaled: u128 = product / (u64::MAX as u128);
            if scaled > u64::MAX as u128 {
                u64::MAX
            } else {
                scaled as u64
            }
        },
    }
}

/// A jittered wait never exceeds its interval, and the interval never exceeds
/// the policy's longest backoff.
pub proof fn waits_stay_within_the_backoff(
    policy: RetryPolicy,
    failed_attempts: u32,
    sample: u64,
)
    ensures
        share(sample, policy.interval(failed_attempts)) <= policy.interval(failed_attempts),
        policy.interval(failed_attempts) <= policy.max_backoff@,
{
    let interval = policy.interval(failed_attempts);
    assert(sample as nat * interval / (u64::MAX as nat) <= interval) by (nonlinear_arith)
        requires
            sample <= u64::MAX,
            u64::MAX == 0xffff_ffff_ffff_ffff,
    ;
}

/// A policy of `n` attempts retries exactly `n - 1` times.
pub proof fn attempts_are_bounded(policy: RetryPolicy, failed_attempts: u32)
    requires
        policy.attempts > 0,
    ensures
        !policy.exhausted_after(failed_attempts) <==> failed_attempts + 1 < policy.attempts,
{
}

} // verus!
