//! Whole-attempt write retries.
//!
//! Each attempt starts from a fresh transaction. A definite abort replays the
//! whole operation under its bounded policy; a commit of unknown outcome is
//! returned, never retried.

use vstd::prelude::*;

use crate::api::error::{plain_error, Error, ErrorKind};
use crate::hashing::{le_bytes, xxh3_64_of};
use crate::runtime::retry::{share, RetryPolicy};

verus! {

/// What follows one failed attempt.
pub enum AttemptEnd {
    /// Try again after this many nanoseconds.
    Retry {
        /// The wait.
        wait_nanos: u64,
    },
    /// Give up.
    Fail {
        /// The failure.
        error: Error,
    },
}

/// The attempts of one write operation.
#[derive(Clone, Copy, Debug, PartialEq, Eq, Structural)]
pub struct Attempts {
    /// The policy.
    pub policy: RetryPolicy,
    /// The attempts that failed so far.
    pub failed: u32,
}

impl Attempts {
    /// No attempt made yet.
    pub fn new(policy: RetryPolicy) -> (res: Self)
        ensures
            res == (Attempts { policy, failed: 0 }),
    {
        Attempts { policy, failed: 0 }
    }

    /// The wait before the next attempt.
    pub open spec fn wait(self, sequence: u64) -> nat {
        share(xxh3_64_of(le_bytes(sequence as nat, 8)), self.policy.interval(self.failed))
    }

    /// Decides what follows one failed attempt. Only a definite abort is
    /// retried, until the policy is exhausted; every other failure is final.
    /// `sequence` numbers the retries of this process.
    pub fn failed(&mut self, error: Error, sequence: u64) -> (res: AttemptEnd)
        ensures
            final(self).policy == old(self).policy,
            if error@.kind != ErrorKind::RetryableAbort {
                &&& res == (AttemptEnd::Fail { error })
                &&& *final(self) == *old(self)
            } else if old(self).policy.exhausted_after(old(self).failed) {
                &&& res == (AttemptEnd::Fail { error: plain_error(ErrorKind::ContentionExhausted) })
                &&& *final(self) == *old(self)
            } else {
                &&& res matches AttemptEnd::Retry { wait_nanos } && wait_nanos == old(self).wait(
                    sequence,
                )
                &&& final(self).failed == old(self).failed + 1
            },
    {
        if error.kind() != ErrorKind::RetryableAbort {
            return AttemptEnd::Fail { error };
        }
        match self.policy.wait_or_exhaust(&mut self.failed, sequence) {
            Ok(wait_nanos) => AttemptEnd::Retry { wait_nanos },
            Err(error) => AttemptEnd::Fail { error },
        }
    }

    /// Decides what follows an attempt that found no `Ready` merge target: it
    /// staged nothing, so the operation retries whole.
    pub fn blocked(&mut self, sequence: u64) -> (res: AttemptEnd)
        ensures
            final(self).policy == old(self).policy,
            if old(self).policy.exhausted_after(old(self).failed) {
                &&& res == (AttemptEnd::Fail { error: plain_error(ErrorKind::ContentionExhausted) })
                &&& *final(self) == *old(self)
            } else {
                &&& res matches AttemptEnd::Retry { wait_nanos } && wait_nanos == old(self).wait(
                    sequence,
                )
                &&& final(self).failed == old(self).failed + 1
            },
    {
        match self.policy.wait_or_exhaust(&mut self.failed, sequence) {
            Ok(wait_nanos) => AttemptEnd::Retry { wait_nanos },
            Err(error) => AttemptEnd::Fail { error },
        }
    }
}

} // verus!
