//! The independent resource limits of one verification.

use vstd::prelude::*;

use crate::api::verify::VerifyOptions;

verus! {

/// The bounded resource ledger of one audit.
#[derive(Clone, Copy, Debug, PartialEq, Eq, Structural)]
pub struct Limits {
    /// The objects that may still be visited.
    pub objects_remaining: u64,
    /// The issues that may still be reported.
    pub issues_remaining: usize,
    /// The resident bytes in use.
    pub memory_used: u64,
    /// The most resident bytes.
    pub memory_limit: u64,
}

impl Limits {
    /// Whether more resident bytes fit.
    pub open spec fn fits(self, bytes: u64) -> bool {
        self.memory_used + bytes <= self.memory_limit
    }

    /// The ledger of one audit before it starts.
    pub fn new(options: &VerifyOptions) -> (res: Self)
        ensures
            res == (Limits {
                objects_remaining: options@.object_limit,
                issues_remaining: options@.issue_limit,
                memory_used: 0,
                memory_limit: options@.memory_limit_bytes,
            }),
    {
        Limits {
            objects_remaining: options.object_limit(),
            issues_remaining: options.issue_limit(),
            memory_used: 0,
            memory_limit: options.memory_limit_bytes(),
        }
    }

    /// Charges one visited object; `false` exhausts the audit.
    pub fn charge_object(&mut self) -> (res: bool)
        ensures
            res == (old(self).objects_remaining > 0),
            *final(self) == if res {
                Limits {
                    objects_remaining: (old(self).objects_remaining - 1) as u64,
                    ..*old(self)
                }
            } else {
                *old(self)
            },
    {
        if self.objects_remaining == 0 {
            return false;
        }
        self.objects_remaining = self.objects_remaining - 1;
        true
    }

    /// Reserves resident bytes; `false` exceeds the memory limit.
    pub fn charge_memory(&mut self, bytes: u64) -> (res: bool)
        ensures
            res == old(self).fits(bytes),
            *final(self) == if res {
                Limits { memory_used: (old(self).memory_used + bytes) as u64, ..*old(self) }
            } else {
                *old(self)
            },
    {
        match self.memory_used.checked_add(bytes) {
            Some(used) => {
                if used <= self.memory_limit {
                    self.memory_used = used;
                    true
                } else {
                    false
                }
            },
            None => false,
        }
    }

    /// Releases resident bytes; it never goes below zero.
    pub fn release_memory(&mut self, bytes: u64)
        ensures
            *final(self) == (Limits {
                memory_used: if old(self).memory_used >= bytes {
                    (old(self).memory_used - bytes) as u64
                } else {
                    0
                },
                ..*old(self)
            }),
    {
        self.memory_used = self.memory_used.saturating_sub(bytes);
    }

    /// Reserves one reported issue; `false` exhausts the audit.
    pub fn take_issue_slot(&mut self) -> (res: bool)
        ensures
            res == (old(self).issues_remaining > 0),
            *final(self) == if res {
                Limits {
                    issues_remaining: (old(self).issues_remaining - 1) as usize,
                    ..*old(self)
                }
            } else {
                *old(self)
            },
    {
        if self.issues_remaining == 0 {
            return false;
        }
        self.issues_remaining = self.issues_remaining - 1;
        true
    }
}

} // verus!
