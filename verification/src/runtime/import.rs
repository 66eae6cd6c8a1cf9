//! Import session admission: learned concurrency and batch tokens.
//!
//! A session starts with one batch at a time. Saturated clean completions
//! slowly raise its concurrency limit, and each retryable conflict halves it;
//! the configured maximum is a hard ceiling.

use vstd::prelude::*;

use crate::api::error::{plain_error, Error, ErrorKind, Result};
use crate::api::identifiers::BatchToken;
use crate::api::operation::ImportOptions;
use crate::api::search::lesser;

verus! {

/// The clean completion windows before one more concurrent batch is tried.
pub const CLEAN_WINDOWS_PER_INCREASE: usize = 8;

/// The longest clean window after repeated contention.
pub const MAX_CLEAN_WINDOWS_PER_INCREASE: usize = 64;

/// The place of one accepted batch.
#[derive(Clone, Copy, Debug, PartialEq, Eq, Structural)]
pub enum ImportPermitState {
    /// Its attempt runs.
    Active,
    /// It waits to retry after contention.
    WaitingRetry,
    /// It is done.
    Released,
}

/// One session's additive-increase, multiplicative-decrease controller.
#[derive(Clone, Copy, Debug, PartialEq, Eq, Structural)]
pub struct ImportConcurrency {
    /// The most accepted batches.
    pub maximum: usize,
    /// The batches whose attempt runs.
    pub active: usize,
    /// Whether a new batch waits for a slot.
    pub submission_waiting: bool,
    /// The batches that wait to retry.
    pub waiting_retries: usize,
    /// The learned limit on running attempts.
    pub limit: usize,
    /// The clean saturated completions since the last change.
    pub clean_completions: usize,
    /// The clean windows needed for the next increase.
    pub clean_window: usize,
}

/// The clean completions that raise a limit.
pub open spec fn increase_threshold(limit: usize, clean_window: usize) -> int {
    lesser(limit * clean_window, usize::MAX as int)
}

impl ImportConcurrency {
    /// Whether the counts and the learned values are within their bounds.
    pub open spec fn well_formed(self) -> bool {
        &&& self.maximum > 0
        &&& self.active + self.waiting_retries <= self.maximum
        &&& 1 <= self.limit <= self.maximum
        &&& CLEAN_WINDOWS_PER_INCREASE <= self.clean_window <= MAX_CLEAN_WINDOWS_PER_INCREASE
    }

    /// Whether a permit is accounted for.
    pub open spec fn holds(self, permit: ImportPermitState) -> bool {
        match permit {
            ImportPermitState::Active => self.active > 0,
            ImportPermitState::WaitingRetry => self.waiting_retries > 0,
            ImportPermitState::Released => true,
        }
    }

    /// Whether a new batch may start: below both limits and ahead of no retry.
    pub open spec fn has_slot(self) -> bool {
        &&& self.active + self.waiting_retries < self.maximum
        &&& self.active < self.limit
        &&& self.waiting_retries == 0
    }

    /// Whether a finishing batch shows that the limit is what holds the
    /// session back.
    pub open spec fn saturated(self, permit: ImportPermitState) -> bool {
        &&& permit == ImportPermitState::Active
        &&& self.active == self.limit
        &&& self.submission_waiting
        &&& self.waiting_retries == 0
    }

    /// The controller after a permit's batch gave up its place.
    pub open spec fn without(self, permit: ImportPermitState) -> ImportConcurrency {
        match permit {
            ImportPermitState::Active => ImportConcurrency {
                active: (self.active - 1) as usize,
                ..self
            },
            ImportPermitState::WaitingRetry => ImportConcurrency {
                waiting_retries: (self.waiting_retries - 1) as usize,
                ..self
            },
            ImportPermitState::Released => self,
        }
    }

    /// Whether one finished batch raises the limit.
    pub open spec fn raises(self, permit: ImportPermitState, clean: bool) -> bool {
        &&& clean && self.saturated(permit) && self.limit < self.maximum
        &&& lesser(self.clean_completions + 1, usize::MAX as int) >= increase_threshold(
            self.limit,
            self.clean_window,
        )
    }

    /// The controller after one finished batch.
    pub open spec fn finished(self, permit: ImportPermitState, clean: bool) -> ImportConcurrency {
        let rest = self.without(permit);
        if self.raises(permit, clean) {
            ImportConcurrency { limit: (self.limit + 1) as usize, clean_completions: 0, ..rest }
        } else if clean && self.saturated(permit) && self.limit < self.maximum {
            ImportConcurrency {
                clean_completions: lesser(self.clean_completions + 1, usize::MAX as int) as usize,
                ..rest
            }
        } else {
            rest
        }
    }

    /// The halved limit.
    pub open spec fn contracted(self) -> usize {
        if self.limit / 2 >= 1 {
            (self.limit / 2) as usize
        } else {
            1
        }
    }

    /// The controller after one running batch met contention.
    pub open spec fn paused(self) -> ImportConcurrency {
        ImportConcurrency {
            active: (self.active - 1) as usize,
            waiting_retries: (self.waiting_retries + 1) as usize,
            limit: self.contracted(),
            clean_completions: 0,
            clean_window: if self.contracted() < self.limit {
                lesser(self.clean_window * 2, MAX_CLEAN_WINDOWS_PER_INCREASE as int) as usize
            } else {
                self.clean_window
            },
            ..self
        }
    }

    /// A controller whose first batch runs alone.
    pub fn new(maximum: usize) -> (res: Self)
        requires
            maximum > 0,
        ensures
            res.well_formed(),
            res == (ImportConcurrency {
                maximum,
                active: 0,
                submission_waiting: false,
                waiting_retries: 0,
                limit: 1,
                clean_completions: 0,
                clean_window: CLEAN_WINDOWS_PER_INCREASE,
            }),
    {
        ImportConcurrency {
            maximum,
            active: 0,
            submission_waiting: false,
            waiting_retries: 0,
            limit: 1,
            clean_completions: 0,
            clean_window: CLEAN_WINDOWS_PER_INCREASE,
        }
    }

    /// Tries to start a new batch. While it cannot start, it is registered as
    /// waiting; `registered` remembers that for this submission.
    pub fn try_acquire(&mut self, registered: &mut bool) -> (res: bool)
        requires
            old(self).well_formed(),
        ensures
            final(self).well_formed(),
            res == old(self).has_slot(),
            res ==> *final(self) == (ImportConcurrency {
                active: (old(self).active + 1) as usize,
                submission_waiting: if *old(registered) {
                    false
                } else {
                    old(self).submission_waiting
                },
                ..*old(self)
            }) && !*final(registered),
            !res ==> *final(self) == (ImportConcurrency {
                submission_waiting: if *old(registered) {
                    old(self).submission_waiting
                } else {
                    true
                },
                ..*old(self)
            }) && *final(registered),
            res ==> final(self).holds(ImportPermitState::Active),
    {
        if self.active + self.waiting_retries < self.maximum && self.active < self.limit
            && self.waiting_retries == 0 {
            if *registered {
                self.submission_waiting = false;
                *registered = false;
            }
            self.active = self.active + 1;
            return true;
        }
        if !*registered {
            self.submission_waiting = true;
            *registered = true;
        }
        false
    }

    /// Withdraws a waiting submission.
    pub fn cancel_wait(&mut self, registered: &mut bool)
        requires
            old(self).well_formed(),
        ensures
            final(self).well_formed(),
            !*final(registered),
            *final(self) == if *old(registered) {
                ImportConcurrency { submission_waiting: false, ..*old(self) }
            } else {
                *old(self)
            },
    {
        if *registered {
            self.submission_waiting = false;
            *registered = false;
        }
    }

    /// Releases a batch's place and counts it. Returns the limit it raised.
    pub fn finish(&mut self, permit: &mut ImportPermitState, clean: bool) -> (res: Option<usize>)
        requires
            old(self).well_formed(),
            old(self).holds(*old(permit)),
        ensures
            final(self).well_formed(),
            *final(permit) == ImportPermitState::Released,
            *final(self) == old(self).finished(*old(permit), clean),
            res == if old(self).raises(*old(permit), clean) {
                Some((old(self).limit + 1) as usize)
            } else {
                None
            },
    {
        let saturated = *permit == ImportPermitState::Active && self.active == self.limit
            && self.submission_waiting && self.waiting_retries == 0;
        match *permit {
            ImportPermitState::Released => {
                return None;
            },
            ImportPermitState::Active => {
                self.active = self.active - 1;
            },
            ImportPermitState::WaitingRetry => {
                self.waiting_retries = self.waiting_retries - 1;
            },
        }
        *permit = ImportPermitState::Released;
        if clean && saturated && self.limit < self.maximum {
            self.clean_completions = self.clean_completions.saturating_add(1);
            let threshold: usize = match self.limit.checked_mul(self.clean_window) {
                Some(threshold) => threshold,
                None => usize::MAX,
            };
            if self.clean_completions >= threshold {
                self.limit = self.limit + 1;
                self.clean_completions = 0;
                return Some(self.limit);
            }
        }
        None
    }

    /// Takes a contended batch out of the running window and contracts it.
    /// Returns the limit it lowered.
    pub fn pause_for_contention(&mut self, permit: &mut ImportPermitState) -> (res: Option<usize>)
        requires
            old(self).well_formed(),
            old(self).holds(*old(permit)),
            *old(permit) == ImportPermitState::Active,
        ensures
            final(self).well_formed(),
            *final(permit) == ImportPermitState::WaitingRetry,
            final(self).holds(*final(permit)),
            *final(self) == old(self).paused(),
            res == if old(self).contracted() < old(self).limit {
                Some(old(self).contracted())
            } else {
                None
            },
    {
        self.active = self.active - 1;
        self.waiting_retries = self.waiting_retries + 1;
        *permit = ImportPermitState::WaitingRetry;
        let previous: usize = self.limit;
        let half: usize = previous / 2;
        self.limit = if half >= 1 {
            half
        } else {
            1
        };
        self.clean_completions = 0;
        if self.limit < previous {
            let doubled: usize = self.clean_window * 2;
            self.clean_window = if doubled <= MAX_CLEAN_WINDOWS_PER_INCREASE {
                doubled
            } else {
                MAX_CLEAN_WINDOWS_PER_INCREASE
            };
            return Some(self.limit);
        }
        None
    }

    /// Tries to let a waiting batch run again.
    pub fn try_resume(&mut self, permit: &mut ImportPermitState) -> (res: bool)
        requires
            old(self).well_formed(),
            old(self).holds(*old(permit)),
            *old(permit) == ImportPermitState::WaitingRetry,
        ensures
            final(self).well_formed(),
            final(self).holds(*final(permit)),
            res == (old(self).active < old(self).limit),
            res ==> *final(permit) == ImportPermitState::Active && *final(self) == (
            ImportConcurrency {
                active: (old(self).active + 1) as usize,
                waiting_retries: (old(self).waiting_retries - 1) as usize,
                ..*old(self)
            }),
            !res ==> *final(permit) == *old(permit) && *final(self) == *old(self),
    {
        if self.active < self.limit {
            self.waiting_retries = self.waiting_retries - 1;
            self.active = self.active + 1;
            *permit = ImportPermitState::Active;
            return true;
        }
        false
    }
}

/// The limit only ever moves by one up or by half down, and stays between one
/// and the maximum. Contention never leaves a shorter clean window.
pub proof fn limits_stay_bounded(
    state: ImportConcurrency,
    permit: ImportPermitState,
    clean: bool,
)
    requires
        state.well_formed(),
        state.holds(permit),
    ensures
        state.finished(permit, clean).limit == state.limit || state.finished(permit, clean).limit
            == state.limit + 1,
        1 <= state.finished(permit, clean).limit <= state.maximum,
        permit == ImportPermitState::Active ==> {
            &&& 1 <= state.paused().limit <= state.limit
            &&& state.paused().limit <= (state.limit + 1) / 2
            &&& state.paused().clean_window >= state.clean_window
        },
{
}

/// Contended or failed batches, and batches finishing while nobody waits for a
/// slot, never raise the limit.
pub proof fn only_clean_saturation_raises(
    state: ImportConcurrency,
    permit: ImportPermitState,
    clean: bool,
)
    requires
        state.well_formed(),
        state.holds(permit),
        state.finished(permit, clean).limit > state.limit,
    ensures
        clean,
        permit == ImportPermitState::Active,
        state.submission_waiting,
        state.active == state.limit,
        state.waiting_retries == 0,
{
}

/// The batch tokens of one session.
#[derive(Clone, Copy, Debug, PartialEq, Eq, Structural)]
pub struct TokenSequence {
    /// The last issued token, zero before the first.
    pub last: u64,
}

impl TokenSequence {
    /// No token issued yet.
    pub fn new() -> (res: Self)
        ensures
            res.last == 0,
    {
        TokenSequence { last: 0 }
    }

    /// Issues the next token: one more than the last. An exhausted sequence
    /// exceeds its limit.
    pub fn issue(&mut self) -> (res: Result<BatchToken>)
        ensures
            match res {
                Ok(token) => {
                    &&& token@ == old(self).last + 1
                    &&& final(self).last == token@
                },
                Err(error) => {
                    &&& old(self).last == u64::MAX
                    &&& *final(self) == *old(self)
                    &&& error == plain_error(ErrorKind::LimitExceeded)
                },
            },
    {
        if self.last == u64::MAX {
            return Err(Error::new(ErrorKind::LimitExceeded));
        }
        let value: u64 = self.last + 1;
        match BatchToken::new(value) {
            Ok(token) => {
                self.last = value;
                Ok(token)
            },
            Err(error) => Err(error),
        }
    }
}

/// Returns the most in-flight batches of a new Import Session: its own limit,
/// or the Runtime's. A Runtime that is closing opens none.
pub fn session_limit(accepting: bool, options: ImportOptions, configured: usize) -> (res: Result<
    usize,
>)
    ensures
        res == if accepting {
            Ok::<usize, Error>(
                match options@.in_flight_batches {
                    Some(batches) => batches,
                    None => configured,
                },
            )
        } else {
            Err::<usize, Error>(plain_error(ErrorKind::RuntimeClosed))
        },
{
    if !accepting {
        return Err(Error::new(ErrorKind::RuntimeClosed));
    }
    match options.in_flight_batches() {
        Some(batches) => Ok(batches),
        None => Ok(configured),
    }
}

/// What a submission does first.
#[derive(Clone, Copy, Debug, PartialEq, Eq, Structural)]
pub enum SubmitStep {
    /// Issue a token at once: an empty batch does no storage work.
    IssueEmpty,
    /// Wait for a slot, then for the backlog gate.
    Acquire,
}

/// Decides how a submission starts; a closing runtime refuses it.
pub fn begin_submit(accepting: bool, empty: bool) -> (res: Result<SubmitStep>)
    ensures
        res == if !accepting {
            Err::<SubmitStep, Error>(plain_error(ErrorKind::RuntimeClosed))
        } else if empty {
            Ok::<SubmitStep, Error>(SubmitStep::IssueEmpty)
        } else {
            Ok::<SubmitStep, Error>(SubmitStep::Acquire)
        },
{
    if !accepting {
        return Err(Error::new(ErrorKind::RuntimeClosed));
    }
    if empty {
        return Ok(SubmitStep::IssueEmpty);
    }
    Ok(SubmitStep::Acquire)
}

/// Decides a submission that has its slot; a runtime that closed meanwhile
/// refuses it.
pub fn slot_acquired(accepting: bool) -> (res: Result<()>)
    ensures
        res is Ok <==> accepting,
        res matches Err(error) ==> error == plain_error(ErrorKind::RuntimeClosed),
{
    if accepting {
        Ok(())
    } else {
        Err(Error::new(ErrorKind::RuntimeClosed))
    }
}

} // verus!
