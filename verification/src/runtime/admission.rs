//! Foreground admission, operation control, and orderly shutdown.

use vstd::prelude::*;

use crate::api::error::{plain_error, Error, ErrorKind, Result};

verus! {

/// What the caller's control says about an operation right now. Times are
/// nanoseconds on one monotonic process clock.
#[derive(Clone, Copy, Debug, PartialEq, Eq, Structural)]
pub struct Control {
    /// Whether the caller cancelled.
    pub cancelled: bool,
    /// The caller's deadline, if any.
    pub deadline: Option<u64>,
    /// The current time.
    pub now: u64,
}

impl Control {
    /// Whether the deadline has passed.
    pub open spec fn expired(self) -> bool {
        self.deadline matches Some(deadline) && deadline <= self.now
    }

    /// The failure the control demands, if any: cancellation before an expired
    /// deadline.
    pub open spec fn failure(self) -> Option<ErrorKind> {
        if self.cancelled {
            Some(ErrorKind::Cancelled)
        } else if self.expired() {
            Some(ErrorKind::DeadlineExceeded)
        } else {
            None
        }
    }
}

/// Checks an operation against its control.
pub fn check_control(control: Control) -> (res: Result<()>)
    ensures
        res == match control.failure() {
            Some(kind) => Err::<(), Error>(plain_error(kind)),
            None => Ok::<(), Error>(()),
        },
{
    if control.cancelled {
        return Err(Error::new(ErrorKind::Cancelled));
    }
    if let Some(deadline) = control.deadline {
        if deadline <= control.now {
            return Err(Error::new(ErrorKind::DeadlineExceeded));
        }
    }
    Ok(())
}

/// The phase of one runtime.
#[derive(Clone, Copy, Debug, PartialEq, Eq, Structural)]
pub enum Phase {
    /// New work is admitted.
    Accepting,
    /// Only admitted work goes on.
    Closing,
    /// The backend is being released.
    Releasing,
    /// The backend is gone.
    Closed,
}

impl Phase {
    /// The order of phases.
    pub open spec fn rank(self) -> nat {
        match self {
            Phase::Accepting => 0,
            Phase::Closing => 1,
            Phase::Releasing => 2,
            Phase::Closed => 3,
        }
    }
}

/// One runtime's phase, its admitted work, and whether it holds its backend.
#[derive(Clone, Copy, Debug, PartialEq, Eq, Structural)]
pub struct Lifecycle {
    /// The phase.
    pub phase: Phase,
    /// The operations and workers in progress.
    pub active: usize,
    /// Whether the backend is held.
    pub backend_held: bool,
}

/// What beginning a shutdown leads to.
#[derive(Clone, Copy, Debug, PartialEq, Eq, Structural)]
pub struct ShutdownStart {
    /// Whether this call stopped admission.
    pub started_closing: bool,
    /// Whether the caller must release the backend.
    pub release: bool,
}

impl Lifecycle {
    /// Whether the backend is held exactly until it is released, and is only
    /// released once no work is left.
    pub open spec fn well_formed(self) -> bool {
        match self.phase {
            Phase::Accepting => self.backend_held,
            Phase::Closing => self.backend_held && self.active > 0,
            Phase::Releasing => !self.backend_held && self.active == 0,
            Phase::Closed => !self.backend_held && self.active == 0,
        }
    }

    /// The lifecycle once the phase is closing: with no work left it releases.
    pub open spec fn drained(self) -> Lifecycle {
        if self.phase == Phase::Closing && self.active == 0 {
            Lifecycle { phase: Phase::Releasing, active: 0, backend_held: false }
        } else {
            self
        }
    }

    /// The lifecycle after admission stopped.
    pub open spec fn closing(self) -> Lifecycle {
        if self.phase == Phase::Accepting {
            Lifecycle { phase: Phase::Closing, ..self }.drained()
        } else {
            self.drained()
        }
    }

    /// Whether an operation under a control is admitted.
    pub open spec fn admits(self, control: Control) -> bool {
        control.failure() is None && self.phase == Phase::Accepting
    }

    /// The lifecycle after an operation asked for admission.
    pub open spec fn entered(self, control: Control) -> Lifecycle {
        if self.admits(control) {
            Lifecycle { active: (self.active + 1) as usize, ..self }
        } else {
            self
        }
    }

    /// The lifecycle after one operation ended.
    pub open spec fn finished(self) -> Lifecycle {
        if self.active > 0 {
            Lifecycle { active: (self.active - 1) as usize, ..self }.drained()
        } else {
            self
        }
    }

    /// An accepting runtime without work.
    pub fn new() -> (res: Self)
        ensures
            res.well_formed(),
            res == (Lifecycle { phase: Phase::Accepting, active: 0, backend_held: true }),
    {
        Lifecycle { phase: Phase::Accepting, active: 0, backend_held: true }
    }

    /// Returns whether new work is admitted.
    pub fn is_accepting(&self) -> (res: bool)
        ensures
            res == (self.phase == Phase::Accepting),
    {
        self.phase == Phase::Accepting
    }

    /// Admits one operation under its control; a runtime that no longer
    /// accepts refuses it.
    pub fn enter(&mut self, control: Control) -> (res: Result<()>)
        requires
            old(self).well_formed(),
            old(self).active < usize::MAX,
        ensures
            final(self).well_formed(),
            match control.failure() {
                Some(kind) => res == Err::<(), Error>(plain_error(kind)),
                None => if old(self).phase != Phase::Accepting {
                    res == Err::<(), Error>(plain_error(ErrorKind::RuntimeClosed))
                } else {
                    res == Ok::<(), Error>(())
                },
            },
            res is Ok <==> old(self).admits(control),
            *final(self) == old(self).entered(control),
    {
        check_control(control)?;
        if self.phase != Phase::Accepting || !self.backend_held {
            return Err(Error::new(ErrorKind::RuntimeClosed));
        }
        self.active = self.active + 1;
        Ok(())
    }

    fn start_release_if_drained(&mut self) -> (res: bool)
        requires
            old(self).phase == Phase::Closing ==> old(self).backend_held,
        ensures
            *final(self) == old(self).drained(),
            res == (old(self).phase == Phase::Closing && old(self).active == 0),
    {
        if self.phase == Phase::Closing && self.active == 0 {
            self.phase = Phase::Releasing;
            self.backend_held = false;
            true
        } else {
            false
        }
    }

    /// Stops admission. Repeating it changes nothing.
    pub fn begin_shutdown(&mut self) -> (res: ShutdownStart)
        requires
            old(self).well_formed(),
        ensures
            final(self).well_formed(),
            *final(self) == old(self).closing(),
            res.started_closing == (old(self).phase == Phase::Accepting),
            res.release == old(self).releases_at(LifecycleEvent::Shutdown),
    {
        let started_closing = self.phase == Phase::Accepting;
        if started_closing {
            self.phase = Phase::Closing;
        }
        let release = self.start_release_if_drained();
        ShutdownStart { started_closing, release }
    }

    /// Ends one operation. Returns whether the caller must release the
    /// backend.
    pub fn finish_operation(&mut self) -> (res: bool)
        requires
            old(self).well_formed(),
        ensures
            final(self).well_formed(),
            *final(self) == old(self).finished(),
            res == old(self).releases_at(LifecycleEvent::Finish),
    {
        if self.active > 0 {
            self.active = self.active - 1;
        }
        self.start_release_if_drained()
    }

    /// Records that the backend is gone.
    pub fn finish_release(&mut self)
        requires
            old(self).well_formed(),
            old(self).phase == Phase::Releasing,
        ensures
            final(self).well_formed(),
            *final(self) == (Lifecycle { phase: Phase::Closed, ..*old(self) }),
    {
        self.phase = Phase::Closed;
    }
}

/// The backend is released exactly once: shutting down and finishing work
/// never go back a phase, and whichever of them lets go of the backend does so
/// with no work left.
pub proof fn backends_are_released_once(lifecycle: Lifecycle)
    requires
        lifecycle.well_formed(),
    ensures
        lifecycle.closing().phase.rank() >= lifecycle.phase.rank(),
        lifecycle.closing().well_formed(),
        lifecycle.closing().closing() == lifecycle.closing(),
        lifecycle.backend_held && !lifecycle.closing().backend_held ==> lifecycle.active == 0
            && lifecycle.closing().phase == Phase::Releasing,
        !lifecycle.backend_held ==> lifecycle.closing() == lifecycle,
{
}

/// What happens to a lifecycle.
pub ghost enum LifecycleEvent {
    /// An operation or a worker asks for admission.
    Enter(Control),
    /// The runtime is shut down.
    Shutdown,
    /// One of the admitted ends.
    Finish,
    /// The backend is gone.
    Released,
}

impl Lifecycle {
    /// Whether an event can happen: only what was admitted ends, and only a
    /// backend that was let go of is gone.
    pub open spec fn possible(self, event: LifecycleEvent) -> bool {
        match event {
            LifecycleEvent::Enter(_) => self.active < usize::MAX,
            LifecycleEvent::Shutdown => true,
            LifecycleEvent::Finish => self.active > 0,
            LifecycleEvent::Released => self.phase == Phase::Releasing,
        }
    }

    /// The lifecycle after an event.
    pub open spec fn after(self, event: LifecycleEvent) -> Lifecycle {
        match event {
            LifecycleEvent::Enter(control) => self.entered(control),
            LifecycleEvent::Shutdown => self.closing(),
            LifecycleEvent::Finish => self.finished(),
            LifecycleEvent::Released => Lifecycle { phase: Phase::Closed, ..self },
        }
    }

    /// Whether an event admits work.
    pub open spec fn admits_at(self, event: LifecycleEvent) -> bool {
        event matches LifecycleEvent::Enter(control) && self.admits(control)
    }

    /// Whether an event tells its caller to release the backend.
    pub open spec fn releases_at(self, event: LifecycleEvent) -> bool {
        match event {
            LifecycleEvent::Shutdown => self.phase == Phase::Accepting && self.active == 0,
            LifecycleEvent::Finish => self.phase == Phase::Closing && self.active == 1,
            _ => false,
        }
    }
}

/// A fresh runtime after some events.
pub open spec fn lived(events: Seq<LifecycleEvent>) -> Lifecycle
    decreases events.len(),
{
    if events.len() == 0 {
        Lifecycle { phase: Phase::Accepting, active: 0, backend_held: true }
    } else {
        lived(events.drop_last()).after(events.last())
    }
}

/// Whether every event of a run can happen when it does.
pub open spec fn all_possible(events: Seq<LifecycleEvent>) -> bool {
    forall|i: int|
        0 <= i < events.len() ==> lived(#[trigger] events.take(i)).possible(events[i])
}

/// How many operations a run admits.
pub open spec fn admitted(events: Seq<LifecycleEvent>) -> nat
    decreases events.len(),
{
    if events.len() == 0 {
        0
    } else {
        let before = admitted(events.drop_last());
        if lived(events.drop_last()).admits_at(events.last()) {
            before + 1
        } else {
            before
        }
    }
}

/// How many operations end in a run.
pub open spec fn ended(events: Seq<LifecycleEvent>) -> nat
    decreases events.len(),
{
    if events.len() == 0 {
        0
    } else {
        let before = ended(events.drop_last());
        if events.last() is Finish {
            before + 1
        } else {
            before
        }
    }
}

/// How often a run tells a caller to release the backend.
pub open spec fn releases(events: Seq<LifecycleEvent>) -> nat
    decreases events.len(),
{
    if events.len() == 0 {
        0
    } else {
        let before = releases(events.drop_last());
        if lived(events.drop_last()).releases_at(events.last()) {
            before + 1
        } else {
            before
        }
    }
}

/// Whether a run was shut down.
pub open spec fn shut_down(events: Seq<LifecycleEvent>) -> bool {
    exists|i: int| 0 <= i < events.len() && #[trigger] events[i] is Shutdown
}

proof fn possible_before(events: Seq<LifecycleEvent>)
    requires
        events.len() > 0,
        all_possible(events),
    ensures
        all_possible(events.drop_last()),
        lived(events.drop_last()).possible(events.last()),
{
    let shorter = events.drop_last();
    assert(events.take(events.len() - 1) =~= shorter);
    assert forall|i: int| 0 <= i < shorter.len() implies lived(#[trigger] shorter.take(i)).possible(
        shorter[i],
    ) by {
        assert(shorter.take(i) =~= events.take(i));
    }
}

/// Shutdown is orderly over any run of admissions, endings and shutdowns:
/// what was admitted and has not ended is in progress, the first shutdown
/// stops admission, so that whoever waits or asks later learns of a closed
/// runtime, and the backend is let go of exactly once, when everything that
/// was admitted has ended. A further shutdown changes nothing.
pub proof fn shutdowns_are_orderly(events: Seq<LifecycleEvent>)
    requires
        all_possible(events),
    ensures
        lived(events).well_formed(),
        lived(events).active == admitted(events) - ended(events),
        lived(events).phase != Phase::Accepting <==> shut_down(events),
        shut_down(events) ==> forall|control: Control| !#[trigger] lived(events).admits(control),
        releases(events) == if lived(events).backend_held {
            0nat
        } else {
            1
        },
        !lived(events).backend_held ==> shut_down(events) && admitted(events) == ended(events),
        shut_down(events) && admitted(events) == ended(events) ==> !lived(events).backend_held,
        shut_down(events) ==> lived(events).closing() == lived(events),
        shut_down(events) ==> forall|control: Control, found: ErrorKind|
            control.failure() is None ==> #[trigger] admission_failure(
                control,
                lived(events).phase,
                found,
            ) == ErrorKind::RuntimeClosed,
    decreases events.len(),
{
    if events.len() > 0 {
        let shorter = events.drop_last();
        possible_before(events);
        shutdowns_are_orderly(shorter);
        assert(shut_down(events) == (shut_down(shorter) || events.last() is Shutdown)) by {
            if shut_down(shorter) {
                let i = choose|i: int| 0 <= i < shorter.len() && #[trigger] shorter[i] is Shutdown;
                assert(events[i] is Shutdown);
            }
            if events.last() is Shutdown {
                assert(events[events.len() - 1] is Shutdown);
            }
            if shut_down(events) && !(events.last() is Shutdown) {
                let i = choose|i: int| 0 <= i < events.len() && #[trigger] events[i] is Shutdown;
                assert(shorter[i] is Shutdown);
            }
        }
    }
}

/// Nothing is admitted once a run was shut down: its later events, however
/// many, leave the number of admitted operations as it was.
pub proof fn nothing_is_admitted_after_shutdown(
    events: Seq<LifecycleEvent>,
    later: Seq<LifecycleEvent>,
)
    requires
        all_possible(events + later),
        shut_down(events),
    ensures
        admitted(events + later) == admitted(events),
    decreases later.len(),
{
    if later.len() == 0 {
        assert(events + later =~= events);
    } else {
        let all = events + later;
        let shorter = later.drop_last();
        assert(all.drop_last() =~= events + shorter);
        possible_before(all);
        nothing_is_admitted_after_shutdown(events, shorter);
        shutdowns_are_orderly(events + shorter);
        let i = choose|i: int| 0 <= i < events.len() && #[trigger] events[i] is Shutdown;
        assert((events + shorter)[i] is Shutdown);
    }
}

/// What trying to take a permit at once found.
#[derive(Clone, Copy, Debug, PartialEq, Eq, Structural)]
pub enum TryPermit {
    /// The permit was taken.
    Acquired,
    /// No permit is free.
    NoPermits,
    /// The permits are closed.
    Closed,
}

/// How waiting for a permit ended.
#[derive(Clone, Copy, Debug, PartialEq, Eq, Structural)]
pub enum WaitEnd {
    /// The permit was taken.
    Acquired,
    /// The permits were closed.
    Closed,
    /// The caller cancelled.
    Cancelled,
    /// The deadline passed.
    DeadlineExceeded,
}

/// What admission does next.
#[derive(Clone, Copy, Debug, PartialEq, Eq, Structural)]
pub enum AdmitStep {
    /// Enter the runtime with the permit.
    Enter,
    /// Take a waiting place.
    TakeWaitingPlace,
    /// Wait for a permit, holding the waiting place.
    Wait,
}

/// The failure of an unsuccessful admission: the caller's control first, then
/// a runtime that no longer accepts, then what was found.
pub open spec fn admission_failure(control: Control, phase: Phase, found: ErrorKind) -> ErrorKind {
    match control.failure() {
        Some(kind) => kind,
        None => if phase != Phase::Accepting {
            ErrorKind::RuntimeClosed
        } else {
            found
        },
    }
}

fn refuse_admission(control: Control, phase: Phase, found: ErrorKind) -> (res: Error)
    ensures
        res == plain_error(admission_failure(control, phase, found)),
{
    match check_control(control) {
        Err(error) => error,
        Ok(()) => {
            if phase != Phase::Accepting {
                Error::new(ErrorKind::RuntimeClosed)
            } else {
                Error::new(found)
            }
        },
    }
}

/// Decides admission after the first try for a permit.
pub fn first_try(found: TryPermit, control: Control, phase: Phase) -> (res: Result<AdmitStep>)
    ensures
        res == match found {
            TryPermit::Acquired => Ok::<AdmitStep, Error>(AdmitStep::Enter),
            TryPermit::NoPermits => Ok::<AdmitStep, Error>(AdmitStep::TakeWaitingPlace),
            TryPermit::Closed => Err::<AdmitStep, Error>(
                plain_error(admission_failure(control, phase, ErrorKind::RuntimeClosed)),
            ),
        },
{
    match found {
        TryPermit::Acquired => Ok(AdmitStep::Enter),
        TryPermit::NoPermits => Ok(AdmitStep::TakeWaitingPlace),
        TryPermit::Closed => Err(refuse_admission(control, phase, ErrorKind::RuntimeClosed)),
    }
}

/// Decides admission after trying for a waiting place: with none free the
/// admission limit is exceeded.
pub fn waiting_try(found: TryPermit, control: Control) -> (res: Result<AdmitStep>)
    ensures
        res == match (found, control.failure()) {
            (TryPermit::Acquired, _) => Ok::<AdmitStep, Error>(AdmitStep::Wait),
            (_, Some(kind)) => Err::<AdmitStep, Error>(plain_error(kind)),
            (TryPermit::NoPermits, None) => Err::<AdmitStep, Error>(
                plain_error(ErrorKind::LimitExceeded),
            ),
            (TryPermit::Closed, None) => Err::<AdmitStep, Error>(
                plain_error(ErrorKind::RuntimeClosed),
            ),
        },
{
    match found {
        TryPermit::Acquired => Ok(AdmitStep::Wait),
        TryPermit::NoPermits => {
            check_control(control)?;
            Err(Error::new(ErrorKind::LimitExceeded))
        },
        TryPermit::Closed => {
            check_control(control)?;
            Err(Error::new(ErrorKind::RuntimeClosed))
        },
    }
}

/// Decides admission after the wait for a permit ended.
pub fn wait_ended(end: WaitEnd, control: Control, phase: Phase) -> (res: Result<AdmitStep>)
    ensures
        res == match end {
            WaitEnd::Acquired => Ok::<AdmitStep, Error>(AdmitStep::Enter),
            WaitEnd::Closed => Err::<AdmitStep, Error>(
                plain_error(admission_failure(control, phase, ErrorKind::RuntimeClosed)),
            ),
            WaitEnd::Cancelled => Err::<AdmitStep, Error>(
                plain_error(admission_failure(control, phase, ErrorKind::Cancelled)),
            ),
            WaitEnd::DeadlineExceeded => Err::<AdmitStep, Error>(
                plain_error(admission_failure(control, phase, ErrorKind::DeadlineExceeded)),
            ),
        },
{
    match end {
        WaitEnd::Acquired => Ok(AdmitStep::Enter),
        WaitEnd::Closed => Err(refuse_admission(control, phase, ErrorKind::RuntimeClosed)),
        WaitEnd::Cancelled => Err(refuse_admission(control, phase, ErrorKind::Cancelled)),
        WaitEnd::DeadlineExceeded => Err(
            refuse_admission(control, phase, ErrorKind::DeadlineExceeded),
        ),
    }
}

/// A cancelled caller is always told so, and a caller with neither
/// cancellation nor an expired deadline learns of a closing runtime before
/// anything else.
pub proof fn admission_failures_have_priority(control: Control, phase: Phase, found: ErrorKind)
    ensures
        control.cancelled ==> admission_failure(control, phase, found) == ErrorKind::Cancelled,
        !control.cancelled && control.expired() ==> admission_failure(control, phase, found)
            == ErrorKind::DeadlineExceeded,
        control.failure() is None && phase != Phase::Accepting ==> admission_failure(
            control,
            phase,
            found,
        ) == ErrorKind::RuntimeClosed,
{
}

/// Who decided the one race between starting a commit and cancelling it.
#[derive(Clone, Copy, Debug, PartialEq, Eq, Structural)]
pub enum CommitBoundary {
    /// Nobody yet.
    Open,
    /// The commit started: its real result stands.
    Started,
    /// The caller cancelled first: the commit may not start.
    Cancelled,
}

impl CommitBoundary {
    /// The boundary once one side, `winner`, tried to decide it.
    pub open spec fn decided(self, winner: CommitBoundary) -> CommitBoundary {
        if self == CommitBoundary::Open {
            winner
        } else {
            self
        }
    }

    /// Tries to start the commit. Returns whether it may proceed.
    pub fn start(&mut self) -> (res: bool)
        ensures
            res == (*old(self) == CommitBoundary::Open),
            *final(self) == old(self).decided(CommitBoundary::Started),
    {
        if *self == CommitBoundary::Open {
            *self = CommitBoundary::Started;
            true
        } else {
            false
        }
    }

    /// Tries to cancel before the commit starts. Returns whether it did.
    pub fn cancel(&mut self) -> (res: bool)
        ensures
            res == (*old(self) == CommitBoundary::Open),
            *final(self) == old(self).decided(CommitBoundary::Cancelled),
    {
        if *self == CommitBoundary::Open {
            *self = CommitBoundary::Cancelled;
            true
        } else {
            false
        }
    }
}

/// What interrupts a caller that waits for its operation.
#[derive(Clone, Copy, Debug, PartialEq, Eq, Structural)]
pub enum Interruption {
    /// The caller's cancellation.
    Cancelled,
    /// The caller's deadline.
    DeadlineExceeded,
}

/// Decides an interrupted wait: `Some` failure when the operation was cancelled
/// before its commit started, `None` to wait for its real result.
pub fn interrupt(boundary: &mut CommitBoundary, interruption: Interruption) -> (res: Option<Error>)
    ensures
        *final(boundary) == old(boundary).decided(CommitBoundary::Cancelled),
        res == if *old(boundary) == CommitBoundary::Open {
            Some(
                plain_error(
                    match interruption {
                        Interruption::Cancelled => ErrorKind::Cancelled,
                        Interruption::DeadlineExceeded => ErrorKind::DeadlineExceeded,
                    },
                ),
            )
        } else {
            None
        },
{
    if boundary.cancel() {
        match interruption {
            Interruption::Cancelled => Some(Error::new(ErrorKind::Cancelled)),
            Interruption::DeadlineExceeded => Some(Error::new(ErrorKind::DeadlineExceeded)),
        }
    } else {
        None
    }
}

/// A commit that started stays started however often it is cancelled, and a
/// cancelled one never starts: the first decision stands.
pub proof fn first_decisions_stand(first: CommitBoundary, second: CommitBoundary)
    requires
        first != CommitBoundary::Open,
    ensures
        CommitBoundary::Open.decided(first) == first,
        CommitBoundary::Open.decided(first).decided(second) == first,
        CommitBoundary::Open.decided(first) != CommitBoundary::Open,
{
}

} // verus!
