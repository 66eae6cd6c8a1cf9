//! One corrective pull step as a state machine.
//!
//! A pull step alternates reads of one snapshot with decisions: whether the
//! split may pull at all, which donors it visits, which of their entries it
//! samples, and which of those it selects. The first donor with a selection is
//! attempted, and only that one.

use vstd::prelude::*;

use crate::api::error::{plain_error, Error, ErrorKind, Result};
use crate::api::identifiers::PartitionKey;
use crate::maintenance::corrective::{
    batches, corrective_capacity, corrective_sample_indices, donates, donor_batch_limit,
    donor_limit, donor_positions, donor_positions_are_donors, inspected_of, may_pull, pull_source, sample_count,
    sample_position, screening_ends_once, screening_fails, screening_stops, select_pulled, selected_of, selection_limit,
    selection_of, steps_before, target_room, PullDistances, PullRotation, PullScan, PullVisit,
    TargetCapacity,
};
use crate::maintenance::drain::{relocation_batch_limit, relocation_limit};
use crate::topology::{receiving_at, Authority, LevelCandidate, PartitionHeader};

verus! {

/// What a pull step needs next.
pub enum PullPhase {
    /// The split source's authority.
    ReadSplit,
    /// The nearest same-level partitions.
    Discover {
        /// The split source's Header.
        header: PartitionHeader,
    },
    /// The targets' Headers.
    ReadTargets {
        /// The split source's Header.
        header: PartitionHeader,
        /// The partitions found.
        candidates: Vec<LevelCandidate>,
    },
    /// How many of the source's entries one transaction admits.
    SourceBudget {
        /// The split source's Header.
        header: PartitionHeader,
        /// The partitions found.
        candidates: Vec<LevelCandidate>,
        /// The targets' room.
        capacity: TargetCapacity,
    },
    /// How many of a donor's entries one transaction admits.
    DonorBudget {
        /// The partitions found.
        candidates: Vec<LevelCandidate>,
        /// The targets' room.
        capacity: TargetCapacity,
        /// The visits left.
        scan: PullScan,
        /// The donor to visit.
        visit: PullVisit,
    },
    /// The first page of a donor.
    ReadDonor {
        /// The partitions found.
        candidates: Vec<LevelCandidate>,
        /// The targets' room.
        capacity: TargetCapacity,
        /// The visits left.
        scan: PullScan,
        /// The donor to read.
        visit: PullVisit,
        /// The most entries to select.
        limit: usize,
    },
    /// The distances of a donor's sampled entries.
    Screen {
        /// The partitions found.
        candidates: Vec<LevelCandidate>,
        /// The targets' room.
        capacity: TargetCapacity,
        /// The visits left.
        scan: PullScan,
        /// The donor read.
        visit: PullVisit,
        /// The most entries to select.
        limit: usize,
        /// The page positions sampled.
        samples: Vec<usize>,
    },
    /// The outcome of moving the selected entries.
    Attempt {
        /// The donor's position among the partitions found.
        candidate: usize,
        /// The positions selected among the samples.
        selected: Vec<usize>,
    },
    /// Nothing: the step is over.
    Done {
        /// The entries moved.
        moved: usize,
    },
}

/// The visits left of a pull step.
pub ghost struct ScanView {
    /// The donors' positions among the partitions found.
    pub donors: Seq<usize>,
    /// The rotation over the donors.
    pub rotation: PullRotation,
    /// The number of visits made.
    pub visited: int,
}

/// The content of visits left.
pub open spec fn scan_view(scan: PullScan) -> ScanView {
    ScanView { donors: scan.donors@, rotation: scan.rotation, visited: scan.visited as int }
}

impl ScanView {
    /// Whether a donor is left to visit.
    pub open spec fn more(self) -> bool {
        self.visited < self.rotation.inspected
    }

    /// The next visit.
    pub open spec fn visit(self) -> PullVisit {
        PullVisit {
            candidate: self.donors[self.rotation.donor_at(self.visited)],
            screen_limit: self.rotation.screen_at(self.visited) as usize,
            round: self.rotation.round,
        }
    }

    /// The visits left behind the next one.
    pub open spec fn rest(self) -> ScanView {
        ScanView { visited: self.visited + 1, ..self }
    }
}

/// The visits of a step over these partitions; the source still needs `round`
/// drain batches.
pub open spec fn planned(candidates: Seq<LevelCandidate>, round: int) -> ScanView {
    let donors = donor_positions(candidates, candidates.len());
    let inspected = inspected_of(donors.len() as int);
    ScanView {
        donors,
        rotation: PullRotation {
            donors: donors.len() as usize,
            inspected: inspected as usize,
            first: (steps_before(round) * inspected % (donors.len() as int)) as usize,
            round: round as usize,
        },
        visited: 0,
    }
}

/// The mathematical content of a [`PullPhase`].
pub ghost enum PullView {
    /// The split source's authority.
    ReadSplit,
    /// The nearest same-level partitions.
    Discover {
        /// The split source's Header.
        header: PartitionHeader,
    },
    /// The targets' Headers.
    ReadTargets {
        /// The split source's Header.
        header: PartitionHeader,
        /// The partitions found.
        candidates: Seq<LevelCandidate>,
    },
    /// How many of the source's entries one transaction admits.
    SourceBudget {
        /// The split source's Header.
        header: PartitionHeader,
        /// The partitions found.
        candidates: Seq<LevelCandidate>,
        /// The targets' room.
        capacity: TargetCapacity,
    },
    /// How many of a donor's entries one transaction admits.
    DonorBudget {
        /// The partitions found.
        candidates: Seq<LevelCandidate>,
        /// The targets' room.
        capacity: TargetCapacity,
        /// The visits left.
        scan: ScanView,
        /// The donor to visit.
        visit: PullVisit,
    },
    /// The first page of a donor.
    ReadDonor {
        /// The partitions found.
        candidates: Seq<LevelCandidate>,
        /// The targets' room.
        capacity: TargetCapacity,
        /// The visits left.
        scan: ScanView,
        /// The donor to read.
        visit: PullVisit,
        /// The most entries to select.
        limit: usize,
    },
    /// The distances of a donor's sampled entries.
    Screen {
        /// The partitions found.
        candidates: Seq<LevelCandidate>,
        /// The targets' room.
        capacity: TargetCapacity,
        /// The visits left.
        scan: ScanView,
        /// The donor read.
        visit: PullVisit,
        /// The most entries to select.
        limit: usize,
        /// The page positions sampled.
        samples: Seq<usize>,
    },
    /// The outcome of moving the selected entries.
    Attempt {
        /// The donor's position among the partitions found.
        candidate: usize,
        /// The positions selected among the samples.
        selected: Seq<usize>,
    },
    /// Nothing.
    Done {
        /// The entries moved.
        moved: usize,
    },
}

impl View for PullPhase {
    type V = PullView;

    open spec fn view(&self) -> PullView {
        match self {
            PullPhase::ReadSplit => PullView::ReadSplit,
            PullPhase::Discover { header } => PullView::Discover { header: *header },
            PullPhase::ReadTargets { header, candidates } => PullView::ReadTargets {
                header: *header,
                candidates: candidates@,
            },
            PullPhase::SourceBudget { header, candidates, capacity } => PullView::SourceBudget {
                header: *header,
                candidates: candidates@,
                capacity: *capacity,
            },
            PullPhase::DonorBudget { candidates, capacity, scan, visit } => PullView::DonorBudget {
                candidates: candidates@,
                capacity: *capacity,
                scan: scan_view(*scan),
                visit: *visit,
            },
            PullPhase::ReadDonor { candidates, capacity, scan, visit, limit } =>
                PullView::ReadDonor {
                candidates: candidates@,
                capacity: *capacity,
                scan: scan_view(*scan),
                visit: *visit,
                limit: *limit,
            },
            PullPhase::Screen { candidates, capacity, scan, visit, limit, samples } =>
                PullView::Screen {
                candidates: candidates@,
                capacity: *capacity,
                scan: scan_view(*scan),
                visit: *visit,
                limit: *limit,
                samples: samples@,
            },
            PullPhase::Attempt { candidate, selected } => PullView::Attempt {
                candidate: *candidate,
                selected: selected@,
            },
            PullPhase::Done { moved } => PullView::Done { moved: *moved },
        }
    }
}

/// What was read, or done, for a phase.
pub enum PullEvent {
    /// The split source's authority.
    SplitRead(Option<Authority>),
    /// The nearest same-level partitions.
    Discovered(Vec<LevelCandidate>),
    /// The targets.
    TargetsRead {
        /// The left target's Header.
        left: Option<PartitionHeader>,
        /// The right target's Header.
        right: Option<PartitionHeader>,
    },
    /// The entries of one partition that one transaction admits.
    Budget(usize),
    /// A donor's first page holds so many entries.
    PageRead(usize),
    /// The sampled entries' distances; `None` for one that contradicts its
    /// page.
    Screened(Vec<Option<PullDistances>>),
    /// The selected entries were attempted, and so many moved.
    Attempted(usize),
}

/// One corrective pull step of a draining split.
pub struct PullStep {
    source: PartitionKey,
    left: PartitionKey,
    right: PartitionKey,
    maximum: u32,
    phase: PullPhase,
}

/// The mathematical content of a [`PullStep`].
pub ghost struct PullStepView {
    /// The split source.
    pub source: PartitionKey,
    /// Its left target.
    pub left: PartitionKey,
    /// Its right target.
    pub right: PartitionKey,
    /// The most entries of a partition.
    pub maximum: u32,
    /// What is needed next.
    pub phase: PullView,
}

impl View for PullStep {
    type V = PullStepView;

    closed spec fn view(&self) -> PullStepView {
        PullStepView {
            source: self.source,
            left: self.left,
            right: self.right,
            maximum: self.maximum,
            phase: self.phase@,
        }
    }
}

/// The page positions one visit samples.
pub open spec fn samples_of(length: usize, visit: PullVisit) -> Seq<usize> {
    Seq::new(
        sample_count(length as int, visit.screen_limit as int) as nat,
        |i: int|
            sample_position(
                length as int,
                visit.screen_limit as int,
                visit.round as int,
                i,
            ) as usize,
    )
}

impl PullStepView {
    /// Whether an event is the one the phase waits for. A source that holds
    /// entries moves at least one of them at a time.
    pub open spec fn waits_for(self, event: PullEvent) -> bool {
        match (self.phase, event) {
            (PullView::ReadSplit, PullEvent::SplitRead(_)) => true,
            (PullView::Discover { .. }, PullEvent::Discovered(_)) => true,
            (PullView::ReadTargets { .. }, PullEvent::TargetsRead { .. }) => true,
            (PullView::SourceBudget { .. }, PullEvent::Budget(budget)) => budget > 0,
            (PullView::DonorBudget { .. }, PullEvent::Budget(_)) => true,
            (PullView::ReadDonor { .. }, PullEvent::PageRead(_)) => true,
            (PullView::Screen { samples, .. }, PullEvent::Screened(entries)) => entries@.len()
                == samples.len(),
            (PullView::Attempt { .. }, PullEvent::Attempted(_)) => true,
            _ => false,
        }
    }

    /// The step in another phase.
    pub open spec fn at(self, phase: PullView) -> PullStepView {
        PullStepView { phase, ..self }
    }

    /// The step over without a move.
    pub open spec fn idle(self) -> PullStepView {
        self.at(PullView::Done { moved: 0 })
    }

    /// The step at its next donor, or over without a move.
    pub open spec fn next_donor(
        self,
        candidates: Seq<LevelCandidate>,
        capacity: TargetCapacity,
        scan: ScanView,
    ) -> PullStepView {
        if scan.more() {
            self.at(
                PullView::DonorBudget {
                    candidates,
                    capacity,
                    scan: scan.rest(),
                    visit: scan.visit(),
                },
            )
        } else {
            self.idle()
        }
    }

    /// The drain batches a source with this Header still needs.
    pub open spec fn rounds_left(self, header: PartitionHeader, budget: usize) -> int {
        batches(header.entry_count, relocation_limit(header, self.maximum, budget) as usize)
    }

    /// The most entries of one donor to select.
    pub open spec fn most_selected(
        self,
        donor: PartitionHeader,
        capacity: TargetCapacity,
        budget: usize,
    ) -> int {
        let batch = donor_limit(donor, relocation_limit(donor, self.maximum, budget) as usize);
        selection_of(batch as usize, capacity)
    }

    /// Whether an event shows a state that contradicts the stored protocol.
    pub open spec fn contradicts(self, event: PullEvent) -> bool {
        match (self.phase, event) {
            (PullView::ReadTargets { header, .. }, PullEvent::TargetsRead { left, right }) => {
                ||| !receiving_at(left, header.level)
                ||| !receiving_at(right, header.level)
            },
            (
                PullView::SourceBudget { header, candidates, .. },
                PullEvent::Budget(budget),
            ) => {
                let donors = donor_positions(candidates, candidates.len());
                &&& donors.len() > 0
                &&& steps_before(self.rounds_left(header, budget)) * inspected_of(
                    donors.len() as int,
                ) > usize::MAX
            },
            (
                PullView::DonorBudget { candidates, capacity, visit, .. },
                PullEvent::Budget(budget),
            ) => {
                let donor = candidates[visit.candidate as int].header;
                ||| capacity.left_remaining + capacity.right_remaining > usize::MAX
                ||| self.most_selected(donor, capacity, budget) == 0
                ||| visit.screen_limit == 0
                ||| visit.round == 0
            },
            (PullView::ReadDonor { .. }, PullEvent::PageRead(length)) => length == 0,
            (PullView::Screen { capacity, limit, .. }, PullEvent::Screened(entries)) => exists|
                n: int,
            |
                #[trigger] screening_fails(entries@, capacity, limit as int, n),
            _ => false,
        }
    }

    /// Whether an event leads from this step to `after`. A split that may not
    /// pull, without siblings or donors, or with full targets, ends the step.
    /// The first donor with a selection is attempted; without one the next
    /// donor is read.
    pub open spec fn leads_to(self, event: PullEvent, after: PullStepView) -> bool {
        match (self.phase, event) {
            (PullView::ReadSplit, PullEvent::SplitRead(authority)) => after == if may_pull(
                self.source,
                authority,
                self.left,
                self.right,
            ) {
                self.at(PullView::Discover { header: authority->0.header })
            } else {
                self.idle()
            },
            (PullView::Discover { header }, PullEvent::Discovered(candidates)) => after
                == if candidates@.len() == 0 {
                self.idle()
            } else {
                self.at(PullView::ReadTargets { header, candidates: candidates@ })
            },
            (
                PullView::ReadTargets { header, candidates },
                PullEvent::TargetsRead { left, right },
            ) => {
                let capacity = target_room(
                    self.maximum,
                    self.left,
                    left->0,
                    self.right,
                    right->0,
                );
                after == if capacity.full() {
                    self.idle()
                } else {
                    self.at(PullView::SourceBudget { header, candidates, capacity })
                }
            },
            (
                PullView::SourceBudget { header, candidates, capacity },
                PullEvent::Budget(budget),
            ) => after == if donor_positions(candidates, candidates.len()).len() == 0 {
                self.idle()
            } else {
                self.next_donor(
                    candidates,
                    capacity,
                    planned(candidates, self.rounds_left(header, budget)),
                )
            },
            (
                PullView::DonorBudget { candidates, capacity, scan, visit },
                PullEvent::Budget(budget),
            ) => {
                let donor = candidates[visit.candidate as int].header;
                let limit = self.most_selected(donor, capacity, budget) as usize;
                after == self.at(PullView::ReadDonor { candidates, capacity, scan, visit, limit })
            },
            (
                PullView::ReadDonor { candidates, capacity, scan, visit, limit },
                PullEvent::PageRead(length),
            ) => after == self.at(
                PullView::Screen {
                    candidates,
                    capacity,
                    scan,
                    visit,
                    limit,
                    samples: samples_of(length, visit),
                },
            ),
            (
                PullView::Screen { candidates, capacity, scan, visit, limit, .. },
                PullEvent::Screened(entries),
            ) => exists|n: int|
                #[trigger] screening_stops(entries@, capacity, limit as int, n) && after
                    == if selected_of(entries@, capacity, n as nat).len() == 0 {
                    self.next_donor(candidates, capacity, scan)
                } else {
                    self.at(
                        PullView::Attempt {
                            candidate: visit.candidate,
                            selected: selected_of(entries@, capacity, n as nat),
                        },
                    )
                },
            (PullView::Attempt { .. }, PullEvent::Attempted(moved)) => after == self.at(
                PullView::Done { moved },
            ),
            _ => false,
        }
    }

    /// Whether visits are over existing donors.
    pub open spec fn sound_scan(candidates: Seq<LevelCandidate>, scan: ScanView) -> bool {
        &&& scan.rotation.well_formed()
        &&& scan.rotation.donors == scan.donors.len()
        &&& 0 <= scan.visited <= scan.rotation.inspected
        &&& forall|i: int|
            0 <= i < scan.donors.len() ==> (#[trigger] scan.donors[i]) < candidates.len()
                && donates(candidates[scan.donors[i] as int])
    }

    /// Whether the step can come about.
    pub open spec fn reachable(self) -> bool {
        match self.phase {
            PullView::Discover { header } => header.entry_count > 0,
            PullView::ReadTargets { header, candidates } => header.entry_count > 0
                && candidates.len() > 0,
            PullView::SourceBudget { header, candidates, .. } => header.entry_count > 0
                && candidates.len() > 0,
            PullView::DonorBudget { candidates, scan, visit, .. } => {
                &&& Self::sound_scan(candidates, scan)
                &&& visit.candidate < candidates.len()
                &&& donates(candidates[visit.candidate as int])
                &&& scan.visited > 0
            },
            PullView::ReadDonor { candidates, scan, visit, limit, .. } => {
                &&& Self::sound_scan(candidates, scan)
                &&& visit.candidate < candidates.len()
                &&& visit.screen_limit > 0
                &&& visit.round > 0
                &&& limit > 0
                &&& scan.visited > 0
            },
            PullView::Screen { candidates, scan, visit, limit, .. } => {
                &&& Self::sound_scan(candidates, scan)
                &&& visit.candidate < candidates.len()
                &&& limit > 0
                &&& scan.visited > 0
            },
            _ => true,
        }
    }

    /// The most events the step still waits for.
    pub open spec fn events_left(self) -> int {
        match self.phase {
            PullView::ReadSplit => 17,
            PullView::Discover { .. } => 16,
            PullView::ReadTargets { .. } => 15,
            PullView::SourceBudget { .. } => 14,
            PullView::DonorBudget { scan, .. } => 3 * (scan.rotation.inspected - scan.visited) + 4,
            PullView::ReadDonor { scan, .. } => 3 * (scan.rotation.inspected - scan.visited) + 3,
            PullView::Screen { scan, .. } => 3 * (scan.rotation.inspected - scan.visited) + 2,
            PullView::Attempt { .. } => 1,
            PullView::Done { .. } => 0,
        }
    }
}

impl PullStep {
    #[verifier::type_invariant]
    spec fn sound_step(self) -> bool {
        self@.reachable()
    }

    /// A step about to read the split source. A root split pulls nothing.
    pub fn start(
        source: PartitionKey,
        left: PartitionKey,
        right: PartitionKey,
        maximum: u32,
    ) -> (res: Self)
        ensures
            res@ == (PullStepView {
                source,
                left,
                right,
                maximum,
                phase: if source@ == 1 {
                    PullView::Done { moved: 0 }
                } else {
                    PullView::ReadSplit
                },
            }),
    {
        let phase = if source.get() == 1 {
            PullPhase::Done { moved: 0 }
        } else {
            PullPhase::ReadSplit
        };
        PullStep { source, left, right, maximum, phase }
    }

    /// Returns what is needed next.
    pub fn phase(&self) -> (res: &PullPhase)
        ensures
            res@ == self@.phase,
            self@.reachable(),
    {
        proof {
            use_type_invariant(self);
        }
        &self.phase
    }

    /// Goes on with what was read or done. A state that contradicts the stored
    /// protocol is Corruption.
    pub fn advance(self, event: PullEvent) -> (res: Result<Self>)
        requires
            self@.waits_for(event),
        ensures
            match res {
                Ok(after) => {
                    &&& !self@.contradicts(event)
                    &&& self@.leads_to(event, after@)
                    &&& after@.reachable()
                },
                Err(error) => {
                    &&& self@.contradicts(event)
                    &&& error == plain_error(ErrorKind::Corruption)
                },
            },
    {
        proof {
            use_type_invariant(&self);
        }
        let ghost before = self@;
        let source = self.source;
        let left = self.left;
        let right = self.right;
        let maximum: u32 = self.maximum;
        match (self.phase, event) {
            (PullPhase::ReadSplit, PullEvent::SplitRead(authority)) => {
                let phase = match pull_source(source, authority, left, right) {
                    Some(header) => PullPhase::Discover { header },
                    None => PullPhase::Done { moved: 0 },
                };
                Ok(PullStep { source, left, right, maximum, phase })
            },
            (PullPhase::Discover { header }, PullEvent::Discovered(candidates)) => {
                let phase = if candidates.len() == 0 {
                    PullPhase::Done { moved: 0 }
                } else {
                    PullPhase::ReadTargets { header, candidates }
                };
                Ok(PullStep { source, left, right, maximum, phase })
            },
            (
                PullPhase::ReadTargets { header, candidates },
                PullEvent::TargetsRead { left: left_header, right: right_header },
            ) => {
                let capacity = corrective_capacity(
                    header.level,
                    maximum,
                    left,
                    left_header,
                    right,
                    right_header,
                )?;
                let phase = if capacity.is_full() {
                    PullPhase::Done { moved: 0 }
                } else {
                    PullPhase::SourceBudget { header, candidates, capacity }
                };
                Ok(PullStep { source, left, right, maximum, phase })
            },
            (
                PullPhase::SourceBudget { header, candidates, capacity },
                PullEvent::Budget(budget),
            ) => {
                let limit: usize = relocation_batch_limit(header, maximum, budget);
                let phase = match PullScan::plan(header.entry_count, limit, &candidates)? {
                    None => PullPhase::Done { moved: 0 },
                    Some(scan) => {
                        proof {
                            assert(candidates.len() == candidates@.len());
                            donor_positions_are_donors(candidates@, candidates@.len());
                            assert(scan_view(scan) =~= planned(
                                candidates@,
                                before.rounds_left(header, budget),
                            ));
                        }
                        next_donor(candidates, capacity, scan)
                    },
                };
                Ok(PullStep { source, left, right, maximum, phase })
            },
            (
                PullPhase::DonorBudget { candidates, capacity, scan, visit },
                PullEvent::Budget(budget),
            ) => {
                let donor = candidates[visit.candidate].header;
                let batch: usize = donor_batch_limit(
                    donor,
                    relocation_batch_limit(donor, maximum, budget),
                )?;
                let limit: usize = selection_limit(
                    batch,
                    &capacity,
                    visit.screen_limit,
                    visit.round,
                )?;
                let phase = PullPhase::ReadDonor { candidates, capacity, scan, visit, limit };
                Ok(PullStep { source, left, right, maximum, phase })
            },
            (
                PullPhase::ReadDonor { candidates, capacity, scan, visit, limit },
                PullEvent::PageRead(length),
            ) => {
                if length == 0 {
                    return Err(Error::new(ErrorKind::Corruption));
                }
                let samples = corrective_sample_indices(length, visit.screen_limit, visit.round);
                assert(samples@ =~= samples_of(length, visit));
                let phase = PullPhase::Screen { candidates, capacity, scan, visit, limit, samples };
                Ok(PullStep { source, left, right, maximum, phase })
            },
            (
                PullPhase::Screen { candidates, capacity, scan, visit, limit, samples: _ },
                PullEvent::Screened(entries),
            ) => {
                let selected = match select_pulled(&entries, &capacity, limit) {
                    Ok(selected) => selected,
                    Err(error) => {
                        proof {
                            let n = choose|n: int| #[trigger]
                                screening_fails(entries@, capacity, limit as int, n);
                            assert(screening_fails(entries@, capacity, limit as int, n));
                            assert(event == PullEvent::Screened(entries));
                            assert(before.phase matches PullView::Screen {
                                capacity: room,
                                limit: most,
                                ..
                            } && room == capacity && most == limit);
                            assert(before.contradicts(event));
                        }
                        return Err(error);
                    },
                };
                proof {
                    let n = choose|n: int|
                        #[trigger] screening_stops(entries@, capacity, limit as int, n) && selected@
                            == selected_of(entries@, capacity, n as nat);
                    assert forall|m: int|
                        !(#[trigger] screening_fails(entries@, capacity, limit as int, m)) by {
                        screening_ends_once(entries@, capacity, limit as int, n, m);
                    }
                }
                let phase = if selected.len() == 0 {
                    next_donor(candidates, capacity, scan)
                } else {
                    PullPhase::Attempt { candidate: visit.candidate, selected }
                };
                Ok(PullStep { source, left, right, maximum, phase })
            },
            (PullPhase::Attempt { .. }, PullEvent::Attempted(moved)) => {
                let phase = PullPhase::Done { moved };
                Ok(PullStep { source, left, right, maximum, phase })
            },
            _ => {
                assert(false);
                Err(Error::new(ErrorKind::Backend))
            },
        }
    }
}

fn next_donor(candidates: Vec<LevelCandidate>, capacity: TargetCapacity, scan: PullScan) -> (res:
    PullPhase)
    requires
        PullStepView::sound_scan(candidates@, scan_view(scan)),
    ensures
        res@ == if scan_view(scan).more() {
            PullView::DonorBudget {
                candidates: candidates@,
                capacity,
                scan: scan_view(scan).rest(),
                visit: scan_view(scan).visit(),
            }
        } else {
            PullView::Done { moved: 0 }
        },
        res@ matches PullView::DonorBudget { visit, .. } ==> visit.candidate < candidates@.len()
            && donates(candidates@[visit.candidate as int]),
{
    let mut scan = scan;
    let ghost before = scan_view(scan);
    match scan.next_visit() {
        Some(visit) => {
            proof {
                let at = before.rotation.donor_at(before.visited);
                assert(0 <= at < before.donors.len()) by (nonlinear_arith)
                    requires
                        at == (before.rotation.first + before.visited) % (
                        before.rotation.donors as int),
                        before.rotation.donors == before.donors.len(),
                        before.rotation.donors > 0,
                ;
                assert(visit =~= before.visit());
                assert(scan_view(scan) =~= before.rest());
            }
            PullPhase::DonorBudget { candidates, capacity, scan, visit }
        },
        None => PullPhase::Done { moved: 0 },
    }
}

/// The same reads lead a pull step to the same end.
pub proof fn pull_steps_are_deterministic(
    step: PullStepView,
    event: PullEvent,
    first: PullStepView,
    second: PullStepView,
)
    requires
        step.leads_to(event, first),
        step.leads_to(event, second),
    ensures
        first == second,
{
    if let PullEvent::Screened(entries) = event {
        if let PullView::Screen { capacity, limit, .. } = step.phase {
            assert forall|n: int, m: int|
                #[trigger] screening_stops(entries@, capacity, limit as int, n)
                    && #[trigger] screening_stops(entries@, capacity, limit as int, m) implies n
                == m by {
                screening_ends_once(entries@, capacity, limit as int, n, m);
            }
        }
    }
}

/// A pull step ends after a bounded number of reads, and entries move only as
/// the outcome of its one attempt.
pub proof fn pull_steps_end(step: PullStepView, event: PullEvent, after: PullStepView)
    requires
        step.reachable(),
        step.leads_to(event, after),
        after.reachable(),
    ensures
        0 <= after.events_left() < step.events_left() <= 17,
        after.events_left() == 0 <==> after.phase is Done,
        after.phase matches PullView::Done { moved } ==> moved == 0 || (step.phase is Attempt
            && event == PullEvent::Attempted(moved)),
{
}

} // verus!
