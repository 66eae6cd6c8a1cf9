use ktann::api::error::{Error, ErrorKind};
use ktann::api::identifiers::PartitionKey;
use ktann::api::number::{Distance, Float64};
use ktann::maintenance::balance::DrainDistances;
use ktann::maintenance::corrective::PullDistances;
use ktann::maintenance::merge;
use ktann::maintenance::pulling::{PullEvent, PullPhase, PullStep};
use ktann::maintenance::relocation::{
    MergeAttempt, MergeLocked, MergeTerms, PullAttempt, PullLocked, PullTerms, SplitAttempt,
    SplitLocked, SplitTerms,
};
use ktann::maintenance::split;
use ktann::topology::{
    Authority, LevelCandidate, PartitionHeader, PartitionState, PartitionTransition,
};

fn ok<T>(result: Result<T, Error>) -> T {
    match result {
        Ok(value) => value,
        Err(error) => panic!("{}", error.describe()),
    }
}

fn kind_of<T>(result: Result<T, Error>) -> Option<ErrorKind> {
    result.err().map(|error| error.kind())
}

const CORRUPTION: Option<ErrorKind> = Some(ErrorKind::Corruption);

fn p(value: u64) -> PartitionKey {
    ok(PartitionKey::new(value))
}

fn d(value: f64) -> Option<Distance> {
    Distance::new(Float64 { bits: value.to_bits() })
}

fn header(level: u32, count: u32, state: PartitionState) -> PartitionHeader {
    ok(PartitionHeader::new(level, count, 0, state))
}

fn filling(level: u32, count: u32) -> Option<PartitionHeader> {
    Some(header(level, count, PartitionState::ReceivingSplit))
}

fn pair(level: u32, count: u32, transition: PartitionTransition) -> Option<Authority> {
    Some(ok(Authority::new(header(level, count, transition.state()), transition)))
}

fn ready(level: u32, count: u32) -> Option<Authority> {
    pair(level, count, PartitionTransition::Ready { started_at_unix_millis: 0 })
}

fn draining(level: u32, count: u32, right: u64) -> Option<Authority> {
    pair(
        level,
        count,
        PartitionTransition::DrainingSplit {
            left: p(2),
            right: p(right),
            started_at_unix_millis: 0,
        },
    )
}

fn merging() -> PartitionTransition {
    PartitionTransition::Merging { started_at_unix_millis: 0 }
}

fn leaf(partition: u64, count: u32) -> LevelCandidate {
    LevelCandidate {
        partition: p(partition),
        parent: p(1),
        header: header(1, count, PartitionState::Ready),
    }
}

fn near(source: f64, left: f64, right: f64) -> Option<PullDistances> {
    Some(PullDistances { source: d(source), left: d(left), right: d(right) })
}

fn moved(step: &PullStep) -> Option<usize> {
    match step.phase() {
        PullPhase::Done { moved } => Some(*moved),
        _ => None,
    }
}

/// A step that found two leaf donors and read targets with this much in them.
fn planned(left_count: u32, right_count: u32) -> PullStep {
    let step = PullStep::start(p(9), p(2), p(3), 128);
    let step = ok(step.advance(PullEvent::SplitRead(draining(1, 40, 3))));
    let step = ok(step.advance(PullEvent::Discovered(vec![leaf(5, 20), leaf(6, 30)])));
    ok(step.advance(PullEvent::TargetsRead {
        left: filling(1, left_count),
        right: filling(1, right_count),
    }))
}

#[test]
fn root_splits_pull_nothing() {
    assert_eq!(moved(&PullStep::start(p(1), p(2), p(3), 128)), Some(0));
    assert_eq!(moved(&PullStep::start(p(9), p(2), p(3), 128)), None);
}

#[test]
fn pull_steps_end_without_a_split_siblings_or_room() {
    let start = || PullStep::start(p(9), p(2), p(3), 128);
    for split in [None, ready(1, 4), draining(1, 0, 3), draining(1, 4, 7)] {
        assert_eq!(moved(&ok(start().advance(PullEvent::SplitRead(split)))), Some(0));
    }
    let found = ok(start().advance(PullEvent::SplitRead(draining(1, 40, 3))));
    assert!(matches!(found.phase(), PullPhase::Discover { header } if header.entry_count == 40));
    assert_eq!(moved(&ok(found.advance(PullEvent::Discovered(vec![])))), Some(0));
    assert_eq!(moved(&planned(128, 128)), Some(0));
    assert_eq!(moved(&planned(0, 128)), None);
}

#[test]
fn pull_steps_reject_targets_that_do_not_receive() {
    let step = PullStep::start(p(9), p(2), p(3), 128);
    let step = ok(step.advance(PullEvent::SplitRead(draining(1, 40, 3))));
    let step = ok(step.advance(PullEvent::Discovered(vec![leaf(5, 20)])));
    let missing = PullEvent::TargetsRead { left: None, right: filling(1, 0) };
    assert_eq!(kind_of(step.advance(missing)), CORRUPTION);
}

#[test]
fn the_first_donor_with_a_selection_is_attempted() {
    let step = ok(planned(10, 10).advance(PullEvent::Budget(64)));
    // Forty entries in batches of thirty-two leave two rounds: the second
    // rotation starts two donors in, which is the first again.
    let first = match step.phase() {
        PullPhase::DonorBudget { visit, .. } => *visit,
        _ => panic!("a donor comes next"),
    };
    assert_eq!((first.candidate, first.round), (0, 2));
    let step = ok(step.advance(PullEvent::Budget(64)));
    let step = ok(step.advance(PullEvent::PageRead(20)));
    let samples = match step.phase() {
        PullPhase::Screen { samples, .. } => samples.len(),
        _ => panic!("a screen comes next"),
    };
    let content = (0..samples).map(|_| near(1.0, 5.0, 5.0)).collect();
    let step = ok(step.advance(PullEvent::Screened(content)));
    let second = match step.phase() {
        PullPhase::DonorBudget { visit, .. } => visit.candidate,
        _ => panic!("the other donor comes next"),
    };
    assert_eq!(second, 1);
    let step = ok(step.advance(PullEvent::Budget(64)));
    let step = ok(step.advance(PullEvent::PageRead(2)));
    let step = ok(step.advance(PullEvent::Screened(vec![
        near(1.0, 5.0, 5.0),
        near(5.0, 1.0, 2.0),
    ])));
    match step.phase() {
        PullPhase::Attempt { candidate, selected } => {
            assert_eq!(*candidate, 1);
            assert_eq!(*selected, vec![1]);
        }
        _ => panic!("an attempt comes next"),
    }
    assert_eq!(moved(&ok(step.advance(PullEvent::Attempted(1)))), Some(1));
}

#[test]
fn pull_steps_end_when_no_donor_has_a_selection() {
    let mut step = ok(planned(10, 10).advance(PullEvent::Budget(64)));
    for _ in 0..2 {
        step = ok(step.advance(PullEvent::Budget(64)));
        step = ok(step.advance(PullEvent::PageRead(1)));
        step = ok(step.advance(PullEvent::Screened(vec![near(1.0, 5.0, 5.0)])));
    }
    assert_eq!(moved(&step), Some(0));
}

#[test]
fn donor_pages_that_contradict_their_header_are_corrupt() {
    let read = || {
        let step = ok(planned(10, 10).advance(PullEvent::Budget(64)));
        ok(step.advance(PullEvent::Budget(64)))
    };
    assert_eq!(kind_of(read().advance(PullEvent::PageRead(0))), CORRUPTION);
    let sampled = ok(read().advance(PullEvent::PageRead(1)));
    assert_eq!(kind_of(sampled.advance(PullEvent::Screened(vec![None]))), CORRUPTION);
    let step = ok(planned(10, 10).advance(PullEvent::Budget(64)));
    assert_eq!(kind_of(step.advance(PullEvent::Budget(0))), CORRUPTION);
}

#[test]
fn pull_attempts_move_behind_every_revalidation() {
    let terms = PullTerms { left: p(2), right: p(3), maximum: 128, leaf: true };
    let attempt = ok(PullAttempt::LockDonor.advance(terms, PullLocked::Donor(ready(1, 20))));
    let attempt = ok(attempt.advance(terms, PullLocked::Split(draining(1, 40, 3))));
    let targets = PullLocked::Targets { left: filling(1, 10), right: filling(1, 127) };
    let attempt = ok(attempt.advance(terms, targets));
    let entries =
        vec![near(9.0, 2.0, 1.0), None, near(1.0, 5.0, 5.0), near(9.0, 3.0, 1.0)];
    let attempt = ok(attempt.advance(terms, PullLocked::Entries(entries)));
    match &attempt {
        PullAttempt::Relocate { moves } => {
            let found: Vec<(usize, u64)> =
                moves.iter().map(|one| (one.entry, one.target.get())).collect();
            assert_eq!(found, vec![(0, 3), (3, 2)]);
        }
        _ => panic!("moves come next"),
    }
    let attempt = ok(attempt.advance(terms, PullLocked::Relocated(2)));
    assert!(matches!(attempt, PullAttempt::Done { moved: 2 }));
}

#[test]
fn pull_attempts_end_when_something_moved_on() {
    let terms = PullTerms { left: p(2), right: p(3), maximum: 128, leaf: false };
    for donor in [None, draining(2, 20, 3)] {
        let attempt = ok(PullAttempt::LockDonor.advance(terms, PullLocked::Donor(donor)));
        assert!(matches!(attempt, PullAttempt::Done { moved: 0 }));
    }
    let donor = |count: u32| {
        ok(PullAttempt::LockDonor.advance(terms, PullLocked::Donor(ready(2, count))))
    };
    for split in [None, draining(2, 4, 7)] {
        let attempt = ok(donor(20).advance(terms, PullLocked::Split(split)));
        assert!(matches!(attempt, PullAttempt::Done { moved: 0 }));
    }
    let other_level = PullLocked::Split(draining(1, 4, 3));
    assert_eq!(kind_of(donor(20).advance(terms, other_level)), CORRUPTION);
    let targets = |count: u32, left: Option<PartitionHeader>| {
        let attempt = ok(donor(count).advance(terms, PullLocked::Split(draining(2, 4, 3))));
        let locked = PullLocked::Targets { left, right: filling(2, 128) };
        ok(attempt.advance(terms, locked))
    };
    assert!(matches!(targets(20, None), PullAttempt::Done { moved: 0 }));
    assert!(matches!(targets(20, filling(2, 128)), PullAttempt::Done { moved: 0 }));
    assert!(matches!(targets(1, filling(2, 0)), PullAttempt::Done { moved: 0 }));
    // An internal donor keeps one entry.
    let attempt = targets(2, filling(2, 0));
    assert!(matches!(attempt, PullAttempt::LockEntries { limit: Some(1), .. }));
    let entries = vec![near(9.0, 1.0, 2.0), near(9.0, 1.0, 2.0)];
    match ok(attempt.advance(terms, PullLocked::Entries(entries))) {
        PullAttempt::Relocate { moves } => assert_eq!(moves.len(), 1),
        _ => panic!("moves come next"),
    }
    let unknown = PullDistances { source: None, left: d(1.0), right: d(1.0) };
    let entries = PullLocked::Entries(vec![Some(unknown)]);
    assert_eq!(kind_of(targets(5, filling(2, 0)).advance(terms, entries)), CORRUPTION);
}

fn split_terms() -> SplitTerms {
    SplitTerms { left: p(2), right: p(3), minimum: 1, maximum: 8, candidates: vec![p(7)] }
}

fn split_entries(candidates: Vec<Option<PartitionHeader>>) -> Result<SplitAttempt, Error> {
    let terms = split_terms();
    let attempt = SplitAttempt::LockSource;
    let attempt = ok(attempt.advance(&terms, SplitLocked::Source(draining(1, 6, 3))));
    let targets = SplitLocked::Targets { left: filling(1, 1), right: filling(1, 1) };
    let attempt = ok(attempt.advance(&terms, targets));
    attempt.advance(&terms, SplitLocked::Candidates(candidates))
}

#[test]
fn split_attempts_route_against_the_protected_counts() {
    let terms = split_terms();
    let sibling = Some(header(1, 7, PartitionState::Ready));
    let attempt = ok(split_entries(vec![sibling]));
    let entry = |left: f64, right: f64, ready: f64| DrainDistances {
        left: d(left),
        right: d(right),
        ready: vec![d(ready)],
    };
    let entries = vec![entry(1.0, 2.0, 9.0), entry(5.0, 4.0, 1.0), entry(5.0, 4.0, 1.0)];
    let attempt = ok(attempt.advance(&terms, SplitLocked::Entries(entries)));
    match &attempt {
        SplitAttempt::Relocate { targets, .. } => assert_eq!(*targets, vec![p(2), p(7), p(3)]),
        _ => panic!("moves come next"),
    }
    match ok(attempt.advance(&terms, SplitLocked::Relocated(3))) {
        SplitAttempt::Done { step } => {
            assert_eq!(step, split::DrainStep::Drained { moved: 3, remaining: 3 });
        }
        _ => panic!("the attempt is over"),
    }
}

#[test]
fn split_attempts_end_when_the_source_moved_on() {
    let terms = split_terms();
    for source in [None, ready(1, 6)] {
        match ok(SplitAttempt::LockSource.advance(&terms, SplitLocked::Source(source))) {
            SplitAttempt::Done { step } => assert_eq!(step, split::DrainStep::SourceAdvanced),
            _ => panic!("the attempt is over"),
        }
    }
    let other = SplitLocked::Source(draining(1, 6, 4));
    assert_eq!(kind_of(SplitAttempt::LockSource.advance(&terms, other)), CORRUPTION);
    let attempt =
        ok(SplitAttempt::LockSource.advance(&terms, SplitLocked::Source(draining(1, 6, 3))));
    let missing = SplitLocked::Targets { left: filling(1, 0), right: None };
    assert_eq!(kind_of(attempt.advance(&terms, missing)), CORRUPTION);
    let other_level = vec![Some(header(2, 7, PartitionState::Ready))];
    assert_eq!(kind_of(split_entries(other_level)), CORRUPTION);
    let attempt = ok(split_entries(vec![None]));
    let unknown = DrainDistances { left: None, right: d(1.0), ready: vec![None] };
    assert_eq!(kind_of(attempt.advance(&terms, SplitLocked::Entries(vec![unknown]))), CORRUPTION);
    let attempt = ok(split_entries(vec![None]));
    let attempt = ok(attempt.advance(&terms, SplitLocked::Entries(vec![])));
    assert_eq!(kind_of(attempt.advance(&terms, SplitLocked::Relocated(7))), CORRUPTION);
}

fn merge_terms() -> MergeTerms {
    MergeTerms { source: p(9), candidates: vec![leaf(5, 4), leaf(9, 2), leaf(6, 4)] }
}

fn merge_source() -> MergeAttempt {
    let locked = MergeLocked::Source {
        header: Some(header(1, 3, PartitionState::Merging)),
        transition: Some(merging()),
    };
    ok(MergeAttempt::LockSource.advance(&merge_terms(), locked))
}

fn merge_chosen() -> MergeAttempt {
    let entries = vec![
        Some(vec![d(3.0), d(0.0), d(1.0)]),
        Some(vec![d(1.0), None, d(2.0)]),
        Some(vec![d(3.0), d(0.0), d(1.0)]),
    ];
    ok(merge_source().advance(&merge_terms(), MergeLocked::Entries(entries)))
}

#[test]
fn merge_attempts_move_into_revalidated_targets() {
    let terms = merge_terms();
    let attempt = merge_chosen();
    match &attempt {
        MergeAttempt::LockTargets { targets, distinct, .. } => {
            assert_eq!(*targets, vec![p(6), p(5), p(6)]);
            assert_eq!(*distinct, vec![p(5), p(6)]);
        }
        _ => panic!("targets come next"),
    }
    let still = Some(header(1, 4, PartitionState::Ready));
    let attempt = ok(attempt.advance(&terms, MergeLocked::Targets(vec![still, still])));
    assert!(matches!(&attempt, MergeAttempt::Relocate { targets, .. } if targets.len() == 3));
    match ok(attempt.advance(&terms, MergeLocked::Relocated(3))) {
        MergeAttempt::Done { step } => {
            assert_eq!(step, merge::DrainStep::Drained { moved: 3, remaining: 0 });
        }
        _ => panic!("the attempt is over"),
    }
}

#[test]
fn merge_attempts_reselect_or_fail() {
    let terms = merge_terms();
    let gone = MergeLocked::Source { header: None, transition: None };
    match ok(MergeAttempt::LockSource.advance(&terms, gone)) {
        MergeAttempt::Done { step } => assert_eq!(step, merge::DrainStep::SourceAdvanced),
        _ => panic!("the attempt is over"),
    }
    let torn = MergeLocked::Source { header: None, transition: Some(merging()) };
    assert_eq!(kind_of(MergeAttempt::LockSource.advance(&terms, torn)), CORRUPTION);
    let still = Some(header(1, 4, PartitionState::Ready));
    let left = Some(header(1, 4, PartitionState::Splitting));
    for headers in [vec![still, None], vec![left, still]] {
        let attempt = ok(merge_chosen().advance(&terms, MergeLocked::Targets(headers)));
        assert!(matches!(attempt, MergeAttempt::Reselect));
    }
    let other = Some(header(2, 4, PartitionState::Ready));
    let headers = MergeLocked::Targets(vec![still, other]);
    assert_eq!(kind_of(merge_chosen().advance(&terms, headers)), CORRUPTION);
    let unusable = MergeLocked::Entries(vec![None]);
    assert_eq!(kind_of(merge_source().advance(&terms, unusable)), CORRUPTION);
    let alone = MergeTerms { source: p(9), candidates: vec![leaf(9, 2)] };
    let entries = || MergeLocked::Entries(vec![Some(vec![d(1.0)]), None]);
    assert_eq!(kind_of(merge_source().advance(&alone, entries())), Some(ErrorKind::Backend));
    let attempt = ok(merge_source().advance(&terms, MergeLocked::Entries(vec![])));
    let attempt = ok(attempt.advance(&terms, MergeLocked::Targets(vec![])));
    assert_eq!(kind_of(attempt.advance(&terms, MergeLocked::Relocated(4))), CORRUPTION);
}
