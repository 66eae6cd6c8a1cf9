//! The training protocol as a state machine.
//!
//! Training alternates vector arithmetic and decisions. The arithmetic, means
//! and distances of floating-point vectors, happens outside; a [`Trainer`]
//! says what it needs next and decides what follows from the answer.

use vstd::prelude::*;

use crate::api::error::{plain_error, Error, ErrorKind, Result};
use crate::api::number::{all_finite, vector_is_finite, Distance, Float32};
use crate::maintenance::training::{
    balanced, balanced_assignments_are_unique, balanced_assignments_exist, canonical_entries, canonical_entries_shape,
    distinct_ids, entry_views, farthest, farthest_exists, first_farthest, prepare_training, trainable,
    training_depends_on_the_entry_set, Rounds, SplitCentroids, TrainingEntry,
    TrainingEntryView, MAX_TRAINING_ROUNDS,
};

verus! {

/// What a training run needs next.
pub enum TrainingPhase {
    /// The mean of all entries.
    SourceMean,
    /// Every entry's distance from that mean, which chooses the left seed.
    LeftSeed {
        /// The mean.
        mean: Vec<Float32>,
    },
    /// Every entry's distance from the left seed, which chooses the right one.
    RightSeed {
        /// The entry that seeds the left cluster.
        left: usize,
    },
    /// Every entry's distance to the left centroid less its distance to the
    /// right one, which assigns the entries.
    Assign {
        /// The left centroid.
        left: Vec<Float32>,
        /// The right centroid.
        right: Vec<Float32>,
    },
    /// The means of the two clusters of an assignment.
    Means {
        /// The left members.
        assignment: Vec<bool>,
        /// Whether they are the result.
        done: bool,
    },
    /// Nothing: the run is over.
    Done {
        /// The left centroid.
        left: Vec<Float32>,
        /// The right centroid.
        right: Vec<Float32>,
    },
}

/// The mathematical content of a [`TrainingPhase`].
pub ghost enum PhaseView {
    /// The mean of all entries.
    SourceMean,
    /// The left seed.
    LeftSeed {
        /// The mean.
        mean: Seq<Float32>,
    },
    /// The right seed.
    RightSeed {
        /// The entry that seeds the left cluster.
        left: int,
    },
    /// An assignment.
    Assign {
        /// The left centroid.
        left: Seq<Float32>,
        /// The right centroid.
        right: Seq<Float32>,
    },
    /// The means of two clusters.
    Means {
        /// The left members.
        assignment: Seq<bool>,
        /// Whether they are the result.
        done: bool,
    },
    /// Nothing.
    Done {
        /// The left centroid.
        left: Seq<Float32>,
        /// The right centroid.
        right: Seq<Float32>,
    },
}

impl View for TrainingPhase {
    type V = PhaseView;

    open spec fn view(&self) -> PhaseView {
        match self {
            TrainingPhase::SourceMean => PhaseView::SourceMean,
            TrainingPhase::LeftSeed { mean } => PhaseView::LeftSeed { mean: mean@ },
            TrainingPhase::RightSeed { left } => PhaseView::RightSeed { left: *left as int },
            TrainingPhase::Assign { left, right } => PhaseView::Assign {
                left: left@,
                right: right@,
            },
            TrainingPhase::Means { assignment, done } => PhaseView::Means {
                assignment: assignment@,
                done: *done,
            },
            TrainingPhase::Done { left, right } => PhaseView::Done { left: left@, right: right@ },
        }
    }
}

/// The arithmetic a phase asked for.
pub enum TrainingAnswer {
    /// A mean.
    Mean(Vec<Float32>),
    /// One distance, or difference of distances, per entry; `None` for one
    /// that is not a finite number.
    Distances(Vec<Option<Distance>>),
    /// The means of the two clusters.
    Means {
        /// The left cluster's.
        left: Vec<Float32>,
        /// The right cluster's.
        right: Vec<Float32>,
    },
}

/// A training run between two answers.
pub ghost struct TrainerView {
    /// The entries in canonical order.
    pub entries: Seq<TrainingEntryView>,
    /// What is needed next.
    pub phase: PhaseView,
    /// The last assignment.
    pub previous: Option<Seq<bool>>,
    /// The assignment rounds run.
    pub rounds: nat,
}

/// The distances that are all known.
pub open spec fn known(distances: Seq<Option<Distance>>) -> bool {
    forall|i: int| 0 <= i < distances.len() ==> #[trigger] distances[i] is Some
}

/// Known distances without their wrapping.
pub open spec fn plain_distances(distances: Seq<Option<Distance>>) -> Seq<Distance> {
    Seq::new(distances.len(), |i: int| distances[i]->0)
}

impl TrainerView {
    /// Whether an answer is of the kind and length that the phase asked for.
    pub open spec fn asked_for(self, answer: TrainingAnswer) -> bool {
        match (self.phase, answer) {
            (PhaseView::SourceMean, TrainingAnswer::Mean(_)) => true,
            (PhaseView::LeftSeed { .. }, TrainingAnswer::Distances(distances)) => distances@.len()
                == self.entries.len(),
            (PhaseView::RightSeed { .. }, TrainingAnswer::Distances(distances)) => distances@.len()
                == self.entries.len(),
            (PhaseView::Assign { .. }, TrainingAnswer::Distances(distances)) => distances@.len()
                == self.entries.len(),
            (PhaseView::Means { .. }, TrainingAnswer::Means { .. }) => true,
            _ => false,
        }
    }

    /// Whether an answer holds finite numbers only.
    pub open spec fn sound(answer: TrainingAnswer) -> bool {
        match answer {
            TrainingAnswer::Mean(mean) => all_finite(mean@),
            TrainingAnswer::Distances(distances) => known(distances@),
            TrainingAnswer::Means { left, right } => all_finite(left@) && all_finite(right@),
        }
    }

    /// Whether a sound answer leads from this run to `after`. The seeds are the
    /// entry farthest from the mean and the entry farthest from that one. Each
    /// round assigns half of the entries, rounded down, to the left cluster,
    /// and the run ends with the means of an assignment that repeats the one
    /// before it, or of the last allowed round.
    pub open spec fn leads_to(self, answer: TrainingAnswer, after: TrainerView) -> bool {
        match (self.phase, answer) {
            (PhaseView::SourceMean, TrainingAnswer::Mean(mean)) => after == (TrainerView {
                phase: PhaseView::LeftSeed { mean: mean@ },
                ..self
            }),
            (PhaseView::LeftSeed { .. }, TrainingAnswer::Distances(distances)) => {
                &&& after.phase matches PhaseView::RightSeed { left } && first_farthest(
                    plain_distances(distances@),
                    left,
                )
                &&& after == (TrainerView { phase: after.phase, ..self })
            },
            (PhaseView::RightSeed { left }, TrainingAnswer::Distances(distances)) => exists|
                right: int,
            |
                #[trigger] first_farthest(plain_distances(distances@), right) && after == (
                TrainerView {
                    phase: PhaseView::Assign {
                        left: self.entries[left].vector,
                        right: self.entries[right].vector,
                    },
                    ..self
                }),
            (PhaseView::Assign { .. }, TrainingAnswer::Distances(distances)) => {
                &&& after.phase matches PhaseView::Means { assignment, done } && {
                    &&& balanced(
                        plain_distances(distances@),
                        assignment,
                        self.entries.len() / 2,
                    )
                    &&& done == (self.previous == Some(assignment) || self.rounds + 1
                        == MAX_TRAINING_ROUNDS)
                    &&& after == (TrainerView {
                        entries: self.entries,
                        phase: after.phase,
                        previous: Some(assignment),
                        rounds: self.rounds + 1,
                    })
                }
            },
            (PhaseView::Means { done, .. }, TrainingAnswer::Means { left, right }) => after == (
            TrainerView {
                phase: if done {
                    PhaseView::Done { left: left@, right: right@ }
                } else {
                    PhaseView::Assign { left: left@, right: right@ }
                },
                ..self
            }),
            _ => false,
        }
    }

    /// Whether the run can come about.
    pub open spec fn reachable(self) -> bool {
        &&& self.entries.len() >= 2
        &&& self.rounds <= MAX_TRAINING_ROUNDS
        &&& self.phase matches PhaseView::RightSeed { left } ==> 0 <= left < self.entries.len()
        &&& self.phase matches PhaseView::Means { assignment, done } ==> {
            &&& assignment.len() == self.entries.len()
            &&& !done ==> self.rounds < MAX_TRAINING_ROUNDS
        }
        &&& self.phase matches PhaseView::Done { left, right } ==> all_finite(left) && all_finite(
            right,
        )
        &&& self.phase is Means || self.phase is Done ==> self.rounds >= 1
        &&& self.phase is Means || self.phase is Done || self.rounds < MAX_TRAINING_ROUNDS
    }

    /// The most answers the run still asks for.
    pub open spec fn answers_left(self) -> int {
        let rounds = 2 * (MAX_TRAINING_ROUNDS - self.rounds);
        match self.phase {
            PhaseView::SourceMean => rounds + 3,
            PhaseView::LeftSeed { .. } => rounds + 2,
            PhaseView::RightSeed { .. } => rounds + 1,
            PhaseView::Assign { .. } => rounds,
            PhaseView::Means { .. } => rounds + 1,
            PhaseView::Done { .. } => 0,
        }
    }
}

/// A training run over one source.
pub struct Trainer {
    entries: Vec<TrainingEntry>,
    phase: TrainingPhase,
    rounds: Rounds,
}

impl View for Trainer {
    type V = TrainerView;

    closed spec fn view(&self) -> TrainerView {
        TrainerView {
            entries: entry_views(self.entries@),
            phase: self.phase@,
            previous: match self.rounds.previous {
                Some(assignment) => Some(assignment@),
                None => None,
            },
            rounds: self.rounds.rounds as nat,
        }
    }
}

fn known_distances(distances: Vec<Option<Distance>>) -> (res: Result<Vec<Distance>>)
    ensures
        match res {
            Ok(plain) => known(distances@) && plain@ == plain_distances(distances@),
            Err(error) => !known(distances@) && error == plain_error(ErrorKind::Corruption),
        },
{
    let mut plain: Vec<Distance> = Vec::new();
    let mut at: usize = 0;
    while at < distances.len()
        invariant
            at <= distances@.len(),
            plain@.len() == at,
            forall|i: int|
                0 <= i < at ==> #[trigger] distances@[i] is Some && plain@[i] == distances@[i]->0,
        decreases distances@.len() - at,
    {
        match distances[at] {
            Some(distance) => plain.push(distance),
            None => {
                assert(!(distances@[at as int] is Some));
                return Err(Error::new(ErrorKind::Corruption));
            },
        }
        at = at + 1;
    }
    assert(plain@ =~= plain_distances(distances@));
    Ok(plain)
}

fn copy_vector(vector: &Vec<Float32>) -> (res: Vec<Float32>)
    ensures
        res@ == vector@,
{
    let mut copy: Vec<Float32> = Vec::new();
    let mut at: usize = 0;
    while at < vector.len()
        invariant
            at <= vector@.len(),
            copy@ == vector@.take(at as int),
        decreases vector@.len() - at,
    {
        copy.push(vector[at]);
        assert(vector@.take(at + 1) =~= vector@.take(at as int).push(vector@[at as int]));
        at = at + 1;
    }
    assert(vector@.take(at as int) =~= vector@);
    copy
}

impl Trainer {
    #[verifier::type_invariant]
    spec fn sound_run(self) -> bool {
        &&& self@.reachable()
        &&& self.rounds.half == self.entries@.len() / 2
    }

    /// Starts a run over loaded entries. Fewer than two, or a malformed
    /// vector, is Corruption.
    pub fn start(dimension: usize, entries: Vec<TrainingEntry>) -> (res: Result<Self>)
        ensures
            match res {
                Ok(trainer) => {
                    &&& trainable(entry_views(entries@), dimension as int)
                    &&& trainer@ == fresh_run(entry_views(entries@))
                    &&& trainer@.reachable()
                },
                Err(error) => {
                    &&& !trainable(entry_views(entries@), dimension as int)
                    &&& error == plain_error(ErrorKind::Corruption)
                },
            },
    {
        let ordered = prepare_training(dimension, entries)?;
        let rounds = Rounds::new(ordered.len());
        Ok(Trainer { entries: ordered, phase: TrainingPhase::SourceMean, rounds })
    }

    /// Returns the entries in canonical order.
    pub fn entries(&self) -> (res: &Vec<TrainingEntry>)
        ensures
            entry_views(res@) == self@.entries,
    {
        &self.entries
    }

    /// Returns what is needed next.
    pub fn phase(&self) -> (res: &TrainingPhase)
        ensures
            res@ == self@.phase,
            self@.reachable(),
    {
        proof {
            use_type_invariant(self);
        }
        &self.phase
    }

    /// Returns the number of assignment rounds run.
    pub fn rounds(&self) -> (res: usize)
        ensures
            res == self@.rounds,
    {
        self.rounds.rounds
    }

    /// Goes on with an answer. A number that is not finite is Corruption.
    pub fn advance(self, answer: TrainingAnswer) -> (res: Result<Self>)
        requires
            self@.asked_for(answer),
        ensures
            match res {
                Ok(after) => {
                    &&& TrainerView::sound(answer)
                    &&& self@.leads_to(answer, after@)
                    &&& after@.reachable()
                },
                Err(error) => {
                    &&& !TrainerView::sound(answer)
                    &&& error == plain_error(ErrorKind::Corruption)
                },
            },
    {
        proof {
            use_type_invariant(&self);
        }
        let ghost before = self@;
        let entries = self.entries;
        let mut rounds = self.rounds;
        match (self.phase, answer) {
            (TrainingPhase::SourceMean, TrainingAnswer::Mean(mean)) => {
                if !vector_is_finite(&mean) {
                    return Err(Error::new(ErrorKind::Corruption));
                }
                Ok(Trainer { entries, phase: TrainingPhase::LeftSeed { mean }, rounds })
            },
            (TrainingPhase::LeftSeed { .. }, TrainingAnswer::Distances(distances)) => {
                let plain = known_distances(distances)?;
                let left: usize = farthest(&plain);
                Ok(Trainer { entries, phase: TrainingPhase::RightSeed { left }, rounds })
            },
            (TrainingPhase::RightSeed { left }, TrainingAnswer::Distances(distances)) => {
                let plain = known_distances(distances)?;
                let right: usize = farthest(&plain);
                let phase = TrainingPhase::Assign {
                    left: copy_vector(&entries[left].vector),
                    right: copy_vector(&entries[right].vector),
                };
                proof {
                    assert(before.entries[left as int] == entries@[left as int]@);
                    assert(before.entries[right as int] == entries@[right as int]@);
                }
                Ok(Trainer { entries, phase, rounds })
            },
            (TrainingPhase::Assign { .. }, TrainingAnswer::Distances(distances)) => {
                let plain = known_distances(distances)?;
                let round = rounds.round(&plain);
                let phase = TrainingPhase::Means { assignment: round.assignment, done: round.done };
                Ok(Trainer { entries, phase, rounds })
            },
            (TrainingPhase::Means { assignment: _, done }, TrainingAnswer::Means { left, right }) => {
                if !vector_is_finite(&left) || !vector_is_finite(&right) {
                    return Err(Error::new(ErrorKind::Corruption));
                }
                let phase = if done {
                    TrainingPhase::Done { left, right }
                } else {
                    TrainingPhase::Assign { left, right }
                };
                Ok(Trainer { entries, phase, rounds })
            },
            _ => {
                assert(false);
                Err(Error::new(ErrorKind::Backend))
            },
        }
    }

    /// Returns the trained centroids; `None` before the run is over.
    pub fn into_centroids(self) -> (res: Option<SplitCentroids>)
        ensures
            match self@.phase {
                PhaseView::Done { left, right } => {
                    &&& res is Some
                    &&& res->0.spec_left() == left
                    &&& res->0.spec_right() == right
                },
                _ => res is None,
            },
    {
        proof {
            use_type_invariant(&self);
        }
        match self.phase {
            TrainingPhase::Done { left, right } => match SplitCentroids::new(left, right) {
                Ok(centroids) => Some(centroids),
                Err(_) => None,
            },
            _ => None,
        }
    }
}

/// Training is deterministic: the entries and the answers fix every step.
pub proof fn training_is_deterministic(
    run: TrainerView,
    answer: TrainingAnswer,
    a: TrainerView,
    b: TrainerView,
)
    requires
        run.leads_to(answer, a),
        run.leads_to(answer, b),
    ensures
        a == b,
{
    match (run.phase, answer) {
        (PhaseView::LeftSeed { .. }, TrainingAnswer::Distances(distances)) => {
            let plain = plain_distances(distances@);
            farthest_is_unique(plain, a.phase->RightSeed_left, b.phase->RightSeed_left);
        },
        (PhaseView::RightSeed { left }, TrainingAnswer::Distances(distances)) => {
            let plain = plain_distances(distances@);
            let x = choose|right: int| #[trigger]
                first_farthest(plain, right) && a.phase == (PhaseView::Assign {
                    left: run.entries[left].vector,
                    right: run.entries[right].vector,
                });
            let y = choose|right: int| #[trigger]
                first_farthest(plain, right) && b.phase == (PhaseView::Assign {
                    left: run.entries[left].vector,
                    right: run.entries[right].vector,
                });
            farthest_is_unique(plain, x, y);
        },
        (PhaseView::Assign { .. }, TrainingAnswer::Distances(distances)) => {
            balanced_assignments_are_unique(
                plain_distances(distances@),
                a.phase->assignment,
                b.phase->assignment,
                run.entries.len() / 2,
            );
        },
        _ => {},
    }
}

proof fn farthest_is_unique(distances: Seq<Distance>, a: int, b: int)
    requires
        first_farthest(distances, a),
        first_farthest(distances, b),
    ensures
        a == b,
{
    if a < b {
        assert(distances[a].rank < distances[b].rank);
        assert(distances[b].rank <= distances[a].rank);
    } else if b < a {
        assert(distances[b].rank < distances[a].rank);
        assert(distances[a].rank <= distances[b].rank);
    }
}

/// A run that can come about goes on to one that can.
pub proof fn runs_stay_reachable(run: TrainerView, answer: TrainingAnswer, after: TrainerView)
    requires
        run.reachable(),
        run.asked_for(answer),
        TrainerView::sound(answer),
        run.leads_to(answer, after),
    ensures
        after.reachable(),
{
}

/// Training ends: every answer leaves fewer to ask for, a fresh run asks for
/// at most twenty-three, and a run that asks for none is over.
pub proof fn training_ends(run: TrainerView, answer: TrainingAnswer, after: TrainerView)
    requires
        run.reachable(),
        run.leads_to(answer, after),
        after.reachable(),
    ensures
        0 <= after.answers_left() < run.answers_left() <= 23,
        after.answers_left() == 0 <==> after.phase is Done,
        after.entries == run.entries,
{
}

/// The arithmetic of training: what it answers over entries in canonical
/// order, in one phase.
pub type Arithmetic = spec_fn(Seq<TrainingEntryView>, PhaseView) -> TrainingAnswer;

/// What a training run gives back.
pub ghost enum TrainingOutcome {
    /// Two centroids.
    Trained {
        /// The left centroid.
        left: Seq<Float32>,
        /// The right centroid.
        right: Seq<Float32>,
        /// The assignment rounds run.
        rounds: nat,
    },
    /// Corruption.
    Corrupt,
}

/// A run over entries that was just started.
pub open spec fn fresh_run(entries: Seq<TrainingEntryView>) -> TrainerView {
    TrainerView {
        entries: canonical_entries(entries),
        phase: PhaseView::SourceMean,
        previous: None,
        rounds: 0,
    }
}

impl TrainerView {
    /// Whether the answer of some arithmetic leads from this run to `after`.
    pub open spec fn steps_to(self, arithmetic: Arithmetic, after: TrainerView) -> bool {
        let answer = arithmetic(self.entries, self.phase);
        &&& self.asked_for(answer)
        &&& TrainerView::sound(answer)
        &&& self.leads_to(answer, after)
    }

    /// Whether `n` answers lead from this run to `after`.
    pub open spec fn runs_to(self, arithmetic: Arithmetic, n: nat, after: TrainerView) -> bool
        decreases n,
    {
        if n == 0 {
            after == self
        } else {
            exists|mid: TrainerView|
                self.runs_to(arithmetic, (n - 1) as nat, mid) && #[trigger] mid.steps_to(
                    arithmetic,
                    after,
                )
        }
    }

    /// Whether a run is over with an outcome: it is done, or its arithmetic
    /// answers with a number that is not finite.
    pub open spec fn over(self, arithmetic: Arithmetic, outcome: TrainingOutcome) -> bool {
        match self.phase {
            PhaseView::Done { left, right } => outcome == (TrainingOutcome::Trained {
                left,
                right,
                rounds: self.rounds,
            }),
            _ => {
                let answer = arithmetic(self.entries, self.phase);
                &&& self.asked_for(answer)
                &&& !TrainerView::sound(answer)
                &&& outcome == TrainingOutcome::Corrupt
            },
        }
    }
}

/// Whether `n` answers bring training over a source to its outcome.
pub open spec fn trains_in(
    arithmetic: Arithmetic,
    entries: Seq<TrainingEntryView>,
    n: nat,
    outcome: TrainingOutcome,
) -> bool {
    exists|end: TrainerView|
        fresh_run(entries).runs_to(arithmetic, n, end) && #[trigger] end.over(arithmetic, outcome)
}

/// Whether training over a source of an index has an outcome.
pub open spec fn trains(
    arithmetic: Arithmetic,
    dimension: int,
    entries: Seq<TrainingEntryView>,
    outcome: TrainingOutcome,
) -> bool {
    if trainable(entries, dimension) {
        exists|n: nat| #[trigger] trains_in(arithmetic, entries, n, outcome)
    } else {
        outcome == TrainingOutcome::Corrupt
    }
}

proof fn runs_agree(
    start: TrainerView,
    arithmetic: Arithmetic,
    n: nat,
    a: TrainerView,
    b: TrainerView,
)
    requires
        start.reachable(),
        start.runs_to(arithmetic, n, a),
        start.runs_to(arithmetic, n, b),
    ensures
        a == b,
        a.reachable(),
    decreases n,
{
    if n > 0 {
        let m = (n - 1) as nat;
        let x = choose|mid: TrainerView|
            start.runs_to(arithmetic, m, mid) && #[trigger] mid.steps_to(arithmetic, a);
        let y = choose|mid: TrainerView|
            start.runs_to(arithmetic, m, mid) && #[trigger] mid.steps_to(arithmetic, b);
        runs_agree(start, arithmetic, m, x, y);
        let answer = arithmetic(x.entries, x.phase);
        training_is_deterministic(x, answer, a, b);
        runs_stay_reachable(x, answer, a);
    }
}

proof fn runs_pass_through(
    start: TrainerView,
    arithmetic: Arithmetic,
    n: nat,
    m: nat,
    end: TrainerView,
) -> (found: (TrainerView, TrainerView))
    requires
        n < m,
        start.runs_to(arithmetic, m, end),
    ensures
        start.runs_to(arithmetic, n, found.0),
        found.0.steps_to(arithmetic, found.1),
    decreases m,
{
    let before = (m - 1) as nat;
    let mid = choose|mid: TrainerView|
        start.runs_to(arithmetic, before, mid) && #[trigger] mid.steps_to(arithmetic, end);
    if n == before {
        (mid, end)
    } else {
        runs_pass_through(start, arithmetic, n, before, mid)
    }
}

proof fn outcomes_agree(
    start: TrainerView,
    arithmetic: Arithmetic,
    n: nat,
    a: TrainerView,
    x: TrainingOutcome,
    m: nat,
    b: TrainerView,
    y: TrainingOutcome,
)
    requires
        start.reachable(),
        n <= m,
        start.runs_to(arithmetic, n, a),
        a.over(arithmetic, x),
        start.runs_to(arithmetic, m, b),
        b.over(arithmetic, y),
    ensures
        x == y,
{
    if n < m {
        let (mid, after) = runs_pass_through(start, arithmetic, n, m, b);
        runs_agree(start, arithmetic, n, a, mid);
        assert(a.steps_to(arithmetic, after));
        assert(false);
    }
    runs_agree(start, arithmetic, n, a, b);
}

proof fn permutations_hold_the_same(a: Seq<TrainingEntryView>, b: Seq<TrainingEntryView>)
    requires
        distinct_ids(a),
        a.to_multiset() == b.to_multiset(),
    ensures
        a.len() == b.len(),
        distinct_ids(b),
        forall|e: TrainingEntryView| #[trigger] a.contains(e) <==> b.contains(e),
{
    broadcast use vstd::seq_lib::group_to_multiset_ensures;

    assert forall|e: TrainingEntryView| #[trigger] a.contains(e) <==> b.contains(e) by {
        assert(a.contains(e) <==> a.to_multiset().count(e) > 0);
        assert(b.contains(e) <==> b.to_multiset().count(e) > 0);
    }
    assert(a.len() == a.to_multiset().len());
    assert(b.len() == b.to_multiset().len());
    assert(a.no_duplicates()) by {
        assert forall|i: int, j: int| 0 <= i < a.len() && 0 <= j < a.len() && i != j implies a[i]
            != a[j] by {
            if i < j {
                assert(a[i].id != a[j].id);
            } else {
                assert(a[j].id != a[i].id);
            }
        }
    }
    a.lemma_multiset_has_no_duplicates();
    b.lemma_multiset_has_no_duplicates_conv();
    assert forall|i: int, j: int| 0 <= i < j < b.len() implies (#[trigger] b[i]).id != (
    #[trigger] b[j]).id by {
        assert(b.contains(b[i]));
        assert(b.contains(b[j]));
        assert(a.contains(b[i]));
        assert(a.contains(b[j]));
        let p = choose|p: int| 0 <= p < a.len() && a[p] == b[i];
        let q = choose|q: int| 0 <= q < a.len() && a[q] == b[j];
        assert(b[i] != b[j]);
        if p < q {
            assert(a[p].id != a[q].id);
        } else {
            assert(a[q].id != a[p].id);
        }
    }
}

/// Whether arithmetic answers each phase with what it asked for.
pub open spec fn answers_fit(arithmetic: Arithmetic) -> bool {
    forall|run: TrainerView| #[trigger]
        run.reachable() && !(run.phase is Done) ==> run.asked_for(
            arithmetic(run.entries, run.phase),
        )
}

proof fn sound_answers_lead_on(run: TrainerView, answer: TrainingAnswer) -> (after: TrainerView)
    requires
        run.reachable(),
        run.asked_for(answer),
        TrainerView::sound(answer),
    ensures
        run.leads_to(answer, after),
{
    match (run.phase, answer) {
        (PhaseView::SourceMean, TrainingAnswer::Mean(mean)) => TrainerView {
            phase: PhaseView::LeftSeed { mean: mean@ },
            ..run
        },
        (PhaseView::LeftSeed { .. }, TrainingAnswer::Distances(distances)) => {
            let left = farthest_exists(plain_distances(distances@));
            TrainerView { phase: PhaseView::RightSeed { left }, ..run }
        },
        (PhaseView::RightSeed { left }, TrainingAnswer::Distances(distances)) => {
            let right = farthest_exists(plain_distances(distances@));
            TrainerView {
                phase: PhaseView::Assign {
                    left: run.entries[left].vector,
                    right: run.entries[right].vector,
                },
                ..run
            }
        },
        (PhaseView::Assign { .. }, TrainingAnswer::Distances(distances)) => {
            let assignment = balanced_assignments_exist(
                plain_distances(distances@),
                run.entries.len() / 2,
            );
            let done = run.previous == Some(assignment) || run.rounds + 1 == MAX_TRAINING_ROUNDS;
            TrainerView {
                entries: run.entries,
                phase: PhaseView::Means { assignment, done },
                previous: Some(assignment),
                rounds: run.rounds + 1,
            }
        },
        (PhaseView::Means { done, .. }, TrainingAnswer::Means { left, right }) => TrainerView {
            phase: if done {
                PhaseView::Done { left: left@, right: right@ }
            } else {
                PhaseView::Assign { left: left@, right: right@ }
            },
            ..run
        },
        _ => run,
    }
}

proof fn runs_come_to_an_end(
    start: TrainerView,
    arithmetic: Arithmetic,
    n: nat,
    run: TrainerView,
) -> (found: (nat, TrainerView, TrainingOutcome))
    requires
        answers_fit(arithmetic),
        run.reachable(),
        start.runs_to(arithmetic, n, run),
    ensures
        start.runs_to(arithmetic, found.0, found.1),
        found.1.over(arithmetic, found.2),
    decreases run.answers_left(),
{
    let answer = arithmetic(run.entries, run.phase);
    match run.phase {
        PhaseView::Done { left, right } => (
            n,
            run,
            TrainingOutcome::Trained { left, right, rounds: run.rounds },
        ),
        _ => if TrainerView::sound(answer) {
            let after = sound_answers_lead_on(run, answer);
            runs_stay_reachable(run, answer, after);
            training_ends(run, answer, after);
            assert(run.steps_to(arithmetic, after));
            runs_come_to_an_end(start, arithmetic, n + 1, after)
        } else {
            (n, run, TrainingOutcome::Corrupt)
        },
    }
}

/// Training over any source comes to an outcome.
pub proof fn training_has_an_outcome(
    arithmetic: Arithmetic,
    dimension: int,
    entries: Seq<TrainingEntryView>,
) -> (outcome: TrainingOutcome)
    requires
        answers_fit(arithmetic),
    ensures
        trains(arithmetic, dimension, entries, outcome),
{
    if trainable(entries, dimension) {
        canonical_entries_shape(entries);
        let start = fresh_run(entries);
        assert(start.runs_to(arithmetic, 0, start));
        let (n, end, outcome) = runs_come_to_an_end(start, arithmetic, 0, start);
        assert(trains_in(arithmetic, entries, n, outcome));
        outcome
    } else {
        TrainingOutcome::Corrupt
    }
}

/// Training is a pure function of the entry set: whatever the arithmetic, and
/// in whatever order entries of distinct identities are read, the outcome is
/// the same. A trained split has finite centroids and ran between one and ten
/// rounds.
pub proof fn training_is_a_function_of_the_entry_set(
    arithmetic: Arithmetic,
    dimension: int,
    a: Seq<TrainingEntryView>,
    b: Seq<TrainingEntryView>,
    x: TrainingOutcome,
    y: TrainingOutcome,
)
    requires
        distinct_ids(a),
        a.to_multiset() == b.to_multiset(),
        trains(arithmetic, dimension, a, x),
        trains(arithmetic, dimension, b, y),
    ensures
        x == y,
        x matches TrainingOutcome::Trained { left, right, rounds } ==> {
            &&& all_finite(left)
            &&& all_finite(right)
            &&& 1 <= rounds <= 10
        },
        !trainable(a, dimension) ==> x == TrainingOutcome::Corrupt,
{
    permutations_hold_the_same(a, b);
    assert(trainable(a, dimension) == trainable(b, dimension)) by {
        assert forall|i: int| 0 <= i < b.len() implies a.contains(#[trigger] b[i]) by {
            assert(b.contains(b[i]));
        }
        assert forall|i: int| 0 <= i < a.len() implies b.contains(#[trigger] a[i]) by {
            assert(a.contains(a[i]));
        }
    }
    if trainable(a, dimension) {
        training_depends_on_the_entry_set(a, b);
        canonical_entries_shape(a);
        let start = fresh_run(a);
        assert(fresh_run(b) == start);
        let n = choose|n: nat| #[trigger] trains_in(arithmetic, a, n, x);
        let m = choose|m: nat| #[trigger] trains_in(arithmetic, b, m, y);
        let p = choose|end: TrainerView|
            start.runs_to(arithmetic, n, end) && #[trigger] end.over(arithmetic, x);
        let q = choose|end: TrainerView|
            start.runs_to(arithmetic, m, end) && #[trigger] end.over(arithmetic, y);
        if n <= m {
            outcomes_agree(start, arithmetic, n, p, x, m, q, y);
        } else {
            outcomes_agree(start, arithmetic, m, q, y, n, p, x);
        }
        runs_agree(start, arithmetic, n, p, p);
    }
}

/// The seeds of a run are entries: the left one lies farthest from the mean and
/// the right one farthest from the left, the first of those that tie.
pub proof fn seeds_are_the_farthest_entries(
    run: TrainerView,
    answer: TrainingAnswer,
    after: TrainerView,
    i: int,
)
    requires
        run.asked_for(answer),
        TrainerView::sound(answer),
        run.leads_to(answer, after),
    ensures
        after.entries == run.entries,
        run.phase is LeftSeed && answer is Distances && 0 <= i < run.entries.len() ==> {
            let distances = answer->Distances_0@;
            &&& after.phase is RightSeed
            &&& 0 <= after.phase->RightSeed_left < run.entries.len()
            &&& (distances[i]->0).rank <= (distances[after.phase->RightSeed_left]->0).rank
            &&& i < after.phase->RightSeed_left ==> (distances[i]->0).rank < (
            distances[after.phase->RightSeed_left]->0).rank
        },
        run.phase is RightSeed && answer is Distances && 0 <= i < run.entries.len() ==> {
            let distances = answer->Distances_0@;
            &&& after.phase is Assign
            &&& after.phase->Assign_left == run.entries[run.phase->RightSeed_left].vector
            &&& exists|right: int|
                0 <= right < run.entries.len() && after.phase->Assign_right == (
                #[trigger] run.entries[right]).vector && (distances[i]->0).rank <= (
                distances[right]->0).rank
        },
{
    if run.phase is LeftSeed && answer is Distances && 0 <= i < run.entries.len() {
        let distances = answer->Distances_0@;
        let plain = plain_distances(distances);
        assert(plain[i].rank <= plain[after.phase->RightSeed_left].rank);
        if i < after.phase->RightSeed_left {
            assert(plain[i].rank < plain[after.phase->RightSeed_left].rank);
        }
    }
    if run.phase is RightSeed && answer is Distances && 0 <= i < run.entries.len() {
        let distances = answer->Distances_0@;
        let plain = plain_distances(distances);
        let left = run.phase->RightSeed_left;
        let right = choose|right: int| #[trigger]
            first_farthest(plain, right) && after == (TrainerView {
                phase: PhaseView::Assign {
                    left: run.entries[left].vector,
                    right: run.entries[right].vector,
                },
                ..run
            });
        assert(plain[i].rank <= plain[right].rank);
        assert(run.entries[right].vector == after.phase->Assign_right);
    }
}

/// Each assignment gives half of the entries, rounded down, to the left, those
/// that are least farther from it; a run ends with the assignment that repeats,
/// or with the tenth.
pub proof fn rounds_end_when_they_repeat(
    run: TrainerView,
    answer: TrainingAnswer,
    after: TrainerView,
    i: int,
    j: int,
)
    requires
        run.phase is Assign,
        answer is Distances,
        run.asked_for(answer),
        TrainerView::sound(answer),
        run.leads_to(answer, after),
    ensures
        after.phase is Means,
        after.rounds == run.rounds + 1,
        after.previous == Some(after.phase->assignment),
        after.phase->done <==> run.previous == Some(after.phase->assignment) || run.rounds == 9,
        after.phase->assignment.len() == run.entries.len(),
        crate::maintenance::training::lefts(
            after.phase->assignment,
            after.phase->assignment.len(),
        ) == run.entries.len() / 2,
        0 <= i < run.entries.len() && 0 <= j < run.entries.len() && after.phase->assignment[i]
            && !after.phase->assignment[j] ==> (answer->Distances_0@[i]->0).rank <= (
        answer->Distances_0@[j]->0).rank,
{
    let plain = plain_distances(answer->Distances_0@);
    if 0 <= i < run.entries.len() && 0 <= j < run.entries.len() && after.phase->assignment[i]
        && !after.phase->assignment[j] {
        assert(crate::maintenance::training::assigned_before(plain, i, j));
    }
}

/// The means of a final assignment are the centroids; those of any other are
/// assigned to again.
pub proof fn means_are_the_next_centroids(
    run: TrainerView,
    answer: TrainingAnswer,
    after: TrainerView,
)
    requires
        run.phase is Means,
        run.leads_to(answer, after),
    ensures
        answer is Means,
        run.phase->done ==> after.phase == (PhaseView::Done {
            left: answer->left@,
            right: answer->right@,
        }),
        !run.phase->done ==> after.phase == (PhaseView::Assign {
            left: answer->left@,
            right: answer->right@,
        }),
        after.rounds == run.rounds,
        after.previous == run.previous,
{
}

/// What is not a finite number corrupts a run.
pub proof fn answers_are_sound_when_finite(answer: TrainingAnswer, i: int)
    ensures
        answer matches TrainingAnswer::Mean(mean) ==> (TrainerView::sound(answer) <==> all_finite(
            mean@,
        )),
        answer matches TrainingAnswer::Means { left, right } ==> (TrainerView::sound(answer)
            <==> all_finite(left@) && all_finite(right@)),
        answer matches TrainingAnswer::Distances(distances) ==> (0 <= i < distances@.len()
            && distances@[i] is None ==> !TrainerView::sound(answer)),
        answer matches TrainingAnswer::Distances(distances) ==> ((forall|k: int|
            0 <= k < distances@.len() ==> #[trigger] distances@[k] is Some) ==> TrainerView::sound(
            answer,
        )),
{
}

} // verus!
