use ktann::api::error::{Error, ErrorKind};
use ktann::api::identifiers::PartitionKey;
use ktann::api::number::{Distance, Float32, Float64};
use ktann::maintenance::trainer::{Trainer, TrainingAnswer, TrainingPhase};
use ktann::maintenance::training::{
    assign, cluster_size, farthest, join_records, prepare_training, record_batches, EntryId,
    SplitCentroids, TrainingEntry, MAX_TRAINING_ROUNDS, RECORD_LOAD_BATCH,
};

#[derive(Clone, Copy)]
enum Metric {
    L2,
    Cosine,
}

#[derive(Clone, Copy)]
struct Kernel {
    dimension: usize,
    metric: Metric,
}

fn kernel(dimension: usize, metric: Metric) -> Kernel {
    Kernel { dimension, metric }
}

impl Kernel {
    fn routing_distance(&self, vector: &[f32], centroid: &[f32]) -> f64 {
        let pairs = vector.iter().zip(centroid.iter());
        match self.metric {
            Metric::L2 => pairs
                .map(|(a, b)| {
                    let difference = f64::from(*a) - f64::from(*b);
                    difference * difference
                })
                .sum(),
            Metric::Cosine => -pairs
                .map(|(a, b)| f64::from(*a) * f64::from(*b))
                .sum::<f64>(),
        }
    }
}

fn rank(value: f64) -> Distance {
    Distance::new(Float64 { bits: value.to_bits() }).expect("finite distance")
}

fn floats(values: &[f32]) -> Vec<Float32> {
    values
        .iter()
        .map(|value| Float32 { bits: value.to_bits() })
        .collect()
}

fn plain(values: &[Float32]) -> Vec<f32> {
    values.iter().map(|value| f32::from_bits(value.bits)).collect()
}

fn mean(dimension: usize, members: &[Vec<f32>]) -> Vec<f32> {
    let mut sums = vec![0.0_f64; dimension];
    for vector in members {
        for (sum, component) in sums.iter_mut().zip(vector.iter()) {
            *sum += f64::from(*component);
        }
    }
    sums.iter().map(|sum| (sum / members.len() as f64) as f32).collect()
}

#[derive(Clone, Debug, PartialEq)]
struct TrainedSplit {
    left: Vec<f32>,
    right: Vec<f32>,
    rounds: usize,
}

type Entries = Vec<(Vec<u8>, Vec<f32>)>;

fn entries(values: &[&[f32]]) -> Entries {
    values
        .iter()
        .enumerate()
        .map(|(index, vector)| (vec![b'a' + index as u8], vector.to_vec()))
        .collect()
}

fn kind_of<T>(result: Result<T, Error>) -> Option<ErrorKind> {
    result.err().map(|error| error.kind())
}

fn train(kernel: &Kernel, source: Entries) -> Result<TrainedSplit, Error> {
    let loaded = source
        .into_iter()
        .map(|(id, vector)| TrainingEntry {
            id: EntryId::Record(id),
            vector: floats(&vector),
        })
        .collect();
    let mut trainer = Trainer::start(kernel.dimension, loaded)?;
    let vectors: Vec<Vec<f32>> =
        trainer.entries().iter().map(|entry| plain(&entry.vector)).collect();
    let from = |centroid: &[f32]| -> TrainingAnswer {
        TrainingAnswer::Distances(
            vectors
                .iter()
                .map(|vector| Some(rank(kernel.routing_distance(vector, centroid))))
                .collect(),
        )
    };
    loop {
        let answer = match trainer.phase() {
            TrainingPhase::SourceMean => {
                TrainingAnswer::Mean(floats(&mean(kernel.dimension, &vectors)))
            }
            TrainingPhase::LeftSeed { mean } => from(&plain(mean)),
            TrainingPhase::RightSeed { left } => from(&vectors[*left]),
            TrainingPhase::Assign { left, right } => TrainingAnswer::Distances(
                vectors
                    .iter()
                    .map(|vector| {
                        Some(rank(
                            kernel.routing_distance(vector, &plain(left))
                                - kernel.routing_distance(vector, &plain(right)),
                        ))
                    })
                    .collect(),
            ),
            TrainingPhase::Means { assignment, .. } => {
                let cluster = |side: bool| -> Vec<Vec<f32>> {
                    vectors
                        .iter()
                        .zip(assignment.iter())
                        .filter(|(_, member)| **member == side)
                        .map(|(vector, _)| vector.clone())
                        .collect()
                };
                assert_eq!(cluster_size(assignment, true), cluster(true).len());
                assert_eq!(cluster_size(assignment, false), cluster(false).len());
                TrainingAnswer::Means {
                    left: floats(&mean(kernel.dimension, &cluster(true))),
                    right: floats(&mean(kernel.dimension, &cluster(false))),
                }
            }
            TrainingPhase::Done { .. } => break,
        };
        trainer = trainer.advance(answer)?;
    }
    let rounds = trainer.rounds();
    let centroids = trainer.into_centroids().expect("trained centroids");
    Ok(TrainedSplit {
        left: plain(centroids.left()),
        right: plain(centroids.right()),
        rounds,
    })
}

fn trained(kernel: &Kernel, source: Entries) -> TrainedSplit {
    match train(kernel, source) {
        Ok(result) => result,
        Err(error) => panic!("{}", error.describe()),
    }
}

#[test]
fn seeding_and_early_stop_on_a_one_dimensional_source() {
    let result = trained(
        &kernel(1, Metric::L2),
        entries(&[&[0.0], &[1.0], &[2.0], &[10.0]]),
    );
    assert_eq!(result.left, &[6.0]);
    assert_eq!(result.right, &[0.5]);
    assert_eq!(result.rounds, 2);
}

#[test]
fn the_result_is_a_pure_function_of_the_entry_set() {
    let ordered = entries(&[&[0.0], &[1.0], &[2.0], &[10.0], &[4.5]]);
    let mut shuffled = ordered.clone();
    shuffled.reverse();
    let kernel = kernel(1, Metric::L2);
    let first = trained(&kernel, ordered);
    let second = trained(&kernel, shuffled);
    assert_eq!(first, second);
}

#[test]
fn assignment_ties_break_by_canonical_id_order() {
    let values = entries(&[&[0.0], &[1.0], &[2.0], &[10.0], &[4.5]]);
    let differences: Vec<Distance> = values.iter().map(|_| rank(0.0)).collect();
    let assignment = assign(&differences, 2);
    assert_eq!(assignment, vec![true, true, false, false, false]);
}

#[test]
fn seed_distance_ties_choose_the_smaller_id() {
    let kernel = kernel(1, Metric::L2);
    let distances = |values: Entries| -> Vec<Distance> {
        values
            .iter()
            .map(|(_, vector)| rank(kernel.routing_distance(vector, &[5.0])))
            .collect()
    };
    let tied = entries(&[&[10.0], &[0.0], &[5.0]]);
    assert_eq!(farthest(&distances(tied)), 0);
    let swapped = entries(&[&[0.0], &[10.0], &[5.0]]);
    assert_eq!(farthest(&distances(swapped)), 0);
}

#[test]
fn identical_entries_still_produce_finite_balanced_centroids() {
    let result = trained(&kernel(1, Metric::L2), entries(&[&[5.0], &[5.0], &[5.0]]));
    assert_eq!(result.left, &[5.0]);
    assert_eq!(result.right, &[5.0]);
    assert_eq!(result.rounds, 2);
}

#[test]
fn cosine_training_ranks_by_negated_dot_product() {
    let result = trained(
        &kernel(2, Metric::Cosine),
        entries(&[&[1.0, 0.0], &[0.0, 1.0], &[-1.0, 0.0]]),
    );
    assert_eq!(result.left, &[1.0, 0.0]);
    assert_eq!(result.right, &[-0.5, 0.5]);
    assert_eq!(result.rounds, 2);
}

#[test]
fn fewer_than_two_entries_are_corruption() {
    let kernel = kernel(1, Metric::L2);
    assert_eq!(kind_of(train(&kernel, Vec::new())), Some(ErrorKind::Corruption));
    assert_eq!(
        kind_of(train(&kernel, entries(&[&[1.0]]))),
        Some(ErrorKind::Corruption)
    );
}

#[test]
fn malformed_entry_vectors_are_corruption() {
    let kernel = kernel(2, Metric::L2);
    assert_eq!(
        kind_of(train(&kernel, entries(&[&[1.0], &[2.0]]))),
        Some(ErrorKind::Corruption)
    );
    assert_eq!(
        kind_of(train(&kernel, entries(&[&[1.0, f32::NAN], &[2.0, 3.0]]))),
        Some(ErrorKind::Corruption)
    );
}

#[test]
fn extreme_magnitudes_convert_to_finite_f32() {
    let result = trained(
        &kernel(1, Metric::L2),
        entries(&[&[f32::MAX], &[-f32::MAX], &[0.0]]),
    );
    assert!(result.left.iter().all(|component| component.is_finite()));
    assert!(result.right.iter().all(|component| component.is_finite()));
    assert_eq!(result.left, &[f32::MAX]);
    assert_eq!(result.right, &[-f32::MAX / 2.0]);
}

#[test]
fn training_never_exceeds_the_ten_round_cap() {
    let mut state = 0x8f3a_2b19_u32;
    let mut rand = move || {
        state = state.wrapping_mul(1_664_525).wrapping_add(1_013_904_223);
        ((state >> 8) % 4_001) as f32 / 1_000.0 - 2.0
    };
    let kernel = kernel(3, Metric::L2);
    for n in 2..64_usize {
        let source: Entries = (0..n)
            .map(|index| (index.to_be_bytes().to_vec(), vec![rand(), rand(), rand()]))
            .collect();
        let result = trained(&kernel, source.clone());
        assert!(result.rounds <= MAX_TRAINING_ROUNDS);
        assert_eq!(trained(&kernel, source), result);
    }
}

#[test]
fn internal_entries_are_ordered_by_child() {
    let child = |value: u64, component: f32| TrainingEntry {
        id: EntryId::Child(PartitionKey::new(value).ok().expect("nonzero")),
        vector: floats(&[component]),
    };
    let ordered = prepare_training(1, vec![child(9, 1.0), child(2, 2.0), child(7, 3.0)])
        .ok()
        .expect("trainable");
    let values: Vec<f32> = ordered.iter().flat_map(|entry| plain(&entry.vector)).collect();
    assert_eq!(values, vec![2.0, 3.0, 1.0]);
}

#[test]
fn every_round_has_one_balanced_assignment() {
    let differences: Vec<Distance> = [3.0, -1.0, 2.0, -1.0, 0.0].iter().map(|d| rank(*d)).collect();
    assert_eq!(assign(&differences, 2), vec![false, true, false, true, false]);
    assert_eq!(assign(&differences, 3), vec![false, true, false, true, true]);
    assert_eq!(assign(&differences, 0), vec![false; 5]);
    assert_eq!(assign(&differences, 5), vec![true; 5]);
}

#[test]
fn records_load_in_bounded_batches() {
    assert_eq!(record_batches(0), vec![]);
    assert_eq!(record_batches(RECORD_LOAD_BATCH), vec![(0, 128)]);
    assert_eq!(record_batches(300), vec![(0, 128), (128, 256), (256, 300)]);
}

#[test]
fn a_missing_record_is_corruption() {
    let joined = join_records(
        vec![vec![1], vec![2]],
        vec![Some(floats(&[1.0])), Some(floats(&[2.0]))],
    )
    .ok()
    .expect("complete");
    assert_eq!(plain(&joined[1].vector), vec![2.0]);
    let missing = join_records(vec![vec![1], vec![2]], vec![Some(floats(&[1.0])), None]);
    assert_eq!(kind_of(missing), Some(ErrorKind::Corruption));
}

#[test]
fn centroids_must_be_finite() {
    assert_eq!(
        kind_of(SplitCentroids::new(floats(&[f32::INFINITY]), floats(&[0.0]))),
        Some(ErrorKind::Corruption)
    );
}

fn pair() -> Vec<TrainingEntry> {
    [2_u64, 1]
        .iter()
        .map(|child| TrainingEntry {
            id: EntryId::Child(PartitionKey::new(*child).ok().expect("nonzero key")),
            vector: floats(&[*child as f32]),
        })
        .collect()
}

fn started() -> Trainer {
    match Trainer::start(1, pair()) {
        Ok(trainer) => trainer,
        Err(error) => panic!("{}", error.describe()),
    }
}

#[test]
fn a_run_asks_for_its_arithmetic_in_order() {
    let mut trainer = started();
    let answers = vec![
        TrainingAnswer::Mean(floats(&[1.5])),
        TrainingAnswer::Distances(vec![Some(rank(0.25)), Some(rank(0.25))]),
        TrainingAnswer::Distances(vec![Some(rank(0.0)), Some(rank(1.0))]),
        TrainingAnswer::Distances(vec![Some(rank(-1.0)), Some(rank(1.0))]),
        TrainingAnswer::Means { left: floats(&[1.0]), right: floats(&[2.0]) },
        TrainingAnswer::Distances(vec![Some(rank(-1.0)), Some(rank(1.0))]),
        TrainingAnswer::Means { left: floats(&[1.0]), right: floats(&[2.0]) },
    ];
    let mut asked = vec![];
    for answer in answers {
        asked.push(match trainer.phase() {
            TrainingPhase::SourceMean => "mean",
            TrainingPhase::LeftSeed { .. } => "left",
            TrainingPhase::RightSeed { left } => {
                assert_eq!(*left, 0);
                "right"
            }
            TrainingPhase::Assign { left, right } => {
                assert_eq!(plain(left), vec![1.0]);
                assert_eq!(plain(right), vec![2.0]);
                "assign"
            }
            TrainingPhase::Means { assignment, done } => {
                assert_eq!(*assignment, vec![true, false]);
                assert_eq!(*done, trainer.rounds() == 2);
                "means"
            }
            TrainingPhase::Done { .. } => panic!("the run asks for nothing more"),
        });
        trainer = match trainer.advance(answer) {
            Ok(trainer) => trainer,
            Err(error) => panic!("{}", error.describe()),
        };
    }
    assert_eq!(asked, vec!["mean", "left", "right", "assign", "means", "assign", "means"]);
    let centroids = trainer.into_centroids().expect("trained centroids");
    assert_eq!(plain(centroids.left()), vec![1.0]);
    assert_eq!(plain(centroids.right()), vec![2.0]);
}

#[test]
fn unusable_arithmetic_ends_a_run() {
    assert!(started().into_centroids().is_none());
    let infinite = TrainingAnswer::Mean(floats(&[f32::INFINITY]));
    assert_eq!(kind_of(started().advance(infinite)), Some(ErrorKind::Corruption));
    let seeding = match started().advance(TrainingAnswer::Mean(floats(&[1.5]))) {
        Ok(trainer) => trainer,
        Err(error) => panic!("{}", error.describe()),
    };
    let unknown = TrainingAnswer::Distances(vec![Some(rank(1.0)), None]);
    assert_eq!(kind_of(seeding.advance(unknown)), Some(ErrorKind::Corruption));
}
