use ktann::api::config::{IndexConfig, RuntimeConfig};
use ktann::api::duration::Duration;
use ktann::api::error::{Error, ErrorKind};
use ktann::api::identifiers::{BatchToken, FieldId, IndexName, LogicalIndexId, PartitionKey};
use ktann::api::number::{Distance, Float32, Float64};
use ktann::api::operation::{
    delete_result, insert_result, upsert_result, validate_mutations, GetOptions, ImportOptions,
    Mutation, MutationOutcome, UpsertResult,
};
use ktann::api::record::{validate_id, validate_ids, PayloadProjection, Record, StoredRecord};
use ktann::api::schema::{
    CompareOp, DataType, FieldSchema, Metric, Predicate, SynopsisConfig, Value,
};
use ktann::api::search::{SearchBudgets, SearchHit, SearchOptions, SearchRequest};
use ktann::api::verify::VerifyOptions;
use ktann::runtime::results::prepare_search;

fn ok<T>(result: Result<T, Error>) -> T {
    match result {
        Ok(value) => value,
        Err(error) => panic!("{}", error.describe()),
    }
}

fn kind_of<T>(result: Result<T, Error>) -> Option<ErrorKind> {
    result.err().map(|error| error.kind())
}

fn f32s(values: &[f32]) -> Vec<Float32> {
    values
        .iter()
        .map(|value| Float32 { bits: value.to_bits() })
        .collect()
}

fn double(value: f64) -> Float64 {
    Float64 { bits: value.to_bits() }
}

fn field(name: &str, data_type: DataType) -> FieldSchema {
    ok(FieldSchema::new(name.to_string(), data_type))
}

fn record(id: &[u8], fields: Vec<Value>) -> Record {
    ok(Record::new(id.to_vec(), f32s(&[1.0, 2.0]), fields))
}

const INVALID: Option<ErrorKind> = Some(ErrorKind::InvalidArgument);

#[test]
fn errors_render_their_category_and_position_only() {
    let plain = Error::new(ErrorKind::Corruption);
    let placed = Error::with_source(ErrorKind::Corruption, "secret".to_string()).at_position(12);
    assert_eq!(placed.kind(), ErrorKind::Corruption);
    assert_eq!(placed.position(), Some(12));
    assert_eq!(
        placed.describe(),
        format!("{} at input position 12", plain.describe())
    );
    assert!(!placed.describe().contains("secret"));
}

#[test]
fn identifiers_accept_their_documented_ranges() {
    assert_eq!(kind_of(IndexName::new(String::new())), INVALID);
    assert_eq!(kind_of(IndexName::new("x".repeat(256))), INVALID);
    assert_eq!(ok(IndexName::new("x".repeat(255))).as_str().len(), 255);
    assert_eq!(kind_of(LogicalIndexId::new(0)), INVALID);
    assert_eq!(ok(LogicalIndexId::new(9)).get(), 9);
    assert_eq!(kind_of(PartitionKey::new(0)), INVALID);
    assert_eq!(PartitionKey::root().get(), 1);
    assert_eq!(kind_of(BatchToken::new(0)), INVALID);
    assert_eq!(ok(BatchToken::new(4)).get(), 4);
}

#[test]
fn index_names_count_bytes_and_not_characters() {
    assert!(IndexName::new("é".repeat(127)).is_ok());
    assert_eq!(kind_of(IndexName::new("é".repeat(128))), INVALID);
}

#[test]
fn numbers_are_classified_by_their_bits() {
    for value in [0.0, -0.0, 1.5, -2.25, f64::MAX, f64::MIN_POSITIVE] {
        assert!(double(value).is_finite());
    }
    for value in [f64::INFINITY, f64::NEG_INFINITY, f64::NAN] {
        assert!(!double(value).is_finite());
        assert!(Distance::new(double(value)).is_none());
    }
    assert_eq!(double(-0.0).canonicalize(), double(0.0));
    assert_eq!(double(-1.0).canonicalize(), double(-1.0));
}

#[test]
fn distances_rank_as_their_numbers_do() {
    let values = [-3.5, -1.0, -0.0, 0.0, 1e-300, 2.0, 1e300];
    for (i, a) in values.iter().enumerate() {
        for (j, b) in values.iter().enumerate() {
            let first = Distance::new(double(*a)).expect("finite");
            let second = Distance::new(double(*b)).expect("finite");
            assert_eq!(first.rank < second.rank, a < b, "{i} {j}");
        }
    }
    assert_eq!(
        Distance::new(double(-0.0)).expect("finite"),
        Distance::zero()
    );
}

#[test]
fn ceilings_are_exact() {
    assert_eq!(double(0.0).ceil(), Some(0));
    assert_eq!(double(0.1).ceil(), Some(1));
    assert_eq!(double(95.85).ceil(), Some(96));
    assert_eq!(double(96.0).ceil(), Some(96));
    assert_eq!(double(9_007_199_254_740_993.0).ceil(), Some(9_007_199_254_740_992));
    assert_eq!(double(f64::INFINITY).ceil(), None);
}

#[test]
fn durations_scale_up_to_a_limit() {
    let base = Duration::from_millis(10);
    let limit = Duration::from_secs(1);
    assert_eq!(base.scaled_up_to(4, limit), Duration::from_millis(40));
    assert_eq!(base.scaled_up_to(400, limit), limit);
    assert!(limit.exceeds(base));
    assert!(Duration::from_nanos(0).is_zero());
}

#[test]
fn values_stay_within_their_domain() {
    assert_eq!(kind_of(Value::float(double(f64::NAN))), INVALID);
    assert!(ok(Value::float(double(-0.0))).same(&Value::F64(double(0.0))));
    assert_eq!(kind_of(Value::string("x".repeat(1_025))), INVALID);
    assert!(ok(Value::string("x".repeat(1_024))).same(&Value::String("x".repeat(1_024))));

    let mut null = Value::Null;
    assert_eq!(kind_of(null.validate_for(DataType::I64, false)), INVALID);
    assert!(null.validate_for(DataType::I64, true).is_ok());
    let mut number = Value::I64(4);
    assert_eq!(kind_of(number.validate_for(DataType::F64, true)), INVALID);
    let mut zero = Value::F64(double(-0.0));
    assert!(zero.validate_for(DataType::F64, false).is_ok());
    assert!(zero.same(&Value::F64(double(0.0))));
}

#[test]
fn descriptions_never_show_caller_data() {
    assert_eq!(Value::Null.describe(), "Null");
    assert_eq!(Value::I64(77).describe(), "I64([REDACTED])");
    assert_eq!(Value::String("hidden".to_string()).describe(), "String([REDACTED])");
    assert_eq!(ok(IndexName::new("hidden".to_string())).describe(), "IndexName([REDACTED])");
    assert_eq!(Predicate::IsNull(FieldId(3)).describe(), "Predicate([REDACTED])");
    assert_eq!(PayloadProjection::Present(vec![1]).describe(), "Present([REDACTED])");
    assert_eq!(PayloadProjection::NotLoaded.describe(), "NotLoaded");
    assert_eq!(PayloadProjection::Absent.describe(), "Absent");
    assert_eq!(Mutation::Delete(vec![1]).describe(), "Delete([REDACTED])");
    let bare = record(b"a", vec![]);
    assert_eq!(
        bare.describe(),
        "Record { id: \"[REDACTED]\", vector: \"[REDACTED]\", fields: \"[REDACTED]\", payload: None }"
    );
    let paid = ok(record(b"a", vec![]).with_payload(vec![9]));
    assert!(paid.describe().ends_with("payload: Some(\"[REDACTED]\") }"));
    assert_eq!(Mutation::Insert(bare).describe(), "Insert([REDACTED])");
    let stored = StoredRecord::new(vec![1], vec![], vec![], PayloadProjection::Absent);
    assert!(stored.describe().starts_with("StoredRecord { id: \"[REDACTED]\""));
}

#[test]
fn records_are_shaped_and_bounded() {
    assert_eq!(kind_of(validate_id(&vec![])), INVALID);
    assert_eq!(kind_of(validate_id(&vec![0; 257])), INVALID);
    assert!(validate_id(&vec![0; 256]).is_ok());
    assert_eq!(kind_of(Record::new(vec![1], f32s(&[f32::NAN]), vec![])), INVALID);
    assert_eq!(kind_of(record(b"a", vec![]).with_payload(vec![0; 65_537])), INVALID);
    let paid = ok(record(b"a", vec![]).with_payload(vec![]));
    assert_eq!(paid.payload(), Some(&vec![]));
    assert_eq!(record(b"a", vec![]).payload(), None);

    let schema = vec![field("n", DataType::I64).nullable()];
    assert!(record(b"a", vec![Value::Null]).validate(2, &schema).is_ok());
    assert_eq!(kind_of(record(b"a", vec![Value::Null]).validate(3, &schema)), INVALID);
    assert_eq!(kind_of(record(b"a", vec![]).validate(2, &schema)), INVALID);
    assert_eq!(kind_of(record(b"a", vec![Value::Bool(true)]).validate(2, &schema)), INVALID);
}

#[test]
fn batches_name_distinct_records_and_blame_the_first_bad_one() {
    let schema = vec![field("n", DataType::I64)];
    let good = |id: &[u8]| Mutation::Insert(record(id, vec![Value::I64(1)]));
    let mut accepted = vec![good(b"a"), Mutation::Delete(b"b".to_vec())];
    assert!(validate_mutations(&mut accepted, 2, &schema).is_ok());
    let mut empty: Vec<Mutation> = vec![];
    assert!(validate_mutations(&mut empty, 2, &schema).is_ok());

    let mut repeated = vec![good(b"a"), Mutation::Delete(b"b".to_vec()), good(b"a")];
    let error = validate_mutations(&mut repeated, 2, &schema).err().expect("refused");
    assert_eq!(error.kind(), ErrorKind::InvalidArgument);
    assert_eq!(error.position(), Some(2));

    let mut unfit = vec![good(b"a"), Mutation::Upsert(record(b"c", vec![])), good(b"a")];
    let error = validate_mutations(&mut unfit, 2, &schema).err().expect("refused");
    assert_eq!(error.position(), Some(1));
}

#[test]
fn single_mutations_read_their_own_outcome() {
    assert!(insert_result(&vec![MutationOutcome::Inserted]).is_ok());
    assert_eq!(kind_of(insert_result(&vec![])), Some(ErrorKind::Backend));
    assert_eq!(
        ok(upsert_result(&vec![MutationOutcome::Upserted { replaced: true }])),
        UpsertResult::Replaced
    );
    assert_eq!(
        ok(upsert_result(&vec![MutationOutcome::Upserted { replaced: false }])),
        UpsertResult::Created
    );
    assert_eq!(
        kind_of(upsert_result(&vec![MutationOutcome::Inserted])),
        Some(ErrorKind::Backend)
    );
    assert!(ok(delete_result(&vec![MutationOutcome::Deleted { existed: true }])));
    assert!(!ok(delete_result(&vec![MutationOutcome::Deleted { existed: false }])));
    assert_eq!(
        kind_of(delete_result(&vec![MutationOutcome::Inserted])),
        Some(ErrorKind::Backend)
    );
}

#[test]
fn options_start_closed() {
    assert!(!GetOptions::default().includes_payload());
    assert!(GetOptions::default().with_payload().includes_payload());
    assert_eq!(ImportOptions::default().in_flight_batches(), None);
    assert_eq!(kind_of(ImportOptions::default().with_in_flight_batches(0)), INVALID);
    assert_eq!(
        ok(ImportOptions::default().with_in_flight_batches(3)).in_flight_batches(),
        Some(3)
    );
}

#[test]
fn index_configurations_are_validated() {
    assert_eq!(kind_of(IndexConfig::new(0, Metric::L2)), INVALID);
    assert_eq!(kind_of(IndexConfig::new(16_385, Metric::L2)), INVALID);
    let config = ok(IndexConfig::new(16_384, Metric::Cosine));
    assert_eq!((config.min_partition_entries(), config.max_partition_entries()), (16, 128));
    assert_eq!(kind_of(config.with_partition_entries(4, 3)), INVALID);

    let keyed = ok(IndexConfig::new(2, Metric::L2))
        .with_fields(vec![field("a", DataType::I64), field("b", DataType::String)]);
    let keyed = ok(ok(keyed).with_tree_key_fields(vec![FieldId(1)]));
    assert_eq!(keyed.tree_key_fields(), &vec![FieldId(1)]);
    assert!(keyed.validate().is_ok());
    assert!(keyed.same(&keyed.clone()));
    let foreign = ok(keyed.clone().with_tree_key_fields(vec![FieldId(2)]));
    assert_eq!(kind_of(foreign.validate()), INVALID);
    assert_eq!(
        kind_of(keyed.with_tree_key_fields(vec![FieldId(1), FieldId(1)])),
        INVALID
    );
    assert_eq!(
        kind_of(
            ok(IndexConfig::new(2, Metric::L2))
                .with_fields(vec![field("a", DataType::I64), field("a", DataType::Bool)])
        ),
        INVALID
    );
}

#[test]
fn bloom_summaries_round_their_ideal_size_up() {
    let rate: f64 = 0.01;
    let ideal = -(100.0 * rate.ln()) / (2.0_f64.ln() * 2.0_f64.ln());
    let bloom = SynopsisConfig::MinMaxBloom {
        expected_distinct: 100,
        false_positive_rate: double(rate),
        ideal_bits: double(ideal),
    };
    assert_eq!(ok(bloom.bloom_bytes()), (ideal.ceil() as usize + 7) / 8);
    assert_eq!(ok(SynopsisConfig::MinMax.bloom_bytes()), 0);
    let certain = SynopsisConfig::MinMaxBloom {
        expected_distinct: 100,
        false_positive_rate: double(1.0),
        ideal_bits: double(ideal),
    };
    assert_eq!(kind_of(certain.validate()), INVALID);
}

#[test]
fn runtime_configurations_have_documented_defaults() {
    let config = RuntimeConfig::for_parallelism(6);
    assert_eq!(config.foreground_operation_limit(), 1_024);
    assert_eq!(config.fixup_queue_capacity(), 1_024);
    assert_eq!(config.foreground_attempts(), 8);
    assert_eq!(config.fixup_attempts(), 8);
    assert_eq!(config.partition_cache_bytes(), 268_435_456);
    assert_eq!(config.tree_key_scan_ranges(), 1_024);
    assert_eq!(config.write_beam_size(), 1);
    assert!(config.validate().is_ok());
    assert_eq!(kind_of(config.with_foreground_operation_limit(0)), INVALID);
    assert_eq!(kind_of(config.with_foreground_operation_limit(65_537)), INVALID);
    assert_eq!(kind_of(config.with_write_beam_size(0)), INVALID);
    assert_eq!(kind_of(config.with_attempts(0, 1)), INVALID);
    assert_eq!(
        kind_of(config.with_retry_backoff(Duration::from_millis(2), Duration::from_millis(1))),
        INVALID
    );
}

#[test]
fn search_budgets_resolve_within_their_caps() {
    assert_eq!(kind_of(SearchBudgets::new(0, 1, 1, 1)), INVALID);
    assert_eq!(kind_of(SearchBudgets::new(65_537, 1, 1, 1)), INVALID);
    let defaults = ok(SearchBudgets::new(10, 20, 30, 40));
    let options = ok(SearchOptions::default().with_visited_partitions(7));
    let resolved = ok(options.resolve(defaults, 5));
    assert_eq!(resolved.visited_partitions(), 7);
    assert_eq!(resolved.scanned_tree_keys(), 10);
    assert_eq!(resolved.exact_rerank_candidates(), 40);
    assert_eq!(kind_of(SearchOptions::default().with_leaf_beam_size(0)), INVALID);
    let small = ok(SearchOptions::default().with_exact_rerank_candidates(3));
    assert_eq!(kind_of(small.resolve(defaults, 5)), INVALID);
}

#[test]
fn search_requests_are_prepared_against_their_index() {
    let config = ok(ok(IndexConfig::new(2, Metric::L2)).with_fields(vec![field("n", DataType::I64)]));
    let defaults = SearchBudgets::default();
    assert_eq!(kind_of(SearchRequest::new(f32s(&[1.0]), 0)), INVALID);
    assert_eq!(kind_of(SearchRequest::new(f32s(&[f32::NAN]), 1)), INVALID);
    let mut request = ok(SearchRequest::new(f32s(&[1.0, 2.0]), 3));
    let bounds = ok(prepare_search(&mut request, &config, defaults, 24));
    assert_eq!(bounds.leaf_beam, 24);
    let own = ok(SearchOptions::default().with_leaf_beam_size(5));
    let mut request = ok(SearchRequest::new(f32s(&[1.0, 2.0]), 3)).with_options(own);
    assert_eq!(ok(prepare_search(&mut request, &config, defaults, 24)).leaf_beam, 5);
    let mut short = ok(SearchRequest::new(f32s(&[1.0]), 3));
    assert_eq!(kind_of(prepare_search(&mut short, &config, defaults, 24)), INVALID);
    let foreign = Predicate::Compare {
        field: FieldId(0),
        op: CompareOp::Eq,
        value: Value::Bool(true),
    };
    let mut mistyped = ok(SearchRequest::new(f32s(&[1.0, 2.0]), 3)).with_predicate(foreign);
    assert_eq!(kind_of(prepare_search(&mut mistyped, &config, defaults, 24)), INVALID);
}

#[test]
fn predicates_are_bounded_and_typed() {
    let fields = vec![field("n", DataType::F64), field("s", DataType::String)];
    let compare = |field: u16, value: Value| Predicate::Compare {
        field: FieldId(field),
        op: CompareOp::Lt,
        value,
    };
    let mut zero = compare(0, Value::F64(double(-0.0)));
    assert!(zero.validate(&fields).is_ok());
    assert!(matches!(&zero, Predicate::Compare { value, .. } if value.same(&Value::F64(double(0.0)))));
    assert_eq!(kind_of(compare(0, Value::Null).validate(&fields)), INVALID);
    assert_eq!(kind_of(compare(2, Value::I64(1)).validate(&fields)), INVALID);
    let among = |values: Vec<Value>| Predicate::In { field: FieldId(1), values };
    assert!(among(vec![]).validate(&fields).is_ok());
    assert_eq!(kind_of(among(vec![Value::Null]).validate(&fields)), INVALID);
    assert_eq!(kind_of(among(vec![Value::I64(1)]).validate(&fields)), INVALID);
    let mut deep = Predicate::IsNull(FieldId(0));
    for _ in 0..63 {
        deep = Predicate::Not(Box::new(deep));
    }
    assert!(deep.validate(&fields).is_ok());
    assert_eq!(kind_of(Predicate::Not(Box::new(deep)).validate(&fields)), INVALID);
    let wide = |n: usize| Predicate::And((0..n).map(|_| Predicate::IsNull(FieldId(0))).collect());
    assert!(wide(1_023).validate(&fields).is_ok());
    assert_eq!(kind_of(wide(1_024).validate(&fields)), INVALID);
}

#[test]
fn hits_have_finite_distances() {
    assert_eq!(kind_of(SearchHit::new(vec![1], double(f64::NAN))), INVALID);
    assert_eq!(ok(SearchHit::new(vec![1], double(2.5))).distance(), double(2.5));
}

#[test]
fn verify_options_are_capped() {
    let options = VerifyOptions::default();
    assert_eq!(options.issue_limit(), 100);
    assert_eq!(options.object_limit(), 1_000_000);
    assert_eq!(options.memory_limit_bytes(), 67_108_864);
    assert_eq!(kind_of(options.with_issue_limit(0)), INVALID);
    assert_eq!(kind_of(options.with_issue_limit(10_001)), INVALID);
    assert_eq!(kind_of(options.with_object_limit(100_000_001)), INVALID);
    assert_eq!(kind_of(options.with_memory_limit_bytes(0)), INVALID);
    assert!(options.validate().is_ok());
}

#[test]
fn batch_reads_name_the_first_invalid_record_id() {
    assert!(validate_ids(&vec![]).is_ok());
    assert!(validate_ids(&vec![vec![1], vec![2; 256]]).is_ok());
    let refused = validate_ids(&vec![vec![1], vec![0; 257], vec![]]).err().expect("refused");
    assert_eq!(refused.kind(), ErrorKind::InvalidArgument);
    assert_eq!(refused.position(), Some(1));
}

#[test]
fn validating_again_changes_nothing() {
    let schema = vec![ok(FieldSchema::new("score".to_owned(), DataType::F64))];
    let negative_zero = Float64 { bits: (-0.0_f64).to_bits() };
    let mut record = ok(Record::new(vec![1], vec![Float32 { bits: 0 }], vec![Value::F64(
        negative_zero,
    )]));
    for _ in 0..2 {
        assert!(record.validate(1, &schema).is_ok());
        assert!(record.fields()[0].same(&Value::F64(Float64 { bits: 0 })));
    }
    let mut predicate = Predicate::Not(Box::new(Predicate::Compare {
        field: FieldId(0),
        op: CompareOp::Eq,
        value: Value::F64(negative_zero),
    }));
    for _ in 0..2 {
        assert!(predicate.validate(&schema).is_ok());
        match &predicate {
            Predicate::Not(inner) => match &**inner {
                Predicate::Compare { value, .. } => {
                    assert!(value.same(&Value::F64(Float64 { bits: 0 })));
                }
                _ => panic!("the comparison stays"),
            },
            _ => panic!("the negation stays"),
        }
    }
}
