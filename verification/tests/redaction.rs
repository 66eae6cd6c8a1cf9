use ktann::api::error::Error;
use ktann::api::identifiers::{BatchToken, FieldId, LogicalIndexId, PartitionKey};
use ktann::api::number::{Float32, Float64};
use ktann::api::schema::{Predicate, SynopsisConfig, Value};
use ktann::api::search::{SearchHit, SearchOptions, SearchRequest};
use ktann::api::verify::{VerifyIssue, VerifyIssueKind};
use ktann::maintenance::training::SplitCentroids;

fn ok<T>(result: Result<T, Error>) -> T {
    match result {
        Ok(value) => value,
        Err(error) => panic!("{}", error.describe()),
    }
}

fn single(value: f32) -> Float32 {
    Float32 { bits: value.to_bits() }
}

fn double(value: f64) -> Float64 {
    Float64 { bits: value.to_bits() }
}

#[test]
fn requests_render_their_shape_only() {
    let request = ok(SearchRequest::new(vec![single(7.25)], 3));
    let bare = "SearchOptions { scanned_tree_keys: None, visited_partitions: None, \
                visited_leaf_entries: None, exact_rerank_candidates: None, leaf_beam_size: None }";
    assert_eq!(
        request.describe(),
        format!("SearchRequest {{ vector: \"[REDACTED]\", k: 3, predicate: None, options: {bare} }}")
    );
    let options = ok(SearchOptions::default().with_visited_partitions(12));
    assert!(options.describe().contains("visited_partitions: Some(12)"));
    let filtered = request.with_predicate(Predicate::IsNull(FieldId(3))).with_options(options);
    assert!(filtered.describe().contains("predicate: Some(\"[REDACTED]\"), options: "));
    assert!(filtered.describe().contains("visited_partitions: Some(12)"));
    assert!(!filtered.describe().contains("7.25"));
}

#[test]
fn hits_and_centroids_hide_caller_data() {
    let hit = ok(SearchHit::new(vec![1, 2, 3], double(0.5)));
    assert_eq!(hit.describe("0.5"), "SearchHit { id: \"[REDACTED]\", distance: 0.5 }");
    let centroids = ok(SplitCentroids::new(vec![single(1.0)], vec![single(2.0)]));
    assert_eq!(centroids.describe(), "SplitCentroids([REDACTED])");
}

#[test]
fn issues_render_safe_identifiers_only() {
    let issue = VerifyIssue {
        kind: VerifyIssueKind::CountMismatch,
        logical_index_id: ok(LogicalIndexId::new(5)),
        tree_key_hash: [7; 32],
        partition_key: ok(PartitionKey::new(90)),
        record_id: Some(b"hidden".to_vec()),
    };
    let hash = vec!["7"; 32].join(", ");
    assert_eq!(
        issue.describe(),
        format!(
            "VerifyIssue {{ kind: CountMismatch, logical_index_id: LogicalIndexId(5), \
             tree_key_hash: [{hash}], partition_key: PartitionKey(90), \
             record_id: Some(\"[REDACTED]\") }}"
        )
    );
    assert!(!issue.describe().contains("hidden"));
}

#[test]
fn values_compare_as_numbers() {
    let value = |number: f64| Value::F64(double(number));
    assert!(value(0.0).same(&value(-0.0)));
    assert!(value(1.5).same(&value(1.5)));
    assert!(!value(1.5).same(&value(-1.5)));
    assert!(!value(f64::NAN).same(&value(f64::NAN)));
    assert!(!value(1.0).same(&Value::I64(1)));
}

#[test]
fn synopses_compare_by_what_was_asked_for() {
    let bloom = |distinct: u32, rate: f64, ideal: f64| SynopsisConfig::MinMaxBloom {
        expected_distinct: distinct,
        false_positive_rate: double(rate),
        ideal_bits: double(ideal),
    };
    assert!(bloom(4, 0.25, 10.0) == bloom(4, 0.25, 11.0));
    assert!(bloom(4, 0.25, 10.0) != bloom(5, 0.25, 10.0));
    assert!(bloom(4, 0.25, 10.0) != bloom(4, 0.5, 10.0));
    assert!(SynopsisConfig::MinMax == SynopsisConfig::MinMax);
    assert!(SynopsisConfig::MinMax != bloom(4, 0.25, 10.0));
}

#[test]
fn identifiers_order_as_their_integers() {
    let keys = [1, 2, u64::MAX].map(|value| ok(PartitionKey::new(value)));
    let ids = [1, 2, u64::MAX].map(|value| ok(LogicalIndexId::new(value)));
    let tokens = [1, 2, u64::MAX].map(|value| ok(BatchToken::new(value)));
    for a in 0..3 {
        for b in 0..3 {
            assert_eq!(keys[a] < keys[b], a < b);
            assert_eq!(keys[a] == keys[b], a == b);
            assert_eq!(keys[a].cmp(&keys[b]), a.cmp(&b));
            assert_eq!(ids[a] < ids[b], a < b);
            assert_eq!(tokens[a] < tokens[b], a < b);
        }
    }
}
