use hudi_core::cdc::{
    cdc_file_paths_from_commit_metadata, is_cdc_enabled, op, supplemental_logging_mode,
};
use hudi_core::config::HudiTableConfig::{CdcEnabled, CdcSupplementalLoggingMode};
use hudi_core::config::{CdcSupplementalLoggingModeValue, HudiConfigs};
use hudi_core::error::{ConfigError, CoreError};
use serde_json::Value;

fn text(s: &str) -> Value {
    Value::String(s.to_string())
}

fn object(entries: Vec<(&str, Value)>) -> serde_json::Map<String, Value> {
    entries
        .into_iter()
        .map(|(k, v)| (k.to_string(), v))
        .collect()
}

#[test]
fn test_is_cdc_enabled_defaults_false() {
    assert!(!is_cdc_enabled(&HudiConfigs::empty()));
    let configs = HudiConfigs::new(vec![(CdcEnabled, "true".to_string())]);
    assert!(is_cdc_enabled(&configs));
}

#[test]
fn test_supplemental_logging_mode_default_and_explicit() {
    assert_eq!(
        supplemental_logging_mode(&HudiConfigs::empty()).unwrap(),
        CdcSupplementalLoggingModeValue::DataBeforeAfter
    );
    let configs = HudiConfigs::new(vec![(CdcSupplementalLoggingMode, "cdc_op_key".to_string())]);
    assert_eq!(
        supplemental_logging_mode(&configs).unwrap(),
        CdcSupplementalLoggingModeValue::OpKeyOnly
    );
}

fn commit_metadata_with_cdc(entries: &[(&str, &[&str])]) -> serde_json::Map<String, Value> {
    // entries: (partition, [cdc file paths])
    let mut partition_to_write_stats = serde_json::Map::new();
    for (partition, paths) in entries {
        let cdc_stats: serde_json::Map<String, Value> = paths
            .iter()
            .map(|p| (p.to_string(), Value::from(1)))
            .collect();
        let stat = Value::Object(object(vec![
            ("fileId", text("f0")),
            ("cdcStats", Value::Object(cdc_stats)),
        ]));
        partition_to_write_stats.insert(partition.to_string(), Value::Array(vec![stat]));
    }
    let mut metadata = serde_json::Map::new();
    metadata.insert(
        "partitionToWriteStats".to_string(),
        Value::Object(partition_to_write_stats),
    );
    metadata
}

#[test]
fn test_cdc_file_paths_from_commit_metadata_collects_and_dedups() {
    let metadata = commit_metadata_with_cdc(&[
        (
            "2024/01/01",
            &[".cdc/f0_001.parquet", ".cdc/f0_001.parquet"],
        ),
        ("2024/01/02", &[".cdc/f1_002.parquet"]),
    ]);
    let mut paths = cdc_file_paths_from_commit_metadata(&metadata);
    paths.sort();
    assert_eq!(paths, vec![".cdc/f0_001.parquet", ".cdc/f1_002.parquet"]);
}

#[test]
fn test_cdc_file_paths_supports_cdc_path_field() {
    let stat = Value::Object(object(vec![
        ("fileId", text("f0")),
        ("cdcPath", text("2024/01/01/.cdc/f0.parquet")),
    ]));
    let mut metadata = serde_json::Map::new();
    metadata.insert(
        "partitionToWriteStats".to_string(),
        Value::Object(object(vec![("2024/01/01", Value::Array(vec![stat]))])),
    );
    let paths = cdc_file_paths_from_commit_metadata(&metadata);
    assert_eq!(paths, vec!["2024/01/01/.cdc/f0.parquet"]);
}

#[test]
fn test_cdc_file_paths_empty_when_no_cdc() {
    let stat = Value::Object(object(vec![
        ("fileId", text("f0")),
        ("path", text("2024/01/01/f0.parquet")),
    ]));
    let mut metadata = serde_json::Map::new();
    metadata.insert(
        "partitionToWriteStats".to_string(),
        Value::Object(object(vec![("2024/01/01", Value::Array(vec![stat]))])),
    );
    assert!(cdc_file_paths_from_commit_metadata(&metadata).is_empty());
    // Missing partitionToWriteStats yields no paths.
    assert!(cdc_file_paths_from_commit_metadata(&serde_json::Map::new()).is_empty());
}

#[test]
fn operation_codes() {
    assert_eq!(op::INSERT, "i");
    assert_eq!(op::UPDATE, "u");
    assert_eq!(op::DELETE, "d");
}

#[test]
fn cdc_is_enabled_by_the_word_true_alone() {
    for value in ["false", "TRUE", "1", ""] {
        let configs = HudiConfigs::new(vec![(CdcEnabled, value.to_string())]);
        assert!(!is_cdc_enabled(&configs));
    }
}

#[test]
fn a_later_option_replaces_an_earlier_one() {
    let mut configs = HudiConfigs::new(vec![(CdcEnabled, "true".to_string())]);
    configs.set("hoodie.table.cdc.enabled".to_string(), "false".to_string());
    assert!(!is_cdc_enabled(&configs));
    configs.set("hoodie.table.cdc.enabled".to_string(), "true".to_string());
    configs.set("hoodie.table.name".to_string(), "false".to_string());
    assert!(is_cdc_enabled(&configs));
    assert_eq!(CdcEnabled.key(), "hoodie.table.cdc.enabled");
}

#[test]
fn logging_modes_are_read_in_any_case() {
    let cases = [
        ("CDC_OP_KEY", CdcSupplementalLoggingModeValue::OpKeyOnly),
        ("cdc_data_before", CdcSupplementalLoggingModeValue::DataBefore),
        (
            "Cdc_Data_Before_After",
            CdcSupplementalLoggingModeValue::DataBeforeAfter,
        ),
    ];
    for (name, expected) in cases {
        let configs = HudiConfigs::new(vec![(CdcSupplementalLoggingMode, name.to_string())]);
        assert_eq!(supplemental_logging_mode(&configs).unwrap(), expected);
    }
}

#[test]
fn unknown_logging_mode_is_an_error() {
    let configs = HudiConfigs::new(vec![(CdcSupplementalLoggingMode, "everything".to_string())]);
    let err = supplemental_logging_mode(&configs).unwrap_err();
    assert_eq!(err.message(), "Unsupported value: everything");
    match err {
        CoreError::Config(ConfigError::UnsupportedValue(v)) => assert_eq!(v, "everything"),
        other => panic!("{other:?}"),
    }
}

#[test]
fn paths_come_in_the_order_of_the_metadata() {
    let first = Value::Object(object(vec![
        (
            "cdcStats",
            Value::Object(object(vec![("b", Value::from(1)), ("", Value::from(2))])),
        ),
        ("cdcPath", text("a")),
    ]));
    let second = Value::Object(object(vec![("cdcPath", text("b"))]));
    let third = Value::Object(object(vec![("cdcPath", text(""))]));
    let metadata = object(vec![(
        "partitionToWriteStats",
        Value::Object(object(vec![
            ("p1", Value::Array(vec![first, second])),
            ("p2", text("no stats")),
            ("p3", Value::Array(vec![third, Value::Null, text("x")])),
        ])),
    )]);
    assert_eq!(cdc_file_paths_from_commit_metadata(&metadata), vec!["b", "a"]);
}

#[test]
fn odd_shapes_name_no_paths() {
    let cases = vec![
        object(vec![("partitionToWriteStats", Value::Array(vec![]))]),
        object(vec![("partitionToWriteStats", Value::Null)]),
        object(vec![(
            "partitionToWriteStats",
            Value::Object(object(vec![(
                "p",
                Value::Array(vec![Value::Object(object(vec![
                    ("cdcStats", Value::Array(vec![text("a")])),
                    ("cdcPath", Value::from(7)),
                ]))]),
            )])),
        )]),
    ];
    for metadata in cases {
        assert!(cdc_file_paths_from_commit_metadata(&metadata).is_empty());
    }
}
