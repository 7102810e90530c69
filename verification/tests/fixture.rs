use arrow_array::{ArrayRef, Int32Array, RecordBatch};
use hudi_core::batch::Batch;
use hudi_core::cdc::cdc_file_paths_from_commit_metadata;
use hudi_core::fixture::{
    commit_body, commit_metadata, instant_files, partition_metadata_body, relative_path,
    write_stat, TableGen, WriteFile,
};
use hudi_core::metadata::base_file::BaseFile;
use serde_json::Value;
use std::sync::Arc;

fn batch() -> Batch {
    let field = arrow_schema::Field::new("id", arrow_schema::DataType::Int32, false);
    let schema = Arc::new(arrow_schema::Schema::new(vec![field]));
    let column = Arc::new(Int32Array::from(vec![1, 2, 3])) as ArrayRef;
    Batch {
        batch: RecordBatch::try_new(schema, vec![column]).unwrap(),
    }
}

#[test]
fn properties() {
    let table = TableGen::new("t", "/tmp/base".to_string());
    assert_eq!(table.base_path(), "/tmp/base");
    assert_eq!(
        table.properties_body(),
        "#hudi-rs test fixture\n\
         hoodie.table.type=COPY_ON_WRITE\n\
         hoodie.table.version=6\n\
         hoodie.timeline.layout.version=1\n\
         hoodie.table.name=t\n\
         hoodie.table.recordkey.fields=id\n\
         hoodie.archivelog.folder=archived\n\
         hoodie.datasource.write.hive_style_partitioning=false\n\
         hoodie.table.keygenerator.class=org.apache.hudi.keygen.NonpartitionedKeyGenerator\n"
    );
}

#[test]
fn a_property_is_replaced() {
    let table = TableGen::new("t", String::new())
        .with_prop("hoodie.table.version", "8")
        .with_prop("hoodie.table.cdc.enabled", "true")
        .with_prop("hoodie.table.version", "9");
    let body = table.properties_body();
    assert_eq!(body.matches("hoodie.table.version=").count(), 1);
    assert!(body.ends_with("hoodie.table.cdc.enabled=true\nhoodie.table.version=9\n"));
    assert!(body.contains("hoodie.table.name=t\n"));
}

#[test]
fn markers_and_instants() {
    assert_eq!(
        partition_metadata_body("001"),
        "#partition metadata\ncommitTime=001\npartitionDepth=0\n"
    );
    assert_eq!(
        instant_files("001"),
        (
            "001.commit".to_string(),
            "001.commit.requested".to_string(),
            "001.inflight".to_string()
        )
    );
}

#[test]
fn data_files() {
    let b = batch();
    let file = |partition| WriteFile {
        partition,
        file_id: "fg1",
        batch: &b,
        cdc_files: vec![],
    };
    let flat = relative_path(&file(""), 12, "20240101000001");
    assert_eq!(flat, "fg1_0-12-12_20240101000001.parquet");
    assert_eq!(
        relative_path(&file("city=paris"), 0, "001"),
        "city=paris/fg1_0-0-0_001.parquet"
    );
    let read = BaseFile::from_name(&flat).unwrap();
    assert_eq!(read.file_id, "fg1");
    assert_eq!(read.write_token, "0-12-12");
    assert_eq!(read.commit_timestamp, "20240101000001");
    assert_eq!(read.extension, "parquet");
}

#[test]
fn write_stats() {
    let b = batch();
    let file = WriteFile {
        partition: "p",
        file_id: "fg1",
        batch: &b,
        cdc_files: vec![],
    };
    let stat = write_stat(&file, 1, "001", 77);
    let expected: serde_json::Map<String, Value> = [
        ("fileId", Value::from("fg1")),
        ("path", Value::from("p/fg1_0-1-1_001.parquet")),
        ("partitionPath", Value::from("p")),
        ("numWrites", Value::from(3)),
        ("numInserts", Value::from(3)),
        ("numUpdateWrites", Value::from(0)),
        ("numDeletes", Value::from(0)),
        ("totalWriteBytes", Value::from(77)),
        ("fileSizeInBytes", Value::from(77)),
        ("cdcStats", Value::Null),
    ]
    .into_iter()
    .map(|(k, v)| (k.to_string(), v))
    .collect();
    assert_eq!(stat, Value::Object(expected));
    let file = WriteFile {
        cdc_files: vec![("c1".to_string(), 2), ("c2".to_string(), 3)],
        ..file
    };
    let stat = write_stat(&file, 1, "001", 77);
    let counts: serde_json::Map<String, Value> = [("c1", 2), ("c2", 3)]
        .into_iter()
        .map(|(k, v)| (k.to_string(), Value::from(v)))
        .collect();
    assert_eq!(stat.get("cdcStats"), Some(&Value::Object(counts)));
}

#[test]
fn commits_name_their_change_files() {
    let b = batch();
    let file = |partition: &'static str, cdc_files: Vec<(String, i64)>| {
        let write = WriteFile {
            partition,
            file_id: "fg",
            batch: &b,
            cdc_files,
        };
        (partition.to_string(), write_stat(&write, 0, "001", 1))
    };
    let stats = vec![
        file("b", vec![("x".to_string(), 1)]),
        file("a", vec![]),
        file("b", vec![("y".to_string(), 1), ("x".to_string(), 2)]),
    ];
    let metadata = commit_metadata(&stats, "UPSERT");
    assert_eq!(metadata.len(), 3);
    assert_eq!(metadata.get("operationType"), Some(&Value::from("UPSERT")));
    assert_eq!(metadata.get("compacted"), Some(&Value::Bool(false)));
    let partitions = metadata
        .get("partitionToWriteStats")
        .unwrap()
        .as_object()
        .unwrap();
    assert_eq!(partitions.len(), 2);
    assert_eq!(
        partitions.get("b"),
        Some(&Value::Array(vec![stats[0].1.clone(), stats[2].1.clone()]))
    );
    let mut paths = cdc_file_paths_from_commit_metadata(&metadata);
    paths.sort();
    assert_eq!(paths, vec!["x", "y"]);
    // What is written reads back.
    let body = commit_body(metadata.clone());
    assert!(body.starts_with(b"{\n"));
    let read: Value = serde_json::from_slice(&body).unwrap();
    assert_eq!(read, Value::Object(metadata));
}

#[test]
fn a_commit_without_files() {
    let metadata = commit_metadata(&vec![], "INSERT");
    assert_eq!(
        metadata.get("partitionToWriteStats"),
        Some(&Value::Object(serde_json::Map::new()))
    );
    assert!(cdc_file_paths_from_commit_metadata(&metadata).is_empty());
}
