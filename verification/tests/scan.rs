use apache_avro::types::Value as Datum;
use apache_avro::Schema;
use hudi_core::error::CoreError;
use hudi_core::metadata::base_file::{latest_base_files, BaseFile};
use hudi_core::metadata::column_stats::HFileRecord;
use hudi_core::metadata::scan::{
    sorted_keys, KeyLookup, LookupOutcome, ReadOutcome, StatsScan,
};
use hudi_core::schema::{ColumnType, FieldDef, SchemaDef};
use hudi_core::statistics::StatValue;

fn strings(texts: &[&str]) -> Vec<String> {
    texts.iter().map(|t| t.to_string()).collect()
}

fn name(b: &BaseFile) -> String {
    b.file_name()
}

#[test]
fn base_file_names() {
    let b = BaseFile::from_name("col-stats-0000-0_1-2-3_20240101000001.hfile").unwrap();
    assert_eq!(b.file_id, "col-stats-0000-0");
    assert_eq!(b.write_token, "1-2-3");
    assert_eq!(b.commit_timestamp, "20240101000001");
    assert_eq!(b.extension, "hfile");
    assert_eq!(b.file_name(), "col-stats-0000-0_1-2-3_20240101000001.hfile");
    let dotted = BaseFile::from_name("a_b_c.d.e").unwrap();
    assert_eq!(dotted.commit_timestamp, "c.d");
    assert_eq!(dotted.extension, "e");
    assert_eq!(dotted.clone().file_name(), "a_b_c.d.e");
    for bad in ["", "a_b_c", "a_b.c", "a_b_c_d.e", ".hoodie_partition_metadata"] {
        assert!(BaseFile::from_name(bad).is_none(), "{bad}");
    }
}

#[test]
fn the_latest_committed_base_file_of_each_group() {
    let names = strings(&[
        "g1_0_001.hfile",
        "g1_1_003.hfile",
        "g1_2_002.hfile",
        "g1_3_003.hfile",
        "g1_4_009.hfile",
        "g2_0_001.hfile",
        "g2_0_002.log",
        "g3_0_009.hfile",
        "junk.hfile",
        ".g4_0_001.log.1",
    ]);
    let mut latest: Vec<String> = latest_base_files(&names, "005").iter().map(name).collect();
    latest.sort();
    // Of two files with the same commit the first one counts.
    assert_eq!(latest, vec!["g1_1_003.hfile", "g2_0_001.hfile"]);
    assert!(latest_base_files(&names, "000").is_empty());
}

#[test]
fn keys_are_sorted_once() {
    assert_eq!(
        sorted_keys(&strings(&["b", "a", "é", "b", "", "ab", "a"])),
        strings(&["", "a", "ab", "b", "é"])
    );
    assert!(sorted_keys(&vec![]).is_empty());
}

fn table() -> SchemaDef {
    SchemaDef::new(vec![FieldDef::new("fare", ColumnType::Int32, true)])
}

const STATS_SCHEMA: &str = r#"{"type":"record","name":"HoodieMetadataRecord","fields":[
  {"name":"ColumnStatsMetadata","type":{"type":"record","name":"HoodieMetadataColumnStats","fields":[
    {"name":"fileName","type":"string"},
    {"name":"columnName","type":"string"},
    {"name":"minValue","type":"int"}]}}]}"#;

#[allow(deprecated)]
fn stats_record(schema: &Schema, file: &str, min: i32) -> HFileRecord {
    let payload = Datum::Record(vec![
        ("fileName".to_string(), Datum::String(file.to_string())),
        ("columnName".to_string(), Datum::String("fare".to_string())),
        ("minValue".to_string(), Datum::Int(min)),
    ]);
    let datum = Datum::Record(vec![("ColumnStatsMetadata".to_string(), payload)]);
    HFileRecord::new(
        b"key".to_vec(),
        apache_avro::to_avro_datum(schema, datum).unwrap(),
    )
}

#[test]
fn a_scan_of_statistics() {
    let schema = Schema::parse_str(STATS_SCHEMA).unwrap();
    let names = strings(&["g1_0_001.hfile", "g2_0_001.hfile", "g3_0_001.hfile"]);
    let mut scan = StatsScan::start("column_stats", &names, Some("001"));
    let mut paths = vec![];
    let mut step = 0;
    while let Some(path) = scan.next_path() {
        paths.push(path.clone());
        let outcome = match step {
            0 => ReadOutcome::Records(
                schema.clone(),
                vec![
                    stats_record(&schema, "f1", 1),
                    HFileRecord::new(vec![], vec![]),
                    stats_record(&schema, "f2", 2),
                ],
            ),
            1 => ReadOutcome::NoSchema,
            _ => ReadOutcome::Records(schema.clone(), vec![stats_record(&schema, "f1", 3)]),
        };
        scan.accept(outcome).unwrap();
        step += 1;
    }
    paths.sort();
    assert_eq!(
        paths,
        strings(&[
            "column_stats/g1_0_001.hfile",
            "column_stats/g2_0_001.hfile",
            "column_stats/g3_0_001.hfile"
        ])
    );
    let containers = scan.finish(&table());
    assert_eq!(containers.len(), 2);
    let min = |file: &str| {
        containers
            .get(file)
            .unwrap()
            .columns
            .get("fare")
            .unwrap()
            .min_value
            .as_ref()
            .map(|v| matches!(v, StatValue::Int32(3)))
    };
    assert_eq!(min("f1"), Some(true));
    assert_eq!(min("f2"), Some(false));
}

#[test]
fn a_scan_without_commits_reads_nothing() {
    let names = strings(&["g1_0_001.hfile"]);
    let scan = StatsScan::start("column_stats", &names, None);
    assert!(scan.next_path().is_none());
    assert_eq!(scan.finish(&table()).len(), 0);
}

#[test]
fn failures_of_a_scan() {
    let names = strings(&["g_0_001.hfile"]);
    let fail = |outcome: ReadOutcome| {
        let mut scan = StatsScan::start("partition_stats", &names, Some("001"));
        let err = scan.accept(outcome).unwrap_err();
        // The scan stays where it was.
        assert_eq!(scan.next_path().unwrap(), "partition_stats/g_0_001.hfile");
        err
    };
    let cases = vec![
        (
            ReadOutcome::OpenFailed("E".to_string()),
            "Failed to open partition_stats base file partition_stats/g_0_001.hfile: E",
        ),
        (
            ReadOutcome::SchemaFailed("E".to_string()),
            "Failed to get partition_stats schema: E",
        ),
        (
            ReadOutcome::ReadFailed("E".to_string()),
            "Failed to read partition_stats records: E",
        ),
    ];
    for (outcome, message) in cases {
        let err = fail(outcome);
        assert!(matches!(&err, CoreError::MetadataTable(_)));
        assert_eq!(err.message(), message);
    }
    let schema = Schema::parse_str(STATS_SCHEMA).unwrap();
    let malformed = vec![HFileRecord::new(vec![], vec![200])];
    assert!(matches!(
        fail(ReadOutcome::Records(schema, malformed)),
        CoreError::Avro(_)
    ));
}

const INDEX_SCHEMA: &str = r#"{"type":"record","name":"HoodieMetadataRecord","fields":[
  {"name":"recordIndexMetadata","type":{"type":"record","name":"HoodieRecordIndexInfo","fields":[
    {"name":"partitionName","type":"string"},
    {"name":"fileId","type":"string"}]}}]}"#;

#[allow(deprecated)]
fn location_record(schema: &Schema, file_id: &str) -> HFileRecord {
    let payload = Datum::Record(vec![
        ("partitionName".to_string(), Datum::String("p".to_string())),
        ("fileId".to_string(), Datum::String(file_id.to_string())),
    ]);
    let datum = Datum::Record(vec![("recordIndexMetadata".to_string(), payload)]);
    HFileRecord::new(
        vec![],
        apache_avro::to_avro_datum(schema, datum).unwrap(),
    )
}

#[test]
fn a_lookup_of_keys() {
    let schema = Schema::parse_str(INDEX_SCHEMA).unwrap();
    let names = strings(&["g1_0_001.hfile", "g2_0_001.hfile", "g3_0_001.hfile"]);
    let wanted = strings(&["k2", "k1", "k2"]);
    let mut lookup = KeyLookup::start(&wanted, &names, Some("001"));
    assert_eq!(lookup.keys(), &strings(&["k1", "k2"]));
    assert!(lookup.next_path().unwrap().starts_with("record_index/g"));
    lookup
        .accept(LookupOutcome::Hits(
            schema.clone(),
            vec![
                ("k1".to_string(), Some(location_record(&schema, "f1"))),
                ("k2".to_string(), None),
            ],
        ))
        .unwrap();
    lookup.accept(LookupOutcome::NoSchema).unwrap();
    lookup
        .accept(LookupOutcome::Hits(
            schema.clone(),
            vec![
                ("k1".to_string(), Some(location_record(&schema, "f2"))),
                ("k2".to_string(), Some(HFileRecord::new(vec![], vec![]))),
            ],
        ))
        .unwrap();
    assert!(lookup.next_path().is_none());
    let found = lookup.finish();
    assert_eq!(found.len(), 1);
    let k1 = found.get("k1").unwrap();
    assert_eq!(k1.partition_path, "p");
    assert_eq!(k1.file_id, "f2");
    assert!(found.get("k2").is_none());
}

#[test]
fn a_failed_lookup_leaves_what_was_found() {
    let schema = Schema::parse_str(INDEX_SCHEMA).unwrap();
    let names = strings(&["g1_0_001.hfile", "g2_0_001.hfile"]);
    let mut lookup = KeyLookup::start(&strings(&["k1", "k2"]), &names, Some("001"));
    let first = vec![("k1".to_string(), Some(location_record(&schema, "f1")))];
    lookup
        .accept(LookupOutcome::Hits(schema.clone(), first))
        .unwrap();
    let path = lookup.next_path().unwrap().clone();
    let second = vec![
        ("k1".to_string(), Some(location_record(&schema, "f2"))),
        ("k2".to_string(), Some(HFileRecord::new(vec![], vec![200]))),
    ];
    assert!(lookup.accept(LookupOutcome::Hits(schema, second)).is_err());
    assert_eq!(lookup.next_path(), Some(&path));
    assert_eq!(lookup.finish().get("k1").unwrap().file_id, "f1");
}

#[test]
fn a_lookup_without_keys_or_commits_asks_nothing() {
    let names = strings(&["g1_0_001.hfile"]);
    assert!(KeyLookup::start(&vec![], &names, Some("001"))
        .next_path()
        .is_none());
    assert!(KeyLookup::start(&strings(&["k"]), &names, None)
        .next_path()
        .is_none());
    assert!(KeyLookup::start(&strings(&["k"]), &vec![], Some("001"))
        .next_path()
        .is_none());
}

#[test]
fn failures_of_a_lookup() {
    let names = strings(&["g_0_001.hfile"]);
    let keys = strings(&["k"]);
    let cases = vec![
        (
            LookupOutcome::OpenFailed("E".to_string()),
            "Failed to open record_index base file record_index/g_0_001.hfile: E",
        ),
        (
            LookupOutcome::SchemaFailed("E".to_string()),
            "Failed to get record_index schema: E",
        ),
        (
            LookupOutcome::LookupFailed("E".to_string()),
            "Failed to look up record_index keys: E",
        ),
    ];
    for (outcome, message) in cases {
        let mut lookup = KeyLookup::start(&keys, &names, Some("001"));
        let err = lookup.accept(outcome).unwrap_err();
        assert_eq!(err.message(), message);
        assert!(matches!(err, CoreError::MetadataTable(_)));
    }
    let schema = Schema::parse_str(INDEX_SCHEMA).unwrap();
    let hits = vec![("k".to_string(), Some(HFileRecord::new(vec![], vec![200])))];
    let mut lookup = KeyLookup::start(&keys, &names, Some("001"));
    assert!(matches!(
        lookup.accept(LookupOutcome::Hits(schema, hits)),
        Err(CoreError::Avro(_))
    ));
}
