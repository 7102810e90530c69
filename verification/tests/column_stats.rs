use apache_avro::types::Value as Datum;
use apache_avro::Schema;
use arrow_array::{Array, Int64Array};
use hudi_core::avro::{
    decode_avro_value, extract_bool, extract_long, extract_string, extract_wrapped_scalar,
    find_field, unwrap_union, AvroValue,
};
use hudi_core::error::CoreError;
use hudi_core::metadata::column_stats::{
    avro_scalar_to_array, column_stats_from_value, column_stats_to_containers,
    decode_column_stats_record_with_schema, ColumnStatsRecord, HFileRecord,
    COLUMN_STATS_PARTITION_NAME, PARTITION_STATS_PARTITION_NAME,
};
use hudi_core::schema::{ColumnType, FieldDef, SchemaDef};
use hudi_core::stat_columns::stat_column;
use hudi_core::statistics::{StatValue, StatsGranularity};

fn text(s: &str) -> AvroValue {
    AvroValue::String(s.to_string())
}

#[test]
fn test_avro_scalar_to_array_supported_and_unsupported() {
    // Long -> Int64 array.
    let arr = avro_scalar_to_array(&AvroValue::Long(42), &ColumnType::Int64).unwrap();
    assert_eq!(arr, StatValue::Int64(42));
    let column = stat_column(&arr, &ColumnType::Int64).unwrap();
    let int_arr = column.array.as_any().downcast_ref::<Int64Array>().unwrap();
    assert_eq!(int_arr.value(0), 42);

    // Timestamp-logical scalar maps onto a timestamp column via the i64 path.
    assert!(avro_scalar_to_array(
        &AvroValue::TimestampMicros(1_700_000_000_000_000),
        &ColumnType::from_arrow(&arrow_schema::DataType::Timestamp(
            arrow_schema::TimeUnit::Microsecond,
            None
        )),
    )
    .is_some());

    // Unsupported scalar variants yield None (safe: the file is included, not pruned).
    assert!(avro_scalar_to_array(&AvroValue::Null, &ColumnType::Int64).is_none());
    assert!(
        avro_scalar_to_array(&AvroValue::Boolean(true), &ColumnType::Int64).is_none(),
        "type-mismatched scalar should not fabricate an array"
    );
}

#[test]
fn test_decode_empty_value_is_tombstone_none() {
    let record = HFileRecord::new(b"some-key".to_vec(), vec![]);
    let schema = Schema::parse_str(
        r#"{"type":"record","name":"T","fields":[{"name":"type","type":"int"}]}"#,
    )
    .unwrap();
    assert!(decode_column_stats_record_with_schema(&record, &schema)
        .unwrap()
        .is_none());
}

#[test]
fn test_extract_wrapped_scalar() {
    // Wrapper record { value: <scalar> } unwraps to the scalar.
    let wrapped = AvroValue::Union(
        7,
        Box::new(AvroValue::Record(vec![(
            "value".to_string(),
            AvroValue::String("driver-A".to_string()),
        )])),
    );
    assert_eq!(
        extract_wrapped_scalar(&wrapped),
        Some(AvroValue::String("driver-A".to_string()))
    );

    // Null branch -> None.
    let null_branch = AvroValue::Union(0, Box::new(AvroValue::Null));
    assert_eq!(extract_wrapped_scalar(&null_branch), None);
}

#[test]
fn partition_names() {
    assert_eq!(COLUMN_STATS_PARTITION_NAME, "column_stats");
    assert_eq!(PARTITION_STATS_PARTITION_NAME, "partition_stats");
}

#[test]
fn scalars_out_of_their_unions() {
    let nested = AvroValue::Union(
        1,
        Box::new(AvroValue::Union(0, Box::new(AvroValue::Int(5)))),
    );
    assert_eq!(unwrap_union(&nested), &AvroValue::Int(5));
    assert_eq!(extract_long(&nested), Some(5));
    assert_eq!(extract_long(&AvroValue::Long(-5)), Some(-5));
    assert_eq!(extract_long(&text("5")), None);
    assert_eq!(extract_string(&text("a")), Some("a".to_string()));
    assert_eq!(extract_string(&AvroValue::Bytes(vec![97])), None);
    assert_eq!(extract_bool(&AvroValue::Boolean(true)), Some(true));
    assert_eq!(extract_bool(&AvroValue::Int(1)), None);
    let fields = vec![
        ("a".to_string(), nested),
        ("b".to_string(), AvroValue::Int(1)),
        ("b".to_string(), AvroValue::Int(2)),
    ];
    assert_eq!(find_field(&fields, "a"), Some(&AvroValue::Int(5)));
    assert_eq!(find_field(&fields, "b"), Some(&AvroValue::Int(1)));
    assert_eq!(find_field(&fields, "c"), None);
}

#[test]
fn wrapped_scalars_that_are_none() {
    // A wrapped null is no scalar, and neither is a wrapper without a value.
    let null = AvroValue::Record(vec![("value".to_string(), AvroValue::Null)]);
    assert_eq!(extract_wrapped_scalar(&null), None);
    assert_eq!(extract_wrapped_scalar(&AvroValue::Record(vec![])), None);
    assert_eq!(
        extract_wrapped_scalar(&AvroValue::Int(3)),
        Some(AvroValue::Int(3))
    );
}

#[test]
fn statistics_by_scalar_and_type() {
    let date = ColumnType::from_arrow(&arrow_schema::DataType::Date32);
    let cases = vec![
        (
            AvroValue::Boolean(true),
            ColumnType::Boolean,
            Some(StatValue::Boolean(true)),
        ),
        (
            AvroValue::Int(-1),
            ColumnType::Int32,
            Some(StatValue::Int32(-1)),
        ),
        (AvroValue::Date(9), date, Some(StatValue::Int32(9))),
        (
            AvroValue::TimeMillis(8),
            ColumnType::Int32,
            Some(StatValue::Int32(8)),
        ),
        (
            AvroValue::TimeMicros(7),
            ColumnType::Int64,
            Some(StatValue::Int64(7)),
        ),
        (
            AvroValue::TimestampMillis(6),
            ColumnType::Int64,
            Some(StatValue::Int64(6)),
        ),
        (
            AvroValue::Float(1.5f32.to_bits()),
            ColumnType::Float32,
            Some(StatValue::Float32(1.5f32.to_bits())),
        ),
        (
            AvroValue::Float(1.5f32.to_bits()),
            ColumnType::Float64,
            Some(StatValue::Float32AsFloat64(1.5f32.to_bits())),
        ),
        (AvroValue::Float(0), ColumnType::Int32, None),
        (
            AvroValue::Double(2.5f64.to_bits()),
            ColumnType::Float64,
            Some(StatValue::Float64(2.5f64.to_bits())),
        ),
        (AvroValue::Double(0), ColumnType::Float32, None),
        (
            text("é"),
            ColumnType::Utf8,
            Some(StatValue::Bytes(vec![0xc3, 0xa9])),
        ),
        (
            AvroValue::Bytes(vec![1, 2]),
            ColumnType::Utf8,
            Some(StatValue::Bytes(vec![1, 2])),
        ),
        (
            AvroValue::Fixed(2, vec![3, 4]),
            ColumnType::Utf8,
            Some(StatValue::Bytes(vec![3, 4])),
        ),
        (AvroValue::Record(vec![]), ColumnType::Utf8, None),
    ];
    for (scalar, data_type, expected) in cases {
        assert_eq!(avro_scalar_to_array(&scalar, &data_type), expected);
    }
}

#[test]
fn decimals_give_no_statistics() {
    let scalars = vec![
        AvroValue::Int(1),
        AvroValue::Long(1),
        text("1"),
        AvroValue::Bytes(vec![1]),
        AvroValue::Fixed(1, vec![1]),
    ];
    let types = [
        ColumnType::Decimal32(5, 2),
        ColumnType::Decimal64(10, 2),
        ColumnType::Decimal128(20, 2),
        ColumnType::Decimal256(40, -2),
    ];
    for scalar in &scalars {
        for t in &types {
            assert_eq!(avro_scalar_to_array(scalar, t), None);
        }
    }
}

#[test]
fn values_that_the_column_type_does_not_hold_give_no_statistics() {
    let cases = vec![
        (AvroValue::Int(128), ColumnType::Int8),
        (AvroValue::Int(-1), ColumnType::UInt32),
        (AvroValue::Long(i64::from(i32::MAX) + 1), ColumnType::Int32),
        (AvroValue::Int(1), ColumnType::Utf8),
        (AvroValue::Bytes(vec![0xff]), ColumnType::Utf8),
        (text("1"), ColumnType::Int32),
        (
            AvroValue::Int(1),
            ColumnType::from_arrow(&arrow_schema::DataType::Time64(
                arrow_schema::TimeUnit::Microsecond,
            )),
        ),
    ];
    for (scalar, t) in cases {
        assert_eq!(avro_scalar_to_array(&scalar, &t), None);
    }
    assert_eq!(
        avro_scalar_to_array(&AvroValue::Int(127), &ColumnType::Int8),
        Some(StatValue::Int32(127))
    );
    assert_eq!(
        avro_scalar_to_array(&AvroValue::Bytes(vec![0xff]), &ColumnType::Binary),
        Some(StatValue::Bytes(vec![0xff]))
    );
}

#[test]
fn statistics_records_can_be_cloned() {
    let stats = record("f", "c", Some(text("m")), true);
    assert_eq!(stats.clone(), stats);
}

#[test]
fn values_without_an_end_are_an_error() {
    // A list would have to be its own tail.
    let schema = Schema::parse_str(
        r#"{"type":"record","name":"L","fields":[{"name":"tail","type":"L"}]}"#,
    )
    .unwrap();
    let record = HFileRecord::new(b"k".to_vec(), vec![0]);
    let err = decode_column_stats_record_with_schema(&record, &schema).unwrap_err();
    assert!(matches!(
        err,
        CoreError::Schema(m) if m == "Avro schema with values that have no end"
    ));
    // There is nothing to decode in a tombstone.
    let record = HFileRecord::new(b"k".to_vec(), vec![]);
    assert_eq!(decode_column_stats_record_with_schema(&record, &schema).unwrap(), None);
}

fn record(file: &str, column: &str, min: Option<AvroValue>, deleted: bool) -> ColumnStatsRecord {
    ColumnStatsRecord {
        file_name: file.to_string(),
        column_name: column.to_string(),
        min_value: min,
        max_value: None,
        null_count: None,
        value_count: None,
        is_deleted: deleted,
    }
}

fn schema(fields: Vec<(&str, ColumnType)>) -> SchemaDef {
    SchemaDef::new(
        fields
            .into_iter()
            .map(|(n, t)| FieldDef::new(n, t, true))
            .collect(),
    )
}

#[test]
fn containers_by_file() {
    let records = vec![
        record("f1", "a", Some(AvroValue::Int(1)), false),
        record("f1", "b", Some(text("x")), false),
        record("f2", "a", Some(AvroValue::Int(2)), false),
        record("f2", "a", Some(AvroValue::Int(3)), false),
        record("f3", "a", Some(AvroValue::Int(4)), true),
        record("f4", "gone", Some(AvroValue::Int(5)), false),
        record("f1", "a", Some(AvroValue::Int(6)), true),
        record("f5", "b", Some(AvroValue::Null), false),
    ];
    let table = schema(vec![("a", ColumnType::Int32), ("b", ColumnType::Utf8)]);
    let containers = column_stats_to_containers(&records, &table);
    assert_eq!(containers.len(), 3);
    let f1 = containers.get("f1").unwrap();
    assert_eq!(f1.granularity, StatsGranularity::File);
    assert_eq!(f1.columns.len(), 2);
    let a = f1.columns.get("a").unwrap();
    assert_eq!(a.column_name, "a");
    assert_eq!(a.data_type, ColumnType::Int32);
    assert_eq!(a.min_value, Some(StatValue::Int32(1)));
    assert_eq!(a.max_value, None);
    assert_eq!(
        f1.columns.get("b").unwrap().min_value,
        Some(StatValue::Bytes(vec![b'x']))
    );
    // The later record wins.
    assert_eq!(
        containers
            .get("f2")
            .unwrap()
            .columns
            .get("a")
            .unwrap()
            .min_value,
        Some(StatValue::Int32(3))
    );
    // Tombstones and unknown columns give no container.
    assert!(containers.get("f3").is_none());
    assert!(containers.get("f4").is_none());
    // A scalar without a statistic still gives an entry.
    let f5 = containers.get("f5").unwrap();
    assert_eq!(f5.columns.get("b").unwrap().min_value, None);
    let mut names: Vec<&String> = (0..containers.len()).map(|i| containers.name_at(i)).collect();
    names.sort();
    assert_eq!(names, vec!["f1", "f2", "f5"]);
}

#[test]
fn the_last_column_of_a_name_gives_the_type() {
    let table = schema(vec![("a", ColumnType::Boolean), ("a", ColumnType::Float64)]);
    let records = vec![record("f", "a", Some(AvroValue::Double(1)), false)];
    let containers = column_stats_to_containers(&records, &table);
    let stats = containers.get("f").unwrap().columns.get("a").unwrap();
    assert_eq!(stats.data_type, ColumnType::Float64);
    assert_eq!(stats.min_value, Some(StatValue::Float64(1)));
}

const STATS_SCHEMA: &str = r#"{"type":"record","name":"HoodieMetadataRecord","fields":[
  {"name":"key","type":"string"},
  {"name":"ColumnStatsMetadata","type":["null",{"type":"record","name":"HoodieMetadataColumnStats","fields":[
    {"name":"fileName","type":["null","string"]},
    {"name":"columnName","type":["null","string"]},
    {"name":"minValue","type":["null",
      {"type":"record","name":"IntWrapper","fields":[{"name":"value","type":"int"}]},
      {"type":"record","name":"FloatWrapper","fields":[{"name":"value","type":"float"}]}]},
    {"name":"maxValue","type":["null","IntWrapper","FloatWrapper"]},
    {"name":"nullCount","type":["null","long"]},
    {"name":"valueCount","type":["null","long"]},
    {"name":"isDeleted","type":"boolean"}]}]}]}"#;

fn some(branch: u32, value: Datum) -> Datum {
    Datum::Union(branch, Box::new(value))
}

fn wrapped(value: Datum) -> Datum {
    Datum::Record(vec![("value".to_string(), value)])
}

#[allow(deprecated)]
fn encoded(schema: &Schema, datum: Datum) -> Vec<u8> {
    apache_avro::to_avro_datum(schema, datum).unwrap()
}

#[test]
fn statistics_are_decoded() {
    let schema = Schema::parse_str(STATS_SCHEMA).unwrap();
    let payload = Datum::Record(vec![
        (
            "fileName".to_string(),
            some(1, Datum::String("f.parquet".to_string())),
        ),
        (
            "columnName".to_string(),
            some(1, Datum::String("fare".to_string())),
        ),
        ("minValue".to_string(), some(1, wrapped(Datum::Int(7)))),
        ("maxValue".to_string(), some(2, wrapped(Datum::Float(1.5)))),
        ("nullCount".to_string(), some(0, Datum::Null)),
        ("valueCount".to_string(), some(1, Datum::Long(9))),
        ("isDeleted".to_string(), Datum::Boolean(true)),
    ]);
    let bytes = encoded(
        &schema,
        Datum::Record(vec![
            ("key".to_string(), Datum::String("k".to_string())),
            ("ColumnStatsMetadata".to_string(), some(1, payload)),
        ]),
    );
    let record = HFileRecord::new(b"k".to_vec(), bytes);
    assert_eq!(record.key, b"k".to_vec());
    let stats = decode_column_stats_record_with_schema(&record, &schema)
        .unwrap()
        .unwrap();
    assert_eq!(
        stats,
        ColumnStatsRecord {
            file_name: "f.parquet".to_string(),
            column_name: "fare".to_string(),
            min_value: Some(AvroValue::Int(7)),
            max_value: Some(AvroValue::Float(1.5f32.to_bits())),
            null_count: None,
            value_count: Some(9),
            is_deleted: true,
        }
    );
    let other = encoded(
        &schema,
        Datum::Record(vec![
            ("key".to_string(), Datum::String("k".to_string())),
            ("ColumnStatsMetadata".to_string(), some(0, Datum::Null)),
        ]),
    );
    let record = HFileRecord::new(vec![], other);
    assert!(decode_column_stats_record_with_schema(&record, &schema)
        .unwrap()
        .is_none());
}

#[test]
fn malformed_bytes_are_an_error() {
    let schema = Schema::parse_str(STATS_SCHEMA).unwrap();
    let record = HFileRecord::new(vec![], vec![200]);
    assert!(matches!(
        decode_column_stats_record_with_schema(&record, &schema),
        Err(CoreError::Avro(_))
    ));
}

#[test]
fn payloads_with_gaps() {
    let empty = AvroValue::Record(vec![(
        "ColumnStatsMetadata".to_string(),
        AvroValue::Record(vec![]),
    )]);
    assert_eq!(
        column_stats_from_value(&empty).unwrap(),
        record("", "", None, false)
    );
    assert!(column_stats_from_value(&AvroValue::Int(1)).is_none());
    let lower = AvroValue::Record(vec![(
        "columnStatsMetadata".to_string(),
        AvroValue::Record(vec![]),
    )]);
    assert!(column_stats_from_value(&lower).is_none());
}

#[test]
fn data_of_every_kind() {
    let schema = Schema::parse_str(
        r#"{"type":"record","name":"R","fields":[
          {"name":"n","type":"null"},
          {"name":"l","type":"long"},
          {"name":"d","type":"double"},
          {"name":"b","type":"bytes"},
          {"name":"x","type":{"type":"fixed","name":"F","size":2}},
          {"name":"day","type":{"type":"int","logicalType":"date"}},
          {"name":"ms","type":{"type":"int","logicalType":"time-millis"}},
          {"name":"us","type":{"type":"long","logicalType":"time-micros"}},
          {"name":"tms","type":{"type":"long","logicalType":"timestamp-millis"}},
          {"name":"tus","type":{"type":"long","logicalType":"timestamp-micros"}},
          {"name":"a","type":{"type":"array","items":"int"}}]}"#,
    )
    .unwrap();
    let array = Datum::Array(vec![Datum::Int(1)]);
    let entries = vec![
        ("n", Datum::Null),
        ("l", Datum::Long(1)),
        ("d", Datum::Double(2.5)),
        ("b", Datum::Bytes(vec![1])),
        ("x", Datum::Fixed(2, vec![1, 2])),
        ("day", Datum::Date(3)),
        ("ms", Datum::TimeMillis(4)),
        ("us", Datum::TimeMicros(5)),
        ("tms", Datum::TimestampMillis(6)),
        ("tus", Datum::TimestampMicros(7)),
        ("a", array),
    ];
    let bytes = encoded(
        &schema,
        Datum::Record(
            entries
                .into_iter()
                .map(|(n, v)| (n.to_string(), v))
                .collect(),
        ),
    );
    let value = decode_avro_value(&bytes, &schema).unwrap();
    let AvroValue::Record(fields) = &value else {
        panic!("{value:?}");
    };
    let expected = vec![
        AvroValue::Null,
        AvroValue::Long(1),
        AvroValue::Double(2.5f64.to_bits()),
        AvroValue::Bytes(vec![1]),
        AvroValue::Fixed(2, vec![1, 2]),
        AvroValue::Date(3),
        AvroValue::TimeMillis(4),
        AvroValue::TimeMicros(5),
        AvroValue::TimestampMillis(6),
        AvroValue::TimestampMicros(7),
    ];
    for (i, v) in expected.iter().enumerate() {
        assert_eq!(&fields[i].1, v);
    }
    assert!(matches!(fields[10].1, AvroValue::Other(_)));
    // A carried value is kept by a clone, and gives no statistic.
    assert_eq!(value.clone(), value);
    assert_eq!(avro_scalar_to_array(&fields[10].1, &ColumnType::Int32), None);
}
