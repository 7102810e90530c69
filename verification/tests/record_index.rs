use apache_avro::types::Value as Datum;
use apache_avro::Schema;
use hudi_core::avro::AvroValue;
use hudi_core::error::CoreError;
use hudi_core::metadata::record_index::{
    decode_record_location_with_schema, location_from_value, reconstruct_file_id,
    uuid_string_from_bits, RecordLocation, RECORD_INDEX_PARTITION_NAME,
};

#[test]
fn test_uuid_string_from_bits() {
    // Verified against the san_francisco file id in the V8 trips fixture.
    assert_eq!(
        uuid_string_from_bits(247114695546521503, -4833926705110317157),
        "036ded81-9ed4-479f-bcea-7145dfa0079b"
    );
}

#[test]
fn test_decode_empty_value_is_none() {
    let schema = Schema::parse_str(
        r#"{"type":"record","name":"T","fields":[{"name":"type","type":"int"}]}"#,
    )
    .unwrap();
    assert!(decode_record_location_with_schema(&[], &schema)
        .unwrap()
        .is_none());
}

#[test]
fn extreme_uuids() {
    assert_eq!(
        uuid_string_from_bits(0, 0),
        "00000000-0000-0000-0000-000000000000"
    );
    assert_eq!(
        uuid_string_from_bits(-1, -1),
        "ffffffff-ffff-ffff-ffff-ffffffffffff"
    );
    assert_eq!(
        uuid_string_from_bits(i64::MIN, i64::MAX),
        "80000000-0000-0000-7fff-ffffffffffff"
    );
    assert_eq!(
        uuid_string_from_bits(1, 2),
        "00000000-0000-0001-0000-000000000002"
    );
}

fn field(name: &str, value: AvroValue) -> (String, AvroValue) {
    (name.to_string(), value)
}

#[test]
fn file_ids() {
    let halves = || {
        vec![
            field("fileIdHighBits", AvroValue::Long(247114695546521503)),
            field(
                "fileIdLowBits",
                AvroValue::Union(1, Box::new(AvroValue::Long(-4833926705110317157))),
            ),
        ]
    };
    assert_eq!(
        reconstruct_file_id(&halves()).unwrap(),
        "036ded81-9ed4-479f-bcea-7145dfa0079b-0"
    );
    let mut indexed = halves();
    indexed.push(field("fileIndex", AvroValue::Int(12)));
    assert_eq!(
        reconstruct_file_id(&indexed).unwrap(),
        "036ded81-9ed4-479f-bcea-7145dfa0079b-12"
    );
    let mut negative = halves();
    negative.push(field("fileIndex", AvroValue::Long(i64::MIN)));
    assert_eq!(
        reconstruct_file_id(&negative).unwrap(),
        "036ded81-9ed4-479f-bcea-7145dfa0079b--9223372036854775808"
    );
    let mut raw = halves();
    raw.push(field("fileId", AvroValue::String("raw".to_string())));
    assert_eq!(reconstruct_file_id(&raw).unwrap(), "raw");
    let mut empty = halves();
    empty.push(field("fileId", AvroValue::String(String::new())));
    assert_eq!(
        reconstruct_file_id(&empty).unwrap(),
        "036ded81-9ed4-479f-bcea-7145dfa0079b-0"
    );
    assert!(reconstruct_file_id(&vec![field("fileIdHighBits", AvroValue::Long(1))]).is_none());
    assert!(reconstruct_file_id(&vec![field("fileIdLowBits", AvroValue::Long(1))]).is_none());
}

#[test]
fn records_without_a_location() {
    assert!(location_from_value(&AvroValue::Null).is_none());
    assert!(location_from_value(&AvroValue::Record(vec![])).is_none());
    let deleted = AvroValue::Record(vec![field(
        "recordIndexMetadata",
        AvroValue::Union(0, Box::new(AvroValue::Null)),
    )]);
    assert!(location_from_value(&deleted).is_none());
    let nameless = AvroValue::Record(vec![field(
        "recordIndexMetadata",
        AvroValue::Record(vec![field(
            "partitionName",
            AvroValue::String("p".to_string()),
        )]),
    )]);
    assert!(location_from_value(&nameless).is_none());
    // The record itself is not looked for inside a union.
    let wrapped = AvroValue::Union(
        0,
        Box::new(AvroValue::Record(vec![field(
            "recordIndexMetadata",
            AvroValue::Record(vec![field("fileId", AvroValue::String("f".to_string()))]),
        )])),
    );
    assert!(location_from_value(&wrapped).is_none());
}

const INDEX_SCHEMA: &str = r#"{"type":"record","name":"HoodieMetadataRecord","fields":[
  {"name":"key","type":"string"},
  {"name":"recordIndexMetadata","type":["null",{"type":"record","name":"HoodieRecordIndexInfo","fields":[
    {"name":"partitionName","type":["null","string"]},
    {"name":"fileIdHighBits","type":["null","long"]},
    {"name":"fileIdLowBits","type":["null","long"]},
    {"name":"fileIndex","type":["null","int"]}]}]}]}"#;

fn some(branch: u32, value: Datum) -> Datum {
    Datum::Union(branch, Box::new(value))
}

#[allow(deprecated)]
fn encoded(schema: &Schema, datum: Datum) -> Vec<u8> {
    apache_avro::to_avro_datum(schema, datum).unwrap()
}

#[test]
fn locations_are_decoded() {
    assert_eq!(RECORD_INDEX_PARTITION_NAME, "record_index");
    let schema = Schema::parse_str(INDEX_SCHEMA).unwrap();
    let payload = Datum::Record(vec![
        (
            "partitionName".to_string(),
            some(1, Datum::String("city=san_francisco".to_string())),
        ),
        (
            "fileIdHighBits".to_string(),
            some(1, Datum::Long(247114695546521503)),
        ),
        (
            "fileIdLowBits".to_string(),
            some(1, Datum::Long(-4833926705110317157)),
        ),
        ("fileIndex".to_string(), some(1, Datum::Int(0))),
    ]);
    let bytes = encoded(
        &schema,
        Datum::Record(vec![
            ("key".to_string(), Datum::String("k".to_string())),
            ("recordIndexMetadata".to_string(), some(1, payload)),
        ]),
    );
    assert_eq!(
        decode_record_location_with_schema(&bytes, &schema).unwrap(),
        Some(RecordLocation {
            partition_path: "city=san_francisco".to_string(),
            file_id: "036ded81-9ed4-479f-bcea-7145dfa0079b-0".to_string(),
        })
    );
    let deleted = encoded(
        &schema,
        Datum::Record(vec![
            ("key".to_string(), Datum::String("k".to_string())),
            ("recordIndexMetadata".to_string(), some(0, Datum::Null)),
        ]),
    );
    assert_eq!(
        decode_record_location_with_schema(&deleted, &schema).unwrap(),
        None
    );
}

#[test]
fn bytes_of_no_branch_are_an_error() {
    let schema = Schema::parse_str(INDEX_SCHEMA).unwrap();
    let err = decode_record_location_with_schema(&[2, 65, 18], &schema).unwrap_err();
    assert!(matches!(err, CoreError::Avro(_)));
    assert!(!err.message().is_empty());
}

#[test]
fn locations_can_be_cloned() {
    let location = RecordLocation {
        partition_path: "p".to_string(),
        file_id: "f-0".to_string(),
    };
    assert_eq!(location.clone(), location);
}

#[test]
fn locations_without_an_end_are_an_error() {
    let schema = Schema::parse_str(
        r#"{"type":"record","name":"L","fields":[{"name":"tail","type":"L"}]}"#,
    )
    .unwrap();
    assert!(matches!(
        decode_record_location_with_schema(&[0], &schema),
        Err(CoreError::Schema(_))
    ));
    assert!(decode_record_location_with_schema(&[], &schema).unwrap().is_none());
}
