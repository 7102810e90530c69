use apache_avro::types::Value as Datum;
use apache_avro::Schema;
use hudi_core::avro::{decode_avro_value, AvroValue};
use hudi_core::avro_schema::can_decode;
use hudi_core::error::CoreError;

fn parsed(text: &str) -> Schema {
    Schema::parse_str(text).unwrap()
}

const LIST: &str = r#"{"type":"record","name":"L","namespace":"n","fields":[
  {"name":"head","type":"int"},
  {"name":"tail","type":["null","L"]}]}"#;

#[test]
fn schemas_with_an_end() {
    for text in [
        r#""int""#,
        r#"{"type":"fixed","name":"F","size":4}"#,
        r#"{"type":"array","items":"string"}"#,
        r#"{"type":"map","values":{"type":"record","name":"E","fields":[]}}"#,
        LIST,
        r#"{"type":"record","name":"T","fields":[
          {"name":"children","type":{"type":"array","items":"T"}},
          {"name":"named","type":{"type":"map","values":"T"}}]}"#,
        r#"{"type":"record","name":"A","fields":[
          {"name":"x","type":{"type":"record","name":"B","fields":[{"name":"y","type":"int"}]}},
          {"name":"z","type":"B"}]}"#,
    ] {
        for bytes in [[].as_slice(), &[0], &[2, 4, 6]] {
            assert!(can_decode(&parsed(text), bytes), "{text}");
        }
    }
}

#[test]
fn schemas_without_an_end() {
    for text in [
        r#"{"type":"record","name":"L","fields":[{"name":"tail","type":"L"}]}"#,
        // At the end of the bytes a boolean takes no byte.
        r#"{"type":"record","name":"L","fields":[
          {"name":"b","type":"boolean"},
          {"name":"tail","type":"L"}]}"#,
        r#"{"type":"record","name":"A","fields":[
          {"name":"b","type":{"type":"record","name":"B","fields":[{"name":"a","type":"A"}]}}]}"#,
    ] {
        for bytes in [[].as_slice(), &[0], &[2, 4, 6]] {
            assert!(!can_decode(&parsed(text), bytes), "{text}");
        }
    }
}

const ENDLESS: &str = r#"{"type":"record","name":"E","fields":[{"name":"tail","type":"E"}]}"#;

#[test]
fn bytes_that_do_not_lead_to_an_endless_record() {
    let union = parsed(&format!(r#"["null",{ENDLESS}]"#));
    assert!(can_decode(&union, &[0]));
    assert!(!can_decode(&union, &[2]));
    // The number of the branch, written at length.
    assert!(!can_decode(&union, &[0x82, 0]));
    assert_eq!(
        decode_avro_value(&[0], &union).unwrap(),
        AvroValue::Union(0, Box::new(AvroValue::Null))
    );
    let err = decode_avro_value(&[2], &union).unwrap_err();
    assert!(matches!(
        err,
        CoreError::Schema(m) if m == "Avro schema with values that have no end"
    ));

    for text in [
        format!(r#"{{"type":"array","items":{ENDLESS}}}"#),
        format!(r#"{{"type":"map","values":{ENDLESS}}}"#),
    ] {
        assert!(can_decode(&parsed(&text), &[0]));
        assert!(!can_decode(&parsed(&text), &[2]));
    }
    // A record is reached by its name from a branch that is taken.
    let named = parsed(&format!(
        r#"{{"type":"record","name":"R","fields":[
          {{"name":"a","type":["null","int",{ENDLESS}]}},
          {{"name":"b","type":["null","E"]}}]}}"#
    ));
    assert!(can_decode(&named, &[0, 0]));
    assert!(!can_decode(&named, &[0, 2]));
    let AvroValue::Record(fields) = decode_avro_value(&[0, 0], &named).unwrap() else {
        panic!();
    };
    assert_eq!(fields[1].1, AvroValue::Union(0, Box::new(AvroValue::Null)));
}

#[test]
fn bytes_run_out_before_the_end() {
    let schema = parsed(
        r#"{"type":"record","name":"L","fields":[
          {"name":"n","type":"int"},
          {"name":"tail","type":"L"}]}"#,
    );
    assert!(can_decode(&schema, &[2, 4, 6]));
    let err = decode_avro_value(&[2, 4, 6], &schema).unwrap_err();
    assert!(matches!(err, CoreError::Avro(_)));
}

#[test]
fn records_that_lead_to_each_other() {
    // Each record can hold any record that was named before, and the next one.
    let mut text = r#""null""#.to_string();
    for i in (0..12).rev() {
        let earlier: Vec<String> = (0..=i).map(|k| format!("\"R{k}\"")).collect();
        let earlier = earlier.join(",");
        let nested = if i == 11 { text } else { format!("[\"null\",{text}]") };
        text = format!(
            r#"{{"type":"record","name":"R{i}","fields":[
              {{"name":"next","type":{nested}}},
              {{"name":"any","type":["null",{earlier}]}}]}}"#
        );
    }
    let schema = parsed(&text);
    assert!(can_decode(&schema, &[2, 4, 6, 8, 10, 12, 14, 16, 18, 20, 22, 24]));
    assert!(decode_avro_value(&[0, 0], &schema).is_ok());
}

#[test]
fn widths_that_memory_cannot_hold() {
    let size = usize::MAX;
    let fixed = format!(r#"{{"type":"fixed","name":"F","size":{size}}}"#);
    let direct = parsed(&fixed);
    assert!(!can_decode(&direct, &[0]));
    let union = parsed(&format!(r#"["null",{fixed}]"#));
    assert!(can_decode(&union, &[0]));
    assert!(!can_decode(&union, &[2]));
    let named = parsed(&format!(
        r#"{{"type":"record","name":"R","fields":[
          {{"name":"a","type":["null","int",{fixed}]}},
          {{"name":"b","type":["null","F"]}}]}}"#
    ));
    assert!(can_decode(&named, &[0, 0]));
    assert!(!can_decode(&named, &[0, 2]));
}

#[test]
#[allow(deprecated)]
fn lists_are_decoded() {
    let schema = parsed(LIST);
    let cell = |head: i32, tail: Datum| {
        Datum::Record(vec![
            ("head".to_string(), Datum::Int(head)),
            ("tail".to_string(), tail),
        ])
    };
    let last = cell(2, Datum::Union(0, Box::new(Datum::Null)));
    let first = cell(1, Datum::Union(1, Box::new(last)));
    let bytes = apache_avro::to_avro_datum(&schema, first).unwrap();
    let AvroValue::Record(fields) = decode_avro_value(&bytes, &schema).unwrap() else {
        panic!();
    };
    assert_eq!(fields[0].1, AvroValue::Int(1));
    let AvroValue::Union(1, tail) = &fields[1].1 else {
        panic!();
    };
    let AvroValue::Record(fields) = tail.as_ref() else {
        panic!();
    };
    assert_eq!(fields[0].1, AvroValue::Int(2));
    assert_eq!(fields[1].1, AvroValue::Union(0, Box::new(AvroValue::Null)));
}
