use arrow_array::{
    Array, ArrayRef, BooleanArray, Int32Array, Int64Array, RecordBatch, StringArray, StructArray,
};
use arrow_schema::{DataType, Field, Schema};
use hudi_core::batch::Batch;
use hudi_core::rows::{
    is_keyed, rows_by_id, rows_by_id_if_keyed, struct_i64, struct_i64_if_present,
};
use std::sync::Arc;

fn batch(columns: Vec<(&str, ArrayRef)>) -> Batch {
    let fields: Vec<Field> = columns
        .iter()
        .map(|(n, a)| Field::new(*n, a.data_type().clone(), true))
        .collect();
    let arrays = columns.into_iter().map(|(_, a)| a).collect();
    Batch {
        batch: RecordBatch::try_new(Arc::new(Schema::new(fields)), arrays).unwrap(),
    }
}

fn some(text: &str) -> Option<String> {
    Some(text.to_string())
}

#[test]
fn rows_as_texts() {
    let first = batch(vec![
        ("id", Arc::new(Int32Array::from(vec![1, 2]))),
        ("amount", Arc::new(Int64Array::from(vec![Some(-100), None]))),
        ("city", Arc::new(StringArray::from(vec!["paris", "rome"]))),
        ("flag", Arc::new(BooleanArray::from(vec![true, false]))),
        ("city", Arc::new(StringArray::from(vec!["lyon", "bari"]))),
    ]);
    let second = batch(vec![
        ("amount", Arc::new(Int32Array::from(vec![7, 8]))),
        ("id", Arc::new(Int32Array::from(vec![2, 2]))),
    ]);
    let rows = rows_by_id(&vec![first, second]);
    assert_eq!(rows.len(), 2);
    let one = &rows[&1];
    assert_eq!(one.len(), 4);
    assert_eq!(one.get("id"), Some(&some("1")));
    assert_eq!(one.get("amount"), Some(&some("-100")));
    // Of two columns with the same name the last one counts.
    assert_eq!(one.get("city"), Some(&some("lyon")));
    assert_eq!(one.get("flag"), Some(&some("<other>")));
    // Of several rows with the same id the last one counts.
    let two = &rows[&2];
    assert_eq!(two.len(), 2);
    assert_eq!(two.get("amount"), Some(&some("8")));
    assert_eq!(two.get("city"), None);
}

#[test]
fn nulls_are_nothing() {
    let b = batch(vec![
        ("id", Arc::new(Int32Array::from(vec![5]))),
        ("city", Arc::new(StringArray::from(vec![None::<&str>]))),
    ]);
    let rows = rows_by_id(&vec![b]);
    assert_eq!(rows[&5].get("city"), Some(&None));
}

#[test]
fn batches_without_ids() {
    let unkeyed = batch(vec![("id", Arc::new(Int64Array::from(vec![1])) as ArrayRef)]);
    assert!(!is_keyed(&unkeyed));
    assert!(rows_by_id_if_keyed(&vec![unkeyed]).is_none());
    let other = batch(vec![("x", Arc::new(Int32Array::from(vec![1])) as ArrayRef)]);
    assert!(!is_keyed(&other));
    assert!(rows_by_id_if_keyed(&vec![]).unwrap().is_empty());
    let keyed = batch(vec![("id", Arc::new(Int32Array::from(vec![1])) as ArrayRef)]);
    assert!(is_keyed(&keyed));
    assert_eq!(rows_by_id_if_keyed(&vec![keyed]).unwrap().len(), 1);
}

#[test]
fn integers_in_structs() {
    let value = Arc::new(Int64Array::from(vec![10, 20])) as ArrayRef;
    let name = Arc::new(StringArray::from(vec!["a", "b"])) as ArrayRef;
    let fields = vec![
        Field::new("value", DataType::Int64, true),
        Field::new("name", DataType::Utf8, true),
    ];
    let nulls = arrow::buffer::NullBuffer::from(vec![true, false]);
    let after = StructArray::new(fields.into(), vec![value, name], Some(nulls));
    let b = batch(vec![
        ("after", Arc::new(after) as ArrayRef),
        ("id", Arc::new(Int32Array::from(vec![1, 2])) as ArrayRef),
    ]);
    assert_eq!(struct_i64(&b, "after", "value", 0), Some(10));
    assert_eq!(struct_i64(&b, "after", "value", 1), None);
    // A null struct has no fields to miss.
    assert_eq!(struct_i64_if_present(&b, "after", "gone", 1), Some(None));
    assert_eq!(struct_i64_if_present(&b, "after", "gone", 0), None);
    assert_eq!(struct_i64_if_present(&b, "after", "name", 0), None);
    assert_eq!(struct_i64_if_present(&b, "before", "value", 0), None);
    assert_eq!(struct_i64_if_present(&b, "id", "value", 0), None);
    assert_eq!(struct_i64_if_present(&b, "after", "value", 2), None);
}
