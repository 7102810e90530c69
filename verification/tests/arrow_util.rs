use arrow_array::{
    Array, ArrayRef, Float64Array, Int32Array, Int64Array, RecordBatch, StringArray, UInt64Array,
    UInt8Array,
};
use arrow_schema::{DataType, Field, TimeUnit};
use hudi_core::batch::{
    adapt_batch_if_sound, adapt_batch_to_schema, create_row_converter,
    create_row_converter_if_sound, get_column_arrays, lexsort_to_indices,
    lexsort_to_indices_if_sortable, plan_columns, position_of, project_batch_by_names, rows_of,
    schema_of, type_of, Batch, Column, ColumnAsArray, ColumnStep,
};
use hudi_core::cast_bounds::can_cast;
use hudi_core::error::CoreError;
use hudi_core::schema::{
    contains_field, is_float_type, is_integer_type, reconcile_schemas, widen_types, ColumnType,
    DictionaryNote, FieldDef, SchemaDef,
};
use hudi_core::type_shape::{can_encode, can_hold_nulls};
use std::sync::Arc;

fn schema(fields: &[(&str, ColumnType, bool)]) -> SchemaDef {
    SchemaDef::new(
        fields
            .iter()
            .map(|(n, t, nullable)| FieldDef::new(n, t.clone(), *nullable))
            .collect(),
    )
}

fn arrow_schema_of(def: &SchemaDef) -> arrow_schema::SchemaRef {
    let fields: Vec<Field> = def
        .fields
        .iter()
        .map(|f| Field::new(f.name.clone(), f.data_type.to_arrow(), f.nullable))
        .collect();
    Arc::new(arrow_schema::Schema::new(fields))
}

fn batch_of(def: &SchemaDef, columns: Vec<ArrayRef>) -> Batch {
    Batch {
        batch: RecordBatch::try_new(arrow_schema_of(def), columns).unwrap(),
    }
}

fn columns_of(arrays: Vec<ArrayRef>) -> Vec<Column> {
    arrays.into_iter().map(|array| Column { array }).collect()
}

#[test]
fn test_reconcile_schemas_identical_is_noop() {
    let s = schema(&[
        ("id", ColumnType::Int32, false),
        ("name", ColumnType::Utf8, true),
    ]);
    let out = reconcile_schemas(&[s.clone(), s.clone()]);
    // Same instance preserved (order + nullability unchanged).
    assert_eq!(out.fields, s.fields);
    assert!(!out.fields[0].nullable);
}

#[test]
fn test_reconcile_schemas_added_column_is_nullable_and_appended() {
    let base = schema(&[("id", ColumnType::Int32, false)]);
    let evolved = schema(&[
        ("id", ColumnType::Int32, false),
        ("city", ColumnType::Utf8, false),
    ]);
    let out = reconcile_schemas(&[base, evolved]);
    assert_eq!(out.fields.len(), 2);
    assert_eq!(out.fields[1].name, "city");
    // `city` is absent from the base schema, so it must be nullable in the target.
    assert!(out.fields[1].nullable);
    // `id` present in both and non-nullable stays non-nullable.
    assert!(!out.fields[0].nullable);
}

#[test]
fn test_reconcile_schemas_widens_numeric_types() {
    let s32 = schema(&[("v", ColumnType::Int32, false)]);
    let s64 = schema(&[("v", ColumnType::Int64, false)]);
    let out = reconcile_schemas(&[s32, s64]);
    assert_eq!(out.fields[0].data_type, ColumnType::Int64);

    let sf = schema(&[("v", ColumnType::Float64, false)]);
    let si = schema(&[("v", ColumnType::Int32, false)]);
    let out = reconcile_schemas(&[si, sf]);
    assert_eq!(out.fields[0].data_type, ColumnType::Float64);
}

#[test]
fn test_adapt_batch_fills_missing_casts_and_reorders() {
    // Batch has [v: Int32, id: Int32]; target wants [id: Int64, v: Int64, city: Utf8].
    let batch = batch_of(
        &schema(&[
            ("v", ColumnType::Int32, false),
            ("id", ColumnType::Int32, false),
        ]),
        vec![
            Arc::new(Int32Array::from(vec![10, 20])) as ArrayRef,
            Arc::new(Int32Array::from(vec![1, 2])) as ArrayRef,
        ],
    );
    let target = schema(&[
        ("id", ColumnType::Int64, false),
        ("v", ColumnType::Int64, false),
        ("city", ColumnType::Utf8, true),
    ]);

    let adapted = adapt_batch_to_schema(&batch, &target).unwrap();
    assert_eq!(schema_of(&adapted).fields, target.fields);

    let adapted = adapted.batch;
    let ids = adapted
        .column(0)
        .as_any()
        .downcast_ref::<Int64Array>()
        .unwrap();
    assert_eq!(ids.values(), &[1, 2]);
    let vs = adapted
        .column(1)
        .as_any()
        .downcast_ref::<Int64Array>()
        .unwrap();
    assert_eq!(vs.values(), &[10, 20]);
    // Missing column filled with nulls.
    assert_eq!(adapted.column(2).null_count(), 2);
}

#[test]
fn test_adapt_batch_identical_schema_is_noop() {
    let s = schema(&[("id", ColumnType::Int32, false)]);
    let batch = batch_of(&s, vec![Arc::new(Int32Array::from(vec![1])) as ArrayRef]);
    let adapted = adapt_batch_to_schema(&batch, &s).unwrap();
    assert_eq!(schema_of(&adapted).fields, s.fields);
}

#[test]
fn test_basic_int_sort() {
    let arr = Int32Array::from(vec![3, 1, 4, 1, 5]);
    let arrays = columns_of(vec![Arc::new(arr) as ArrayRef]);

    // Test ascending
    let result = lexsort_to_indices(&arrays, false);
    assert_eq!(
        result.array.values(),
        &[1, 3, 0, 2, 4] // Indices that would sort to [1,1,3,4,5]
    );

    // Test descending
    let result = lexsort_to_indices(&arrays, true);
    assert_eq!(
        result.array.values(),
        &[4, 2, 0, 1, 3] // Indices that would sort to [5,4,3,1,1]
    );
}

#[test]
fn test_multiple_columns() {
    let arr1 = Int32Array::from(vec![1, 1, 2, 2]);
    let arr2 = StringArray::from(vec!["b", "a", "b", "a"]);
    let arrays = columns_of(vec![
        Arc::new(arr1) as ArrayRef,
        Arc::new(arr2) as ArrayRef,
    ]);

    let result = lexsort_to_indices(&arrays, false);
    assert_eq!(
        result.array.values(),
        &[1, 0, 3, 2] // Should sort by first column then second
    );
}

#[test]
fn test_edge_cases() {
    // Empty array
    assert_eq!(lexsort_to_indices(&[], false).array.len(), 0);

    // Array of empty array
    let arr = Int32Array::from(vec![] as Vec<i32>);
    let arrays = columns_of(vec![Arc::new(arr) as ArrayRef]);
    let result = lexsort_to_indices(&arrays, false);
    assert_eq!(result.array.len(), 0);

    // Single element
    let arr = Int32Array::from(vec![1]);
    let arrays = columns_of(vec![Arc::new(arr) as ArrayRef]);
    let result = lexsort_to_indices(&arrays, false);
    assert_eq!(result.array.values(), &[0]);

    // All equal values
    let arr = Int32Array::from(vec![5, 5, 5, 5]);
    let arrays = columns_of(vec![Arc::new(arr) as ArrayRef]);
    let result = lexsort_to_indices(&arrays, false);
    assert_eq!(result.array.values(), &[0, 1, 2, 3]);
}

#[test]
fn test_different_types() {
    let int_arr = Int32Array::from(vec![1, 2, 1]);
    let str_arr = StringArray::from(vec!["a", "b", "c"]);
    let float_arr = Float64Array::from(vec![1.0, 2.0, 3.0]);

    let arrays = columns_of(vec![
        Arc::new(int_arr) as ArrayRef,
        Arc::new(str_arr) as ArrayRef,
        Arc::new(float_arr) as ArrayRef,
    ]);

    let result = lexsort_to_indices(&arrays, false);
    assert_eq!(result.array.values(), &[0, 2, 1]);
}

fn abc() -> Batch {
    batch_of(
        &schema(&[
            ("a", ColumnType::Int32, false),
            ("b", ColumnType::Utf8, false),
            ("c", ColumnType::Float64, false),
        ]),
        vec![
            Arc::new(Int32Array::from(vec![1, 2])) as ArrayRef,
            Arc::new(StringArray::from(vec!["x", "y"])) as ArrayRef,
            Arc::new(Float64Array::from(vec![1.5, 2.5])) as ArrayRef,
        ],
    )
}

#[test]
fn test_project_batch_by_names() {
    // None returns input unchanged.
    let same = project_batch_by_names(abc(), None).unwrap().batch;
    assert_eq!(same.num_columns(), 3);
    assert_eq!(same.schema().field(0).name(), "a");

    // Subset projects in the requested order.
    let cols = vec!["c".to_string(), "a".to_string()];
    let projected = project_batch_by_names(abc(), Some(&cols)).unwrap().batch;
    assert_eq!(projected.num_columns(), 2);
    assert_eq!(projected.schema().field(0).name(), "c");
    assert_eq!(projected.schema().field(1).name(), "a");

    // Unknown column errors with a Schema error.
    let bad = vec!["a".to_string(), "missing".to_string()];
    let err = project_batch_by_names(abc(), Some(&bad)).unwrap_err();
    assert!(matches!(err, CoreError::Schema(_)));
    assert!(err.message().contains("missing"));
}

#[test]
fn projection_errors_quote_the_arrow_error() {
    let bad = vec!["z".to_string()];
    let err = project_batch_by_names(abc(), Some(&bad)).unwrap_err();
    let cause = abc().batch.schema().index_of("z").unwrap_err();
    assert_eq!(
        err.message(),
        format!("Projection column not found: {cause:?}")
    );
}

#[test]
fn projection_may_repeat_columns_and_keeps_rows() {
    let cols = vec!["b".to_string(), "b".to_string()];
    let twice = project_batch_by_names(abc(), Some(&cols)).unwrap();
    assert_eq!(rows_of(&twice), 2);
    assert_eq!(twice.batch.num_columns(), 2);
    let none = project_batch_by_names(abc(), Some(&[])).unwrap();
    assert_eq!(none.batch.num_columns(), 0);
    assert_eq!(rows_of(&none), 2);
}

#[test]
fn columns_by_name() {
    let batch = abc();
    let a = batch.get_array("a").unwrap();
    assert_eq!(type_of(&a), ColumnType::Int32);
    let ints = a.array.as_any().downcast_ref::<Int32Array>().unwrap();
    assert_eq!(ints.values(), &[1, 2]);
    let b = batch.get_string_array("b").unwrap();
    assert_eq!(b.array.value(1), "y");

    let err = batch.get_array("z").unwrap_err();
    assert!(matches!(&err, CoreError::ArrowError(_)));
    assert_eq!(
        err.message(),
        batch.batch.schema().index_of("z").unwrap_err().to_string()
    );
    let err = batch.get_string_array("z").unwrap_err();
    assert!(matches!(err, CoreError::ArrowError(_)));
    let err = batch.get_string_array("a").unwrap_err();
    match err {
        CoreError::ArrowError(arrow_schema::ArrowError::CastError(m)) => {
            assert_eq!(m, "Column a cannot be cast to StringArray.")
        }
        other => panic!("{other:?}"),
    }
}

#[test]
fn several_columns_by_name() {
    let columns = get_column_arrays(&abc(), &["c", "a", "c"]).unwrap();
    let types: Vec<ColumnType> = columns.iter().map(type_of).collect();
    assert_eq!(
        types,
        vec![ColumnType::Float64, ColumnType::Int32, ColumnType::Float64]
    );
    let err = get_column_arrays(&abc(), &["a", "y", "z"]).unwrap_err();
    assert!(matches!(&err, CoreError::Schema(_)));
    assert_eq!(err.message(), "Column y not found");
    assert!(get_column_arrays(&abc(), &[]).unwrap().is_empty());
}

#[test]
fn row_converters_by_name() {
    let s = schema(&[
        ("a", ColumnType::Int32, false),
        ("b", ColumnType::Utf8, false),
    ]);
    let converter = create_row_converter(&s, &["b", "a"]).unwrap();
    let columns: Vec<ArrayRef> = vec![
        Arc::new(StringArray::from(vec!["y", "x"])),
        Arc::new(Int32Array::from(vec![1, 2])),
    ];
    let rows = converter.convert_columns(&columns).unwrap();
    assert!(rows.row(1) < rows.row(0));
    let err = create_row_converter(&s, &["a", "z"]).unwrap_err();
    assert!(matches!(&err, CoreError::Schema(_)));
    assert_eq!(err.message(), "Column z not found");
    assert!(create_row_converter_if_sound(&s, &["z"]).unwrap().is_err());
    assert!(create_row_converter_if_sound(&s, &["a"]).unwrap().is_ok());
}

fn item(data_type: DataType) -> Arc<Field> {
    Arc::new(Field::new("item", data_type, true))
}

#[test]
fn unsupported_rows_are_an_arrow_error() {
    // The row format has no dictionaries of structs.
    let entries = DataType::Struct(vec![Field::new("x", DataType::Int32, true)].into());
    let coded = DataType::Dictionary(Box::new(DataType::Int8), Box::new(entries));
    let s = schema(&[("d", ColumnType::from_arrow(&coded), true)]);
    let made = create_row_converter_if_sound(&s, &["d"]).unwrap();
    assert!(matches!(made, Err(CoreError::ArrowError(_))));
}

#[test]
fn malformed_types_are_no_rows() {
    // A struct cannot be encoded whose null cannot be made.
    let broken = DataType::Struct(vec![Field::new("x", DataType::FixedSizeBinary(-1), true)].into());
    let t = ColumnType::from_arrow(&broken);
    assert!(!can_encode(&t));
    let s = schema(&[("s", t, true)]);
    assert!(create_row_converter_if_sound(&s, &["s"]).is_none());
    let unpaired = DataType::Map(item(DataType::Struct(Vec::<Field>::new().into())), false);
    assert!(!can_encode(&ColumnType::from_arrow(&unpaired)));
}

fn fits(t: DataType, rows: usize) -> bool {
    can_hold_nulls(&ColumnType::from_arrow(&t), rows)
}

#[test]
fn types_that_hold_nulls() {
    let pair = DataType::Struct(
        vec![
            Field::new("k", DataType::Utf8, false),
            Field::new("v", DataType::Int32, true),
        ]
        .into(),
    );
    let union = |fields: Vec<Field>, mode| {
        let ids: Vec<i8> = (0..fields.len() as i8).collect();
        DataType::Union(arrow_schema::UnionFields::try_new(ids, fields).unwrap(), mode)
    };
    let runs = |ends: DataType| {
        DataType::RunEndEncoded(
            Arc::new(Field::new("run_ends", ends, false)),
            Arc::new(Field::new("values", DataType::Utf8, true)),
        )
    };
    let sound = vec![
        DataType::Null,
        DataType::Timestamp(TimeUnit::Nanosecond, None),
        DataType::Time32(TimeUnit::Second),
        DataType::Time64(TimeUnit::Nanosecond),
        DataType::Decimal256(20, 2),
        DataType::FixedSizeBinary(3),
        DataType::List(item(DataType::Int32)),
        DataType::LargeList(item(DataType::Int32)),
        DataType::ListView(item(DataType::Int32)),
        DataType::LargeListView(item(DataType::Int32)),
        DataType::FixedSizeList(item(DataType::Utf8), 2),
        pair.clone(),
        DataType::Map(item(pair.clone()), false),
        DataType::Dictionary(Box::new(DataType::UInt8), Box::new(DataType::Utf8)),
        union(
            vec![Field::new("x", DataType::Int32, true)],
            arrow_schema::UnionMode::Sparse,
        ),
        union(
            vec![
                Field::new("x", DataType::Int32, true),
                Field::new("y", DataType::Utf8, true),
            ],
            arrow_schema::UnionMode::Dense,
        ),
        runs(DataType::Int16),
        runs(DataType::Int32),
        runs(DataType::Int64),
    ];
    for t in sound {
        assert!(fits(t.clone(), 3), "{t}");
        // What is said to fit can be made.
        assert_eq!(arrow_array::new_null_array(&t, 3).len(), 3);
        assert!(can_encode(&ColumnType::from_arrow(&t)), "{t}");
    }
    let unsound = vec![
        DataType::Time32(TimeUnit::Nanosecond),
        DataType::Time64(TimeUnit::Second),
        DataType::FixedSizeBinary(-1),
        DataType::FixedSizeList(item(DataType::Utf8), -1),
        DataType::List(item(DataType::FixedSizeBinary(-1))),
        DataType::Map(item(DataType::Int32), false),
        DataType::Dictionary(Box::new(DataType::Utf8), Box::new(DataType::Utf8)),
        union(vec![], arrow_schema::UnionMode::Sparse),
        runs(DataType::UInt8),
    ];
    for t in unsound {
        assert!(!fits(t.clone(), 3), "{t}");
    }
    assert!(fits(union(vec![], arrow_schema::UnionMode::Dense), 0));
    assert!(fits(runs(DataType::Int16), 32767));
    assert!(!fits(runs(DataType::Int16), 32768));
    assert!(!fits(DataType::Int8, usize::MAX));
    assert!(can_hold_nulls(&ColumnType::Int64, 5));
}

#[test]
fn nested_columns_can_be_sorted_by() {
    let lists = arrow_array::ListArray::from_iter_primitive::<arrow_array::types::Int32Type, _, _>(
        vec![
            Some(vec![Some(2)]),
            None,
            Some(vec![Some(1), Some(9)]),
            Some(vec![Some(1)]),
        ],
    );
    let columns = columns_of(vec![Arc::new(lists) as ArrayRef]);
    let sorted = lexsort_to_indices_if_sortable(&columns, false).unwrap();
    assert_eq!(sorted.array.values(), &[1, 3, 2, 0]);
}

#[test]
fn columns_of_different_lengths_cannot_be_sorted_by() {
    let columns = columns_of(vec![
        Arc::new(Int32Array::from(vec![1])) as ArrayRef,
        Arc::new(Int32Array::from(vec![1, 2])) as ArrayRef,
    ]);
    assert!(lexsort_to_indices_if_sortable(&columns, false).is_none());
}

#[test]
fn nulls_come_first() {
    let columns = columns_of(vec![
        Arc::new(Int32Array::from(vec![Some(1), None, Some(0)])) as ArrayRef,
    ]);
    assert_eq!(lexsort_to_indices(&columns, false).array.values(), &[1, 2, 0]);
    assert_eq!(lexsort_to_indices(&columns, true).array.values(), &[0, 2, 1]);
}

#[test]
fn integer_and_float_types() {
    let integers = [
        ColumnType::Int8,
        ColumnType::Int16,
        ColumnType::Int32,
        ColumnType::Int64,
        ColumnType::UInt8,
        ColumnType::UInt16,
        ColumnType::UInt32,
        ColumnType::UInt64,
    ];
    for t in &integers {
        assert!(is_integer_type(t) && !is_float_type(t));
        assert_eq!(
            widen_types(t, &ColumnType::Float16),
            ColumnType::Float64
        );
    }
    for t in [ColumnType::Float16, ColumnType::Float32, ColumnType::Float64] {
        assert!(is_float_type(&t) && !is_integer_type(&t));
        assert_eq!(widen_types(&t, &t), t);
    }
    assert!(!is_integer_type(&ColumnType::Boolean));
    assert_eq!(
        widen_types(&ColumnType::Int8, &ColumnType::UInt8),
        ColumnType::Int64
    );
    // Any other mismatch takes the newer type.
    assert_eq!(
        widen_types(&ColumnType::Int8, &ColumnType::Utf8),
        ColumnType::Utf8
    );
    let date = ColumnType::from_arrow(&DataType::Date32);
    assert_eq!(widen_types(&date, &date), date);
    assert_eq!(widen_types(&date, &ColumnType::Int8), ColumnType::Int8);
}

#[test]
fn column_types_round_trip() {
    for t in [
        DataType::Boolean,
        DataType::Int8,
        DataType::UInt64,
        DataType::Float16,
        DataType::Utf8,
        DataType::LargeUtf8,
        DataType::List(item(DataType::Int8)),
    ] {
        assert_eq!(ColumnType::from_arrow(&t).to_arrow(), t);
    }
    assert_eq!(
        ColumnType::from_arrow(&DataType::Int32),
        ColumnType::Int32
    );
    assert!(matches!(
        ColumnType::from_arrow(&DataType::Date32),
        ColumnType::Other(_)
    ));
}

#[test]
fn reconciling_three_schemas() {
    let a = schema(&[
        ("id", ColumnType::Int32, false),
        ("v", ColumnType::Int8, false),
    ]);
    let b = schema(&[
        ("w", ColumnType::Utf8, false),
        ("id", ColumnType::Int64, false),
    ]);
    let c = schema(&[
        ("id", ColumnType::Float32, true),
        ("v", ColumnType::Int8, false),
    ]);
    let out = reconcile_schemas(&[a, b, c]);
    assert_eq!(
        out,
        schema(&[
            ("id", ColumnType::Float64, true),
            ("v", ColumnType::Int8, true),
            ("w", ColumnType::Utf8, true),
        ])
    );
    assert_eq!(reconcile_schemas(&[out.clone()]), out);
    assert!(contains_field(&out.fields, "w"));
    assert!(!contains_field(&out.fields, "x"));
    assert!(reconcile_schemas(&[]).fields.is_empty());
}

#[test]
fn a_repeated_column_does_not_stand_for_a_missing_one() {
    // `x` occurs twice in the first schema and is absent from the second.
    let a = schema(&[
        ("x", ColumnType::Int32, false),
        ("x", ColumnType::Int32, false),
    ]);
    let b = schema(&[("y", ColumnType::Int32, false)]);
    let out = reconcile_schemas(&[a, b]);
    assert_eq!(
        out,
        schema(&[
            ("x", ColumnType::Int32, true),
            ("y", ColumnType::Int32, true),
        ])
    );
}

#[test]
fn metadata_counts_as_a_difference() {
    let plain = schema(&[("x", ColumnType::Int32, false)]);
    let mut tagged = plain.clone();
    tagged.fields[0].metadata.insert("PARQUET:field_id", "1");
    assert_ne!(plain, tagged);
    let out = reconcile_schemas(&[tagged.clone(), plain.clone()]);
    assert_eq!(out, plain);
    let out = reconcile_schemas(&[tagged.clone(), tagged.clone()]);
    assert_eq!(out, tagged);
}

#[test]
fn adapting_twice_changes_nothing() {
    let target = schema(&[
        ("c", ColumnType::Float64, true),
        ("n", ColumnType::Int64, true),
    ]);
    let once = adapt_batch_to_schema(&abc(), &target).unwrap();
    let twice = adapt_batch_to_schema(&once, &target).unwrap();
    assert_eq!(once.batch, twice.batch);
    // The column that is in both stays as it is, and the others are dropped.
    assert_eq!(once.batch.column(0), abc().batch.column(2));
    assert_eq!(once.batch.num_columns(), 2);
}

#[test]
fn adaptation_failures_are_arrow_errors() {
    // Nulls do not go into a column that takes none.
    let strict = schema(&[
        ("a", ColumnType::Int32, false),
        ("n", ColumnType::Int64, false),
    ]);
    let err = adapt_batch_to_schema(&abc(), &strict).unwrap_err();
    assert!(matches!(err, CoreError::ArrowError(_)));
    // A boolean is no date.
    let date = ColumnType::from_arrow(&DataType::Date32);
    let flags = batch_of(
        &schema(&[("f", ColumnType::Boolean, false)]),
        vec![Arc::new(arrow_array::BooleanArray::from(vec![true])) as ArrayRef],
    );
    let err = adapt_batch_to_schema(&flags, &schema(&[("f", date, true)])).unwrap_err();
    assert!(matches!(err, CoreError::ArrowError(_)));
    // A batch needs a column.
    let err = adapt_batch_to_schema(&abc(), &schema(&[])).unwrap_err();
    assert!(matches!(err, CoreError::ArrowError(_)));
}

#[test]
fn adaptation_to_malformed_types() {
    let broken = ColumnType::from_arrow(&DataType::FixedSizeBinary(-1));
    assert!(adapt_batch_if_sound(&abc(), &schema(&[("n", broken, true)])).is_none());
    let list = ColumnType::from_arrow(&DataType::List(item(DataType::Int32)));
    let target = schema(&[("n", list, true)]);
    let filled = adapt_batch_if_sound(&abc(), &target).unwrap().unwrap();
    assert_eq!(filled.batch.column(0).null_count(), 2);
    assert_eq!(schema_of(&filled).fields, target.fields);
}

#[test]
fn adaptation_keeps_the_metadata_of_the_target() {
    let mut target = schema(&[("a", ColumnType::Int64, true)]);
    target.metadata.insert("k", "v");
    target.fields[0].metadata.insert("id", "7");
    let adapted = adapt_batch_to_schema(&abc(), &target).unwrap();
    assert_eq!(schema_of(&adapted), target);
    assert_eq!(
        adapted.batch.schema().metadata().get("k"),
        Some(&"v".to_string())
    );
}

#[test]
fn reconciled_schemas_take_every_batch() {
    let old = batch_of(
        &schema(&[("id", ColumnType::Int32, false)]),
        vec![Arc::new(Int32Array::from(vec![7])) as ArrayRef],
    );
    let new = abc();
    let target = reconcile_schemas(&[schema_of(&old), schema_of(&new)]);
    for batch in [&old, &new] {
        let adapted = adapt_batch_to_schema(batch, &target).unwrap();
        assert_eq!(schema_of(&adapted).fields, target.fields);
        assert_eq!(rows_of(&adapted), rows_of(batch));
    }
}

#[test]
fn batches_of_evolved_numbers_are_adapted() {
    let small = schema(&[("n", ColumnType::UInt8, false), ("x", ColumnType::Int32, true)]);
    let large = schema(&[("n", ColumnType::Int32, false), ("x", ColumnType::Float64, true)]);
    let target = reconcile_schemas(&[small.clone(), large]);
    assert_eq!(target.fields[0].data_type, ColumnType::Int64);
    assert!(!target.fields[0].nullable);
    assert_eq!(target.fields[1].data_type, ColumnType::Float64);

    let batch = batch_of(
        &small,
        vec![
            Arc::new(UInt8Array::from(vec![0, 255])) as ArrayRef,
            Arc::new(Int32Array::from(vec![None, Some(-3)])) as ArrayRef,
        ],
    );
    let adapted = adapt_batch_to_schema(&batch, &target).unwrap().batch;
    let n = adapted.column(0).as_any().downcast_ref::<Int64Array>().unwrap();
    assert_eq!(n, &Int64Array::from(vec![0, 255]));
    assert_eq!(n.null_count(), 0);
    let x = adapted.column(1).as_any().downcast_ref::<Float64Array>().unwrap();
    assert_eq!(x, &Float64Array::from(vec![None, Some(-3.0)]));
}

#[test]
fn numbers_that_do_not_fit_need_a_nullable_column() {
    let old = schema(&[("n", ColumnType::UInt64, false)]);
    let batch = batch_of(&old, vec![Arc::new(UInt64Array::from(vec![7, u64::MAX])) as ArrayRef]);

    let strict = schema(&[("n", ColumnType::Int64, false)]);
    assert!(matches!(
        adapt_batch_to_schema(&batch, &strict),
        Err(CoreError::ArrowError(_))
    ));

    let lenient = schema(&[("n", ColumnType::Int64, true)]);
    let adapted = adapt_batch_to_schema(&batch, &lenient).unwrap().batch;
    let n = adapted.column(0).as_any().downcast_ref::<Int64Array>().unwrap();
    assert_eq!(n, &Int64Array::from(vec![Some(7), None]));
}

#[test]
fn plans() {
    let own = schema(&[
        ("a", ColumnType::Int32, false),
        ("b", ColumnType::Utf8, false),
        ("a", ColumnType::Int64, false),
    ]);
    let types = vec![ColumnType::Int32, ColumnType::Utf8, ColumnType::Int64];
    let target = schema(&[
        ("b", ColumnType::Utf8, false),
        ("a", ColumnType::Int64, false),
        ("c", ColumnType::Utf8, true),
    ]);
    assert_eq!(
        plan_columns(&own.fields, &types, &target.fields),
        vec![ColumnStep::Keep(1), ColumnStep::Cast(0), ColumnStep::Nulls]
    );
    assert_eq!(position_of(&own.fields, "a"), Some(0));
    assert_eq!(position_of(&own.fields, "c"), None);
}

#[test]
fn projection_errors_name_the_missing_column() {
    let names = vec!["a".to_string(), "_hoodie_commit_time".to_string()];
    let err = project_batch_by_names(abc(), Some(names.as_slice())).unwrap_err();
    assert!(matches!(err, CoreError::Schema(m) if m.contains("_hoodie_commit_time")));
}

#[test]
fn leading_columns_decide_whatever_follows() {
    let columns = columns_of(vec![
        Arc::new(Int32Array::from(vec![Some(2), None, Some(1), Some(2)])) as ArrayRef,
        Arc::new(Float64Array::from(vec![0.5, 9.5, 1.5, -0.5])) as ArrayRef,
    ]);
    assert_eq!(lexsort_to_indices(&columns, false).array.values(), &[1, 2, 3, 0]);
    assert_eq!(lexsort_to_indices(&columns, true).array.values(), &[0, 3, 2, 1]);
}

#[test]
fn descending_sorts_mirror_ascending_ones() {
    let texts = StringArray::from(vec![Some("b"), Some("a"), None, Some("b"), Some("a")]);
    let columns = columns_of(vec![Arc::new(texts.clone()) as ArrayRef]);
    let up = lexsort_to_indices(&columns, false).array;
    let down = lexsort_to_indices(&columns, true).array;
    assert_eq!(up.values(), &[2, 1, 4, 0, 3]);
    assert_eq!(down.values(), &[0, 3, 1, 4, 2]);
    let text = |i: u32| texts.is_valid(i as usize).then_some(texts.value(i as usize));
    for i in 0..5 {
        assert_eq!(text(down.value(i)), text(up.value(4 - i)));
    }
}

#[test]
fn maps_of_no_structs_are_an_arrow_error() {
    let map = ColumnType::from_arrow(&DataType::Map(item(DataType::Int32), false));
    assert!(can_encode(&map));
    let s = schema(&[("m", map, true)]);
    assert!(matches!(
        create_row_converter(&s, &["m"]),
        Err(CoreError::ArrowError(_))
    ));
}

#[test]
fn lacking_columns_of_any_type_are_nulls() {
    let types = vec![
        ColumnType::from_arrow(&DataType::Date32),
        ColumnType::from_arrow(&DataType::Timestamp(TimeUnit::Nanosecond, None)),
        ColumnType::from_arrow(&DataType::FixedSizeBinary(3)),
        ColumnType::Decimal128(10, 2),
        ColumnType::Binary,
        ColumnType::LargeUtf8,
        ColumnType::from_arrow(&DataType::List(item(DataType::Date32))),
    ];
    for t in types {
        let target = schema(&[("a", ColumnType::Int32, false), ("z", t, true)]);
        let adapted = adapt_batch_to_schema(&abc(), &target).unwrap();
        assert_eq!(schema_of(&adapted).fields, target.fields);
        assert_eq!(adapted.batch.column(0), abc().batch.column(0));
        assert_eq!(adapted.batch.column(1).null_count(), rows_of(&abc()));
    }
}

#[test]
fn batches_of_agreed_schemas_are_kept() {
    let date = ColumnType::from_arrow(&DataType::Date32);
    let old = schema(&[("id", ColumnType::Int32, false), ("day", date.clone(), true)]);
    let new = schema(&[("name", ColumnType::Utf8, true), ("id", ColumnType::Int32, false)]);
    let target = reconcile_schemas(&[old.clone(), new.clone()]);
    let batch = batch_of(
        &new,
        vec![
            Arc::new(StringArray::from(vec![Some("x"), None])) as ArrayRef,
            Arc::new(Int32Array::from(vec![1, 2])) as ArrayRef,
        ],
    );
    let adapted = adapt_batch_to_schema(&batch, &target).unwrap();
    assert_eq!(schema_of(&adapted).fields, target.fields);
    assert_eq!(rows_of(&adapted), 2);
    let by_name = |b: &Batch, name: &str| b.get_array(name).unwrap().array;
    for name in ["id", "name"] {
        assert_eq!(&by_name(&adapted, name), &by_name(&batch, name));
    }
    assert_eq!(by_name(&adapted, "day").null_count(), 2);
}

#[test]
fn a_reconciled_schema_adds_nothing() {
    let old = schema(&[("a", ColumnType::Int32, false), ("b", ColumnType::Utf8, false)]);
    let new = schema(&[("c", ColumnType::Int8, true), ("a", ColumnType::Float64, false)]);
    let once = reconcile_schemas(&[old.clone(), new.clone()]);
    assert_eq!(reconcile_schemas(&[old, new, once.clone()]), once);
}

#[test]
fn casts_within_bounds() {
    let column = |a: ArrayRef| Column { array: a };
    let other = |t: DataType| ColumnType::from_arrow(&t);
    let numbers = column(Arc::new(Int32Array::from(vec![1, 2])));
    assert!(can_cast(&numbers, &ColumnType::Int64));
    assert!(can_cast(&numbers, &ColumnType::Utf8));
    assert!(can_cast(&numbers, &ColumnType::Decimal32(5, 2)));
    let texts = column(Arc::new(StringArray::from(vec!["a", "b"])));
    assert!(can_cast(&texts, &ColumnType::LargeUtf8));
    assert!(can_cast(&texts, &ColumnType::Binary));
    let views = column(Arc::new(arrow_array::StringViewArray::from(vec!["a", "b"])));
    assert!(can_cast(&views, &ColumnType::Utf8));
    let bytes = column(Arc::new(arrow_array::BinaryViewArray::from(vec![b"a".as_slice()])));
    assert!(can_cast(&bytes, &ColumnType::Binary));
    let lists = arrow_array::ListArray::from_iter_primitive::<arrow_array::types::Int32Type, _, _>(
        vec![Some(vec![Some(2)]), None],
    );
    let lists = column(Arc::new(lists));
    assert!(can_cast(&lists, &ColumnType::Utf8));
    assert!(can_cast(&lists, &other(DataType::List(item(DataType::Int64)))));
    let pairs = arrow_array::StructArray::from(vec![(
        Arc::new(Field::new("x", DataType::Int32, true)),
        Arc::new(Int32Array::from(vec![1, 2])) as ArrayRef,
    )]);
    assert!(can_cast(&column(Arc::new(pairs)), &ColumnType::Utf8));
    let coded: arrow_array::DictionaryArray<arrow_array::types::Int8Type> =
        vec!["a", "b", "a"].into_iter().collect();
    let coded = column(Arc::new(coded));
    assert!(can_cast(&coded, &ColumnType::Utf8));
    assert!(can_cast(&coded, &other(DataType::List(item(DataType::Utf8)))));
}

#[test]
fn decimals_with_too_many_digits_are_not_cast_to_fewer_bits() {
    let decimals = |value: i128, precision: u8| {
        let values = arrow_array::Decimal128Array::from(vec![value]);
        Arc::new(values.with_precision_and_scale(precision, 2).unwrap()) as ArrayRef
    };
    let column = Column { array: decimals(i128::MAX, 20) };
    assert!(!can_cast(&column, &ColumnType::Decimal64(10, 2)));
    assert!(can_cast(&column, &ColumnType::Decimal128(22, 2)));
    assert!(can_cast(&column, &ColumnType::Decimal256(40, 2)));
    assert!(can_cast(&column, &ColumnType::Float64));

    let old = schema(&[("d", ColumnType::Decimal128(20, 2), true)]);
    let narrow = schema(&[("d", ColumnType::Decimal64(10, 2), true)]);
    let batch = batch_of(&old, vec![decimals(i128::MAX, 20)]);
    assert!(adapt_batch_if_sound(&batch, &narrow).is_none());
    let batch = batch_of(&old, vec![decimals(-125, 20)]);
    let adapted = adapt_batch_if_sound(&batch, &narrow).unwrap().unwrap().batch;
    let values = arrow_array::Decimal64Array::from(vec![-125]);
    let values: ArrayRef = Arc::new(values.with_precision_and_scale(10, 2).unwrap());
    assert_eq!(adapted.column(0), &values);
    let wider = schema(&[("d", ColumnType::Decimal256(40, 2), true)]);
    let adapted = adapt_batch_if_sound(&batch, &wider).unwrap().unwrap();
    assert_eq!(schema_of(&adapted).fields, wider.fields);
}

#[test]
fn times_at_the_edge_of_the_calendar_stay_in_their_zone() {
    let zoned = |zone: &str| DataType::Timestamp(TimeUnit::Second, Some(zone.into()));
    let naive = DataType::Timestamp(TimeUnit::Second, None);
    let times = |seconds: i64, t: &DataType| {
        let values = arrow_array::TimestampSecondArray::from(vec![Some(seconds), None]);
        let array: ArrayRef = match t {
            DataType::Timestamp(_, Some(zone)) => Arc::new(values.with_timezone(zone.as_ref())),
            _ => Arc::new(values),
        };
        let def = schema(&[("t", ColumnType::from_arrow(t), true)]);
        batch_of(&def, vec![array])
    };
    let target = |t: &DataType| schema(&[("t", ColumnType::from_arrow(t), true)]);
    let last: i64 = 95_026_236 * 86_400 + 86_399;
    let first: i64 = -96_465_292 * 86_400;

    // Into a zone.
    for edge in [first, last] {
        for zone in ["+14:00", "-12:00"] {
            let moved = adapt_batch_if_sound(&times(edge, &naive), &target(&zoned(zone)));
            assert!(moved.is_none());
        }
    }
    let moved = adapt_batch_if_sound(&times(7200, &naive), &target(&zoned("+01:00")));
    let moved = moved.unwrap().unwrap().batch;
    let expected = arrow_array::TimestampSecondArray::from(vec![Some(3600), None]);
    let expected: ArrayRef = Arc::new(expected.with_timezone("+01:00"));
    assert_eq!(moved.column(0), &expected);

    // From a zone to days.
    for edge in [first, last] {
        for days in [DataType::Date32, DataType::Date64, DataType::Utf8, DataType::LargeUtf8] {
            let moved = adapt_batch_if_sound(&times(edge, &zoned("-12:00")), &target(&days));
            assert!(moved.is_none());
        }
    }
    let days = adapt_batch_if_sound(&times(86_399, &zoned("+01:00")), &target(&DataType::Date32));
    let expected: ArrayRef = Arc::new(arrow_array::Date32Array::from(vec![Some(1), None]));
    assert_eq!(days.unwrap().unwrap().batch.column(0), &expected);

    let text = adapt_batch_if_sound(&times(86_399, &zoned("+01:00")), &target(&DataType::Utf8));
    let expected = StringArray::from(vec![Some("1970-01-02T00:59:59+01:00"), None]);
    let expected: ArrayRef = Arc::new(expected);
    assert_eq!(text.unwrap().unwrap().batch.column(0), &expected);

    // Without a zone nothing is moved.
    let kept = adapt_batch_if_sound(&times(last, &naive), &target(&DataType::Date32));
    let expected: ArrayRef = Arc::new(arrow_array::Date32Array::from(vec![Some(95_026_236), None]));
    assert_eq!(kept.unwrap().unwrap().batch.column(0), &expected);
}

#[test]
fn times_read_as_numbers_and_back() {
    let stamps = DataType::Timestamp(TimeUnit::Millisecond, None);
    let cases: Vec<(DataType, ArrayRef)> = vec![
        (
            stamps,
            Arc::new(arrow_array::TimestampMillisecondArray::from(vec![Some(-7), None])),
        ),
        (
            DataType::Duration(TimeUnit::Nanosecond),
            Arc::new(arrow_array::DurationNanosecondArray::from(vec![Some(-7), None])),
        ),
        (
            DataType::Date64,
            Arc::new(arrow_array::Date64Array::from(vec![Some(-7), None])),
        ),
    ];
    let numbers: ArrayRef = Arc::new(Int64Array::from(vec![Some(-7), None]));
    let plain = schema(&[("t", ColumnType::Int64, true)]);
    for (data_type, times) in cases {
        let timed = schema(&[("t", ColumnType::from_arrow(&data_type), true)]);
        let there = batch_of(&timed, vec![times.clone()]);
        let adapted = adapt_batch_to_schema(&there, &plain).unwrap().batch;
        assert_eq!(adapted.column(0), &numbers);
        let back = batch_of(&plain, vec![numbers.clone()]);
        let adapted = adapt_batch_to_schema(&back, &timed).unwrap().batch;
        assert_eq!(adapted.column(0), &times);
    }
}

#[test]
fn bytes_become_texts_and_bytes_of_a_width() {
    let old = schema(&[("b", ColumnType::Binary, true)]);
    let values = vec![Some([0x61, 0x62].as_slice()), None, Some([0xff, 0].as_slice())];
    let batch = batch_of(&old, vec![Arc::new(arrow_array::BinaryArray::from(values))]);
    let texts = schema(&[("b", ColumnType::Utf8, true)]);
    let adapted = adapt_batch_to_schema(&batch, &texts).unwrap().batch;
    let expected: ArrayRef = Arc::new(StringArray::from(vec![Some("ab"), None, None]));
    assert_eq!(adapted.column(0), &expected);

    let pairs = schema(&[("b", ColumnType::from_arrow(&DataType::FixedSizeBinary(2)), true)]);
    let adapted = adapt_batch_to_schema(&batch, &pairs).unwrap().batch;
    let pair = adapted.column(0).as_any().downcast_ref::<arrow_array::FixedSizeBinaryArray>();
    let pair = pair.unwrap();
    assert_eq!(pair.value(0), [0x61, 0x62]);
    assert!(pair.is_null(1));
    assert_eq!(pair.value(2), [0xff, 0]);
}

#[test]
fn texts_and_lists_become_views() {
    let views = schema(&[("v", ColumnType::Utf8View, true)]);
    let expect = |values: Vec<Option<&str>>| {
        Arc::new(arrow_array::StringViewArray::from(values)) as ArrayRef
    };

    let large = schema(&[("v", ColumnType::LargeUtf8, true)]);
    let values = arrow_array::LargeStringArray::from(vec![Some("longer than twelve"), None]);
    let batch = batch_of(&large, vec![Arc::new(values)]);
    let adapted = adapt_batch_if_sound(&batch, &views).unwrap().unwrap().batch;
    assert_eq!(adapted.column(0), &expect(vec![Some("longer than twelve"), None]));

    let lists = arrow_array::ListArray::from_iter_primitive::<arrow_array::types::Date32Type, _, _>(
        vec![Some(vec![Some(0), None, Some(i32::MAX)]), None],
    );
    let days = DataType::List(item(DataType::Date32));
    let batch = batch_of(
        &schema(&[("v", ColumnType::from_arrow(&days), true)]),
        vec![Arc::new(lists)],
    );
    let adapted = adapt_batch_if_sound(&batch, &views).unwrap().unwrap().batch;
    let error = "ERROR: Cast error: Failed to convert 2147483647 to temporal for Date32";
    let list = format!("[1970-01-01, , {error}]");
    assert_eq!(adapted.column(0), &expect(vec![Some(list.as_str()), None]));

    let numbers = Column { array: Arc::new(Int32Array::from(vec![1, 1])) };
    let coded = DataType::Dictionary(Box::new(DataType::Int8), Box::new(DataType::Utf8View));
    assert!(can_cast(&numbers, &ColumnType::from_arrow(&coded)));
}

#[test]
fn runs_inside_other_types_are_not_cast() {
    let ends = Int32Array::from(vec![2, 3]);
    let runs = arrow_array::RunArray::try_new(&ends, &StringArray::from(vec!["a", "b"])).unwrap();
    let runs: ArrayRef = Arc::new(runs);
    let column = Column { array: runs.clone() };
    assert!(can_cast(&column, &ColumnType::Utf8));
    let field = Arc::new(Field::new("r", runs.data_type().clone(), true));
    let pairs: ArrayRef = Arc::new(arrow_array::StructArray::from(vec![(field, runs)]));
    let column = Column { array: pairs };
    let named = DataType::Struct(vec![Field::new("r", DataType::Utf8, true)].into());
    assert!(!can_cast(&column, &ColumnType::from_arrow(&named)));
}

#[test]
#[allow(deprecated)]
fn adapted_batches_say_of_dictionaries_what_the_schema_says() {
    let coded = DataType::Dictionary(Box::new(DataType::Int8), Box::new(DataType::Utf8));
    let mut target = schema(&[
        ("c", ColumnType::from_arrow(&coded), true),
        ("a", ColumnType::Int32, true),
    ]);
    target.fields[0].dictionary = DictionaryNote { id: 7, is_ordered: true };
    target.fields[1].dictionary = DictionaryNote { id: 8, is_ordered: true };
    let adapted = adapt_batch_to_schema(&abc(), &target).unwrap();
    let made = adapted.batch.schema();
    assert_eq!(made.field(0).dict_is_ordered(), Some(true));
    assert_eq!(made.field(0).dict_id(), Some(7));
    assert_eq!(made.field(1).dict_is_ordered(), None);

    let back = schema_of(&adapted);
    assert_eq!(back.fields[0].dictionary, target.fields[0].dictionary);
    assert_eq!(back.fields[1].dictionary, DictionaryNote { id: 0, is_ordered: false });
    // It is no part of what fields are compared by: the batch stays as it is.
    assert_eq!(back.fields, target.fields);
    target.fields[0].dictionary = DictionaryNote { id: 0, is_ordered: false };
    let kept = adapt_batch_to_schema(&adapted, &target).unwrap();
    assert_eq!(kept.batch.schema().field(0).dict_is_ordered(), Some(true));

    let names = vec!["a".to_string(), "c".to_string()];
    let picked = project_batch_by_names(adapted, Some(names.as_slice())).unwrap();
    assert_eq!(schema_of(&picked).fields[1].dictionary, DictionaryNote { id: 7, is_ordered: true });

    // Agreeing schemas keep what the first says, others say nothing.
    let one = schema_of(&picked);
    assert_eq!(
        reconcile_schemas(&[one.clone(), target.clone()]).fields[1].dictionary,
        DictionaryNote { id: 0, is_ordered: false }
    );
    let same = reconcile_schemas(&[one.clone(), one]);
    assert_eq!(same.fields[1].dictionary, DictionaryNote { id: 7, is_ordered: true });
}

#[test]
fn batches_without_columns_gain_them() {
    let options = arrow_array::RecordBatchOptions::new().with_row_count(Some(3));
    let bare = arrow_schema::Schema::empty();
    let bare = RecordBatch::try_new_with_options(Arc::new(bare), vec![], &options).unwrap();
    let target = schema(&[("n", ColumnType::Int64, true), ("s", ColumnType::Utf8, true)]);
    let adapted = adapt_batch_to_schema(&Batch { batch: bare }, &target).unwrap();
    assert_eq!(rows_of(&adapted), 3);
    assert_eq!(adapted.batch.column(0).null_count(), 3);
    assert_eq!(adapted.batch.column(1).null_count(), 3);
}

#[test]
fn nulls_of_any_column_come_first() {
    let coded: arrow_array::DictionaryArray<arrow_array::types::Int8Type> =
        vec![Some("b"), None, Some("a")].into_iter().collect();
    let decimals = arrow_array::Decimal256Array::from(vec![
        Some(arrow::datatypes::i256::from_i128(5)),
        None,
        Some(arrow::datatypes::i256::from_i128(-5)),
    ]);
    let bytes = vec![Some([2, 0]), None, Some([1, 9])];
    let bytes = arrow_array::FixedSizeBinaryArray::try_from_sparse_iter_with_size(
        bytes.into_iter(),
        2,
    );
    let lists = arrow_array::ListArray::from_iter_primitive::<arrow_array::types::Int32Type, _, _>(
        vec![Some(vec![Some(2)]), None, Some(vec![])],
    );
    let sized = arrow_array::FixedSizeListArray::from_iter_primitive::<
        arrow_array::types::Int32Type,
        _,
        _,
    >(vec![Some(vec![Some(2)]), None, Some(vec![None])], 1);
    let pairs = arrow_array::StructArray::new(
        vec![Field::new("x", DataType::Int32, true)].into(),
        vec![Arc::new(Int32Array::from(vec![Some(2), Some(1), None])) as ArrayRef],
        Some(vec![true, false, true].into()),
    );
    let arrays: Vec<ArrayRef> = vec![
        Arc::new(coded),
        Arc::new(decimals),
        Arc::new(bytes.unwrap()),
        Arc::new(lists),
        Arc::new(sized),
        Arc::new(pairs),
        Arc::new(Float64Array::from(vec![Some(0.5), None, Some(-0.5)])),
        Arc::new(arrow_array::Date64Array::from(vec![Some(5), None, Some(-5)])),
        Arc::new(arrow_array::DurationSecondArray::from(vec![Some(5), None, Some(-5)])),
    ];
    for array in arrays {
        let columns = columns_of(vec![array]);
        let sorted = lexsort_to_indices_if_sortable(&columns, false).unwrap();
        assert_eq!(sorted.array.values(), &[1, 2, 0]);
        let sorted = lexsort_to_indices_if_sortable(&columns, true).unwrap();
        assert_eq!(sorted.array.values(), &[0, 2, 1]);
    }
}

#[test]
fn values_of_many_types_are_sorted_by() {
    let arrays: Vec<ArrayRef> = vec![
        Arc::new(arrow_array::BooleanArray::from(vec![Some(true), None, Some(false)])),
        Arc::new(UInt64Array::from(vec![Some(u64::MAX), None, Some(3)])),
        Arc::new(arrow_array::Int8Array::from(vec![Some(5), None, Some(-5)])),
        Arc::new(arrow_array::Date32Array::from(vec![Some(1), None, Some(-1)])),
        Arc::new(arrow_array::TimestampSecondArray::from(vec![Some(7), None, Some(-7)])),
        Arc::new(arrow_array::LargeStringArray::from(vec![Some("ab"), None, Some("a")])),
        Arc::new(arrow_array::StringViewArray::from(vec![Some("b"), None, Some("")])),
        Arc::new(arrow_array::BinaryArray::from(vec![
            Some([0xff].as_slice()),
            None,
            Some([0].as_slice()),
        ])),
    ];
    for array in arrays {
        let columns = columns_of(vec![array]);
        assert_eq!(lexsort_to_indices(&columns, false).array.values(), &[1, 2, 0]);
        assert_eq!(lexsort_to_indices(&columns, true).array.values(), &[0, 2, 1]);
    }
}

#[test]
fn integers_keep_their_values_where_they_fit() {
    let wide = schema(&[("n", ColumnType::Int64, true)]);
    let values = Int64Array::from(vec![Some(255), Some(256), None, Some(-1), Some(0)]);
    let batch = batch_of(&wide, vec![Arc::new(values) as ArrayRef]);
    let narrow = schema(&[("n", ColumnType::UInt8, true)]);
    let adapted = adapt_batch_to_schema(&batch, &narrow).unwrap().batch;
    let n = adapted.column(0).as_any().downcast_ref::<UInt8Array>().unwrap();
    assert_eq!(n, &UInt8Array::from(vec![Some(255), None, None, None, Some(0)]));
}
