use arrow_array::cast::AsArray;
use arrow_array::types::{
    Date32Type, Date64Type, DurationSecondType, Int32Type, Int64Type, Int8Type,
    Time32MillisecondType, Time64NanosecondType, TimestampMicrosecondType, UInt64Type,
};
use arrow_array::{Array, ArrayRef};
use arrow_schema::{DataType, TimeUnit};
use hudi_core::schema::ColumnType;
use hudi_core::stat_columns::stat_column;
use hudi_core::statistics::StatValue;

fn array(value: StatValue, data_type: DataType) -> Option<ArrayRef> {
    let made = stat_column(&value, &ColumnType::from_arrow(&data_type)).map(|c| c.array);
    if let Some(a) = &made {
        assert_eq!(a.data_type(), &data_type);
        assert_eq!(a.len(), 1);
        assert_eq!(a.null_count(), 0);
    }
    made
}

#[test]
fn integers_as_columns() {
    let a = array(StatValue::Int32(-7), DataType::Int32).unwrap();
    assert_eq!(a.as_primitive::<Int32Type>().value(0), -7);
    let a = array(StatValue::Int32(-7), DataType::Int64).unwrap();
    assert_eq!(a.as_primitive::<Int64Type>().value(0), -7);
    let a = array(StatValue::Int64(-7), DataType::Int64).unwrap();
    assert_eq!(a.as_primitive::<Int64Type>().value(0), -7);
    let a = array(StatValue::Int64(7), DataType::Int32).unwrap();
    assert_eq!(a.as_primitive::<Int32Type>().value(0), 7);
    let a = array(StatValue::Int64(-128), DataType::Int8).unwrap();
    assert_eq!(a.as_primitive::<Int8Type>().value(0), -128);
    let a = array(StatValue::Int64(i64::MAX), DataType::UInt64).unwrap();
    assert_eq!(a.as_primitive::<UInt64Type>().value(0), i64::MAX as u64);
    assert!(array(StatValue::Int64(128), DataType::Int8).is_none());
    assert!(array(StatValue::Int32(-1), DataType::UInt64).is_none());
}

#[test]
fn days_and_times_as_columns() {
    let a = array(StatValue::Int32(19000), DataType::Date32).unwrap();
    assert_eq!(a.as_primitive::<Date32Type>().value(0), 19000);
    let a = array(StatValue::Int32(5), DataType::Time32(TimeUnit::Millisecond)).unwrap();
    assert_eq!(a.as_primitive::<Time32MillisecondType>().value(0), 5);
    let a = array(StatValue::Int64(6), DataType::Time64(TimeUnit::Nanosecond)).unwrap();
    assert_eq!(a.as_primitive::<Time64NanosecondType>().value(0), 6);
    for zone in [None, Some("UTC".into())] {
        let t = DataType::Timestamp(TimeUnit::Microsecond, zone);
        let a = array(StatValue::Int64(1_700_000_000_000_000), t).unwrap();
        let times = a.as_primitive::<TimestampMicrosecondType>();
        assert_eq!(times.value(0), 1_700_000_000_000_000);
    }
    let a = array(StatValue::Int64(86_400_000), DataType::Date64).unwrap();
    assert_eq!(a.as_primitive::<Date64Type>().value(0), 86_400_000);
    let a = array(StatValue::Int64(-8), DataType::Duration(TimeUnit::Second)).unwrap();
    assert_eq!(a.as_primitive::<DurationSecondType>().value(0), -8);
    assert!(array(StatValue::Int64(1), DataType::Date32).is_none());
    assert!(array(StatValue::Int32(1), DataType::Time64(TimeUnit::Nanosecond)).is_none());
}

#[test]
fn texts_and_bytes_as_columns() {
    let bytes = || StatValue::Bytes("h\u{e9}".as_bytes().to_vec());
    let a = array(bytes(), DataType::Utf8).unwrap();
    assert_eq!(a.as_string::<i32>().value(0), "h\u{e9}");
    let a = array(bytes(), DataType::LargeUtf8).unwrap();
    assert_eq!(a.as_string::<i64>().value(0), "h\u{e9}");
    let a = array(bytes(), DataType::Utf8View).unwrap();
    assert_eq!(a.as_string_view().value(0), "h\u{e9}");
    let odd = || StatValue::Bytes(vec![0xff, 0]);
    let a = array(odd(), DataType::Binary).unwrap();
    assert_eq!(a.as_binary::<i32>().value(0), [0xff, 0]);
    let a = array(odd(), DataType::LargeBinary).unwrap();
    assert_eq!(a.as_binary::<i64>().value(0), [0xff, 0]);
    let a = array(odd(), DataType::BinaryView).unwrap();
    assert_eq!(a.as_binary_view().value(0), [0xff, 0]);
    assert!(array(odd(), DataType::Utf8).is_none());
    let a = array(odd(), DataType::FixedSizeBinary(2)).unwrap();
    assert_eq!(a.as_fixed_size_binary().value(0), [0xff, 0]);
    assert!(array(odd(), DataType::FixedSizeBinary(3)).is_none());
}

#[test]
fn booleans_as_columns() {
    let a = array(StatValue::Boolean(true), DataType::Boolean).unwrap();
    assert!(a.as_boolean().value(0));
    let a = array(StatValue::Boolean(false), DataType::Boolean).unwrap();
    assert!(!a.as_boolean().value(0));
    assert!(array(StatValue::Boolean(true), DataType::Int32).is_none());
}

#[test]
fn other_values_are_no_columns_here() {
    assert!(array(StatValue::Float64(1.5f64.to_bits()), DataType::Float64).is_none());
    assert!(array(StatValue::Int32(1), DataType::Decimal128(10, 2)).is_none());
}
