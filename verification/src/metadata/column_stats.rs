//! Decoding of the `column_stats` and `partition_stats` partitions of the metadata table.
//!
//! They hold minimum and maximum of each column as Avro records, per data file or per partition.
//! A record carries its payload in the field `ColumnStatsMetadata`:
//! - `fileName`, the data file (or the partition) that is described,
//! - `columnName`, the column that is described,
//! - `minValue` and `maxValue`, unions of type wrappers such as `IntWrapper { value }`,
//! - `nullCount`, `valueCount` and the tombstone flag `isDeleted`.

use vstd::prelude::*;
use vstd::string::*;
use crate::avro::{
    as_bool, as_long, as_record, as_string, datum_of, datum_view, decode_avro_value, extract_bool,
    extract_long, extract_record, extract_string, extract_wrapped_scalar, field_named, fields_view,
    find_field, first_field_is_found, has_no_field, is_decode_error, is_first_field, record_view,
    unwrapped, unwrapped_is_no_union, wrapped_scalar, AvroValue, AvroView,
};
use crate::avro_schema::{is_decodable, schema_shape};
use crate::error::CoreError;
use crate::named::NamedMap;
use crate::schema::{
    field_views, is_bytes, is_decimal, is_float, is_integer, is_numeric, is_text, ColumnType,
    FieldDef, FieldView, SchemaDef,
};
use crate::statistics::{
    is_value_of, stat_view, statistics_of, ColumnStatistics, ColumnStatisticsView, StatValue, StatView,
    StatisticsContainer, StatsGranularity,
};
use crate::text::same_text;
use crate::type_shape::{is_long_time, is_short_time, shape_of, TypeShape};

verus! {

/// The partition of the metadata table that holds column statistics per data file.
pub const COLUMN_STATS_PARTITION_NAME: &'static str = "column_stats";

/// The partition of the metadata table that holds column statistics per partition.
pub const PARTITION_STATS_PARTITION_NAME: &'static str = "partition_stats";

/// A key and a value of an HFile.
#[derive(Debug)]
pub struct HFileRecord {
    pub key: Vec<u8>,
    pub value: Vec<u8>,
}

impl HFileRecord {
    /// A record with the given key and value.
    pub fn new(key: Vec<u8>, value: Vec<u8>) -> (r: HFileRecord)
        ensures
            r.key == key,
            r.value == value,
    {
        HFileRecord { key, value }
    }

    /// The value of the record.
    pub fn value(&self) -> (r: &[u8])
        ensures
            r@ == self.value@,
    {
        self.value.as_slice()
    }
}

/// The statistics of one column of one data file, or of one partition.
#[derive(Debug, PartialEq)]
pub struct ColumnStatsRecord {
    /// The data file, or the partition, that is described.
    pub file_name: String,
    /// The column that is described.
    pub column_name: String,
    /// The smallest value, out of its type wrapper.
    pub min_value: Option<AvroValue>,
    /// The largest value, out of its type wrapper.
    pub max_value: Option<AvroValue>,
    /// The number of nulls, where it is recorded.
    pub null_count: Option<i64>,
    /// The number of values, nulls among them, where it is recorded.
    pub value_count: Option<i64>,
    /// Whether the statistics are deleted.
    pub is_deleted: bool,
}

/// What a [`ColumnStatsRecord`] stands for.
pub struct ColumnStatsView {
    pub file_name: Seq<char>,
    pub column_name: Seq<char>,
    pub min_value: Option<AvroView>,
    pub max_value: Option<AvroView>,
    pub null_count: Option<i64>,
    pub value_count: Option<i64>,
    pub is_deleted: bool,
}

/// What an optional scalar stands for.
pub open spec fn scalar_view(v: Option<AvroValue>) -> Option<AvroView> {
    match v {
        Some(v) => Some(v@),
        None => None,
    }
}

impl ColumnStatsRecord {
    pub open spec fn view(&self) -> ColumnStatsView {
        ColumnStatsView {
            file_name: self.file_name@,
            column_name: self.column_name@,
            min_value: scalar_view(self.min_value),
            max_value: scalar_view(self.max_value),
            null_count: self.null_count,
            value_count: self.value_count,
            is_deleted: self.is_deleted,
        }
    }
}

fn clone_scalar(v: &Option<AvroValue>) -> (r: Option<AvroValue>)
    ensures
        scalar_view(r) == scalar_view(*v),
{
    match v {
        Some(v) => Some(v.clone()),
        None => None,
    }
}

impl Clone for ColumnStatsRecord {
    fn clone(&self) -> (r: Self)
        ensures
            r@ == self@,
    {
        ColumnStatsRecord {
            file_name: self.file_name.clone(),
            column_name: self.column_name.clone(),
            min_value: clone_scalar(&self.min_value),
            max_value: clone_scalar(&self.max_value),
            null_count: self.null_count,
            value_count: self.value_count,
            is_deleted: self.is_deleted,
        }
    }
}

/// The text of the first field called `name`; no text where there is none.
pub open spec fn text_field(fields: Seq<(Seq<char>, AvroView)>, name: Seq<char>) -> Seq<char> {
    match field_named(fields, name) {
        Some(v) => match as_string(v) {
            Some(s) => s,
            None => Seq::empty(),
        },
        None => Seq::empty(),
    }
}

/// The number in the first field called `name`.
pub open spec fn long_field(fields: Seq<(Seq<char>, AvroView)>, name: Seq<char>) -> Option<i64> {
    match field_named(fields, name) {
        Some(v) => as_long(v),
        None => None,
    }
}

/// The scalar in the first field called `name`.
pub open spec fn scalar_field(fields: Seq<(Seq<char>, AvroView)>, name: Seq<char>) -> Option<
    AvroView,
> {
    match field_named(fields, name) {
        Some(v) => wrapped_scalar(v),
        None => None,
    }
}

/// Whether the first field called `name` is true.
pub open spec fn flag_field(fields: Seq<(Seq<char>, AvroView)>, name: Seq<char>) -> bool {
    match field_named(fields, name) {
        Some(v) => as_bool(v) == Some(true),
        None => false,
    }
}

/// The fields of the payload called `name` of a metadata record.
pub open spec fn payload(v: AvroView, name: Seq<char>) -> Option<Seq<(Seq<char>, AvroView)>> {
    match v {
        AvroView::Record(top) => match field_named(top, name) {
            Some(p) => as_record(p),
            None => None,
        },
        _ => None,
    }
}

/// The column statistics that a metadata record carries.
pub open spec fn column_stats_in(v: AvroView) -> Option<ColumnStatsView> {
    match payload(v, "ColumnStatsMetadata"@) {
        Some(fields) => Some(
            ColumnStatsView {
                file_name: text_field(fields, "fileName"@),
                column_name: text_field(fields, "columnName"@),
                min_value: scalar_field(fields, "minValue"@),
                max_value: scalar_field(fields, "maxValue"@),
                null_count: long_field(fields, "nullCount"@),
                value_count: long_field(fields, "valueCount"@),
                is_deleted: flag_field(fields, "isDeleted"@),
            },
        ),
        None => None,
    }
}

/// Reads a text field; no text where it is absent.
pub fn read_text(fields: &Vec<(String, AvroValue)>, name: &str) -> (r: String)
    ensures
        r@ == text_field(fields_view(fields@), name@),
{
    if let Some(v) = find_field(fields, name) {
        if let Some(s) = extract_string(v) {
            return s;
        }
    }
    String::new()
}

/// Reads a number field.
pub fn read_long(fields: &Vec<(String, AvroValue)>, name: &str) -> (r: Option<i64>)
    ensures
        r == long_field(fields_view(fields@), name@),
{
    match find_field(fields, name) {
        Some(v) => extract_long(v),
        None => None,
    }
}

fn read_scalar(fields: &Vec<(String, AvroValue)>, name: &str) -> (r: Option<AvroValue>)
    ensures
        scalar_view(r) == scalar_field(fields_view(fields@), name@),
{
    match find_field(fields, name) {
        Some(v) => extract_wrapped_scalar(v),
        None => None,
    }
}

fn read_flag(fields: &Vec<(String, AvroValue)>, name: &str) -> (r: bool)
    ensures
        r == flag_field(fields_view(fields@), name@),
{
    match find_field(fields, name) {
        Some(v) => match extract_bool(v) {
            Some(b) => b,
            None => false,
        },
        None => false,
    }
}

/// The fields of the payload called `name` of a metadata record.
pub fn find_payload<'a>(value: &'a AvroValue, name: &str) -> (r: Option<
    &'a Vec<(String, AvroValue)>,
>)
    ensures
        match r {
            Some(fields) => payload(value@, name@) == Some(fields_view(fields@)),
            None => payload(value@, name@) is None,
        },
{
    match value {
        AvroValue::Record(top) => {
            proof {
                record_view(*top);
            }
            match find_field(top, name) {
                Some(p) => extract_record(p),
                None => None,
            }
        },
        _ => None,
    }
}

/// Reads the column statistics of a decoded metadata record. `None` where it is no record or
/// carries no such payload.
pub fn column_stats_from_value(value: &AvroValue) -> (r: Option<ColumnStatsRecord>)
    ensures
        match r {
            Some(record) => column_stats_in(value@) == Some(record@),
            None => column_stats_in(value@) is None,
        },
{
    match find_payload(value, "ColumnStatsMetadata") {
        Some(fields) => Some(
            ColumnStatsRecord {
                file_name: read_text(fields, "fileName"),
                column_name: read_text(fields, "columnName"),
                min_value: read_scalar(fields, "minValue"),
                max_value: read_scalar(fields, "maxValue"),
                null_count: read_long(fields, "nullCount"),
                value_count: read_long(fields, "valueCount"),
                is_deleted: read_flag(fields, "isDeleted"),
            },
        ),
        None => None,
    }
}

/// The column statistics that a stored value carries: none in an empty value, which is a
/// tombstone.
pub open spec fn stored_column_stats(schema: apache_avro::Schema, bytes: Seq<u8>) -> Option<
    ColumnStatsView,
> {
    if bytes.len() == 0 {
        None
    } else {
        column_stats_in(datum_view(datum_of(schema, bytes)))
    }
}

/// Decodes the value of a `column_stats` record.
///
/// `Ok(None)` for a tombstone (an empty value) and for a record without the payload. A schema
/// whose values have no end is an error, if the value can lead there.
pub fn decode_column_stats_record_with_schema(
    record: &HFileRecord,
    schema: &apache_avro::Schema,
) -> (r: Result<Option<ColumnStatsRecord>, CoreError>)
    ensures
        record.value@.len() == 0 ==> r matches Ok(None),
        record.value@.len() > 0 && !is_decodable(schema_shape(*schema), record.value@) ==> r is Err,
        match r {
            Ok(Some(stats)) => stored_column_stats(*schema, record.value@) == Some(stats@),
            Ok(None) => stored_column_stats(*schema, record.value@) is None,
            Err(e) => is_decode_error(*schema, record.value@, e),
        },
{
    let value: &[u8] = record.value();
    if value.len() == 0 {
        return Ok(None);
    }
    match decode_avro_value(value, schema) {
        Ok(avro_value) => Ok(column_stats_from_value(&avro_value)),
        Err(e) => Err(e),
    }
}

/// What a scalar is as a statistic, before the type of its column is asked. Nulls and compound
/// values are none. A single precision number is widened for a double precision column.
pub open spec fn plain_statistic(scalar: AvroView, data_type: ColumnType) -> Option<StatView> {
    match scalar {
        AvroView::Boolean(b) => Some(StatView::Boolean(b)),
        AvroView::Int(n) => Some(StatView::Int32(n)),
        AvroView::Date(n) => Some(StatView::Int32(n)),
        AvroView::TimeMillis(n) => Some(StatView::Int32(n)),
        AvroView::Long(n) => Some(StatView::Int64(n)),
        AvroView::TimeMicros(n) => Some(StatView::Int64(n)),
        AvroView::TimestampMillis(n) => Some(StatView::Int64(n)),
        AvroView::TimestampMicros(n) => Some(StatView::Int64(n)),
        AvroView::Float(bits) => if data_type is Float64 {
            Some(StatView::Float32AsFloat64(bits))
        } else {
            Some(StatView::Float32(bits))
        },
        AvroView::Double(bits) => Some(StatView::Float64(bits)),
        AvroView::String(s) => Some(StatView::Bytes(vstd::utf8::encode_utf8(s))),
        AvroView::Bytes(b) => Some(StatView::Bytes(b)),
        AvroView::Fixed(_, b) => Some(StatView::Bytes(b)),
        _ => None,
    }
}

/// The statistic that a scalar is for a column of the given type, if it is a value of that type.
///
/// The type of the column decides, not the kind of the scalar. Decimals and other types that are
/// not supported give no statistic, which only means that nothing is skipped.
pub open spec fn statistic_of(scalar: AvroView, data_type: ColumnType) -> Option<StatView> {
    match plain_statistic(scalar, data_type) {
        Some(v) => if is_value_of(v, data_type) {
            Some(v)
        } else {
            None
        },
        None => None,
    }
}

/// A statistic is a value of the type of its column.
pub proof fn statistic_has_column_type(scalar: AvroView, data_type: ColumnType)
    ensures
        statistic_of(scalar, data_type) matches Some(v) ==> is_value_of(v, data_type),
{
}

/// Decimals have no statistics.
pub proof fn decimals_have_no_statistic(scalar: AvroView, data_type: ColumnType)
    requires
        is_decimal(data_type),
    ensures
        statistic_of(scalar, data_type) is None,
{
}

fn owned_bytes(b: &[u8]) -> (r: Vec<u8>)
    ensures
        r@ == b@,
{
    let mut r: Vec<u8> = Vec::new();
    let mut i: usize = 0;
    while i < b.len()
        invariant
            i <= b@.len(),
            r@ =~= b@.take(i as int),
        decreases b@.len() - i,
    {
        r.push(b[i]);
        i += 1;
    }
    r
}

fn to_plain_statistic(scalar: &AvroValue, data_type: &ColumnType) -> (r: Option<StatValue>)
    ensures
        stat_view(r) == plain_statistic(scalar@, *data_type),
{
    match scalar {
        AvroValue::Boolean(b) => Some(StatValue::Boolean(*b)),
        AvroValue::Int(n) => Some(StatValue::Int32(*n)),
        AvroValue::Date(n) => Some(StatValue::Int32(*n)),
        AvroValue::TimeMillis(n) => Some(StatValue::Int32(*n)),
        AvroValue::Long(n) => Some(StatValue::Int64(*n)),
        AvroValue::TimeMicros(n) => Some(StatValue::Int64(*n)),
        AvroValue::TimestampMillis(n) => Some(StatValue::Int64(*n)),
        AvroValue::TimestampMicros(n) => Some(StatValue::Int64(*n)),
        AvroValue::Float(bits) => match data_type {
            ColumnType::Float64 => Some(StatValue::Float32AsFloat64(*bits)),
            _ => Some(StatValue::Float32(*bits)),
        },
        AvroValue::Double(bits) => Some(StatValue::Float64(*bits)),
        AvroValue::String(s) => Some(StatValue::Bytes(owned_bytes(s.as_str().as_bytes()))),
        AvroValue::Bytes(b) => Some(StatValue::Bytes(owned_bytes(b.as_slice()))),
        AvroValue::Fixed(_, b) => Some(StatValue::Bytes(owned_bytes(b.as_slice()))),
        _ => None,
    }
}

/// The minimum or maximum that a scalar is, for a column of the given type.
pub fn avro_scalar_to_array(scalar: &AvroValue, data_type: &ColumnType) -> (r: Option<StatValue>)
    ensures
        stat_view(r) == statistic_of(scalar@, *data_type),
        r matches Some(v) ==> is_value_of(v@, *data_type),
        is_decimal(*data_type) ==> r is None,
{
    match to_plain_statistic(scalar, data_type) {
        Some(v) => if v.is_of(data_type) {
            Some(v)
        } else {
            None
        },
        None => None,
    }
}

/// The type of the column called `name`; of several such columns, the last one counts.
pub open spec fn type_of_column(fields: Seq<FieldView>, name: Seq<char>) -> Option<ColumnType>
    decreases fields.len(),
{
    if fields.len() == 0 {
        None
    } else if fields.last().name == name {
        Some(fields.last().data_type)
    } else {
        type_of_column(fields.drop_last(), name)
    }
}

/// Whether a record says something of a table with the given columns: it is no tombstone and
/// its column is there.
pub open spec fn counts(record: ColumnStatsView, fields: Seq<FieldView>) -> bool {
    !record.is_deleted && type_of_column(fields, record.column_name) is Some
}

/// The statistics that a record gives for a column of the given type.
pub open spec fn column_statistics(record: ColumnStatsView, data_type: ColumnType) ->
    ColumnStatisticsView {
    ColumnStatisticsView {
        column_name: record.column_name,
        data_type,
        min_value: match record.min_value {
            Some(v) => statistic_of(v, data_type),
            None => None,
        },
        max_value: match record.max_value {
            Some(v) => statistic_of(v, data_type),
            None => None,
        },
    }
}

/// The statistics that the records give for a column of a subject: those of the last record
/// that says something of both.
pub open spec fn recorded_statistics(
    records: Seq<ColumnStatsView>,
    fields: Seq<FieldView>,
    subject: Seq<char>,
    column: Seq<char>,
) -> Option<ColumnStatisticsView>
    decreases records.len(),
{
    if records.len() == 0 {
        None
    } else if counts(records.last(), fields) && records.last().file_name == subject
        && records.last().column_name == column {
        Some(column_statistics(records.last(), type_of_column(fields, column)->0))
    } else {
        recorded_statistics(records.drop_last(), fields, subject, column)
    }
}

/// Whether some record says something of a subject.
pub open spec fn is_described(
    records: Seq<ColumnStatsView>,
    fields: Seq<FieldView>,
    subject: Seq<char>,
) -> bool {
    exists|i: int|
        0 <= i < records.len() && counts(#[trigger] records[i], fields) && records[i].file_name
            == subject
}

/// What a list of records stands for.
pub open spec fn record_views(records: Seq<ColumnStatsRecord>) -> Seq<ColumnStatsView> {
    records.map_values(|r: ColumnStatsRecord| r@)
}

/// Whether the containers hold the statistics of the records, and nothing else.
pub open spec fn containers_hold(
    containers: Map<Seq<char>, StatisticsContainer>,
    records: Seq<ColumnStatsView>,
    fields: Seq<FieldView>,
) -> bool {
    &&& forall|subject: Seq<char>|
        #[trigger] containers.contains_key(subject) <==> is_described(records, fields, subject)
    &&& forall|subject: Seq<char>| #[trigger]
        containers.contains_key(subject) ==> containers[subject].granularity
            == StatsGranularity::File
    &&& forall|subject: Seq<char>, column: Seq<char>|
        #[trigger] statistics_of(containers, subject, column) == recorded_statistics(
            records,
            fields,
            subject,
            column,
        )
}

fn find_type<'a>(fields: &'a Vec<FieldDef>, name: &str) -> (r: Option<&'a ColumnType>)
    ensures
        match r {
            Some(t) => type_of_column(field_views(fields@), name@) == Some(*t),
            None => type_of_column(field_views(fields@), name@) is None,
        },
{
    let ghost all = field_views(fields@);
    let mut i: usize = fields.len();
    assert(all.take(i as int) =~= all);
    while i > 0
        invariant
            all == field_views(fields@),
            i <= fields@.len(),
            type_of_column(all.take(i as int), name@) == type_of_column(all, name@),
        decreases i,
    {
        assert(all.take(i as int).drop_last() =~= all.take(i - 1));
        assert(all.take(i as int).last() == all[i - 1]);
        if same_text(fields[i - 1].name.as_str(), name) {
            return Some(&fields[i - 1].data_type);
        }
        i -= 1;
    }
    None
}

fn as_statistic(scalar: &Option<AvroValue>, data_type: &ColumnType) -> (r: Option<StatValue>)
    ensures
        stat_view(r) == match scalar_view(*scalar) {
            Some(v) => statistic_of(v, *data_type),
            None => None,
        },
{
    match scalar {
        Some(v) => avro_scalar_to_array(v, data_type),
        None => None,
    }
}

/// Groups column statistics by their subject: the data file for `column_stats`, the partition
/// for `partition_stats`.
///
/// Tombstones and records of columns that `schema` does not have are passed over; a later record
/// of the same subject and column replaces an earlier one.
pub fn column_stats_to_containers(records: &[ColumnStatsRecord], schema: &SchemaDef) -> (r:
    NamedMap<StatisticsContainer>)
    ensures
        containers_hold(r@, record_views(records@), schema@.fields),
{
    let ghost all = record_views(records@);
    let ghost fields = schema@.fields;
    let mut out: NamedMap<StatisticsContainer> = NamedMap::new();
    let mut i: usize = 0;
    assert(containers_hold(out@, all.take(0), fields));
    while i < records.len()
        invariant
            all == record_views(records@),
            fields == schema@.fields,
            i <= records@.len(),
            containers_hold(out@, all.take(i as int), fields),
        decreases records@.len() - i,
    {
        let record: &ColumnStatsRecord = &records[i];
        let ghost before = out@;
        let ghost seen = all.take(i as int);
        let ghost more = all.take(i + 1);
        proof {
            assert(more.drop_last() =~= seen);
            assert(more.last() == record@);
            described_next(seen, record@, fields);
            assert(seen.push(record@) =~= more);
        }
        if !record.is_deleted {
            if let Some(data_type) = find_type(&schema.fields, record.column_name.as_str()) {
                let mut container: StatisticsContainer = match out.remove(
                    record.file_name.as_str(),
                ) {
                    Some(c) => c,
                    None => StatisticsContainer::new(StatsGranularity::File),
                };
                let stats: ColumnStatistics = ColumnStatistics {
                    column_name: record.column_name.clone(),
                    data_type: data_type.clone(),
                    min_value: as_statistic(&record.min_value, data_type),
                    max_value: as_statistic(&record.max_value, data_type),
                };
                assert(stats@ == column_statistics(record@, *data_type));
                container.columns.insert(record.column_name.clone(), stats);
                out.insert(record.file_name.clone(), container);
                assert forall|subject: Seq<char>, column: Seq<char>|
                    #[trigger] statistics_of(out@, subject, column) == recorded_statistics(
                        more,
                        fields,
                        subject,
                        column,
                    ) by {
                    assert(statistics_of(before, subject, column) == recorded_statistics(
                        seen,
                        fields,
                        subject,
                        column,
                    ));
                }
            }
        }
        i += 1;
    }
    assert(all.take(i as int) =~= all);
    out
}

proof fn described_next(seen: Seq<ColumnStatsView>, next: ColumnStatsView, fields: Seq<FieldView>)
    ensures
        forall|subject: Seq<char>| #[trigger]
            is_described(seen.push(next), fields, subject) <==> is_described(seen, fields, subject)
                || (counts(next, fields) && next.file_name == subject),
{
    let more = seen.push(next);
    assert forall|subject: Seq<char>| #[trigger]
        is_described(more, fields, subject) <==> is_described(seen, fields, subject) || (counts(
            next,
            fields,
        ) && next.file_name == subject) by {
        if is_described(seen, fields, subject) {
            let i = choose|i: int|
                0 <= i < seen.len() && counts(#[trigger] seen[i], fields) && seen[i].file_name
                    == subject;
            assert(more[i] == seen[i]);
        }
        if is_described(more, fields, subject) {
            let i = choose|i: int|
                0 <= i < more.len() && counts(#[trigger] more[i], fields) && more[i].file_name
                    == subject;
            if i < seen.len() {
                assert(more[i] == seen[i]);
            }
        }
        assert(more[seen.len() as int] == next);
    }
}

/// Statistics are only given for columns of the table, and typed as the table has them: minimum
/// and maximum are values of the type of the column.
pub proof fn statistics_are_typed(
    records: Seq<ColumnStatsView>,
    fields: Seq<FieldView>,
    subject: Seq<char>,
    column: Seq<char>,
)
    ensures
        recorded_statistics(records, fields, subject, column) matches Some(stats)
            ==> {
            &&& type_of_column(fields, column) == Some(stats.data_type)
            &&& stats.column_name == column
            &&& stats.min_value matches Some(v) ==> is_value_of(v, stats.data_type)
            &&& stats.max_value matches Some(v) ==> is_value_of(v, stats.data_type)
        },
    decreases records.len(),
{
    if records.len() > 0 {
        statistics_are_typed(records.drop_last(), fields, subject, column);
    }
}

/// A subject has statistics of some column if and only if some record says something of it.
pub proof fn described_subjects_have_statistics(
    records: Seq<ColumnStatsView>,
    fields: Seq<FieldView>,
    subject: Seq<char>,
)
    ensures
        is_described(records, fields, subject) <==> exists|column: Seq<char>|
            #[trigger] recorded_statistics(records, fields, subject, column) is Some,
    decreases records.len(),
{
    if records.len() > 0 {
        let shorter = records.drop_last();
        let last = records.last();
        described_subjects_have_statistics(shorter, fields, subject);
        described_next(shorter, last, fields);
        assert(shorter.push(last) =~= records);
        if is_described(shorter, fields, subject) {
            let column = choose|column: Seq<char>|
                #[trigger] recorded_statistics(shorter, fields, subject, column) is Some;
            assert(recorded_statistics(records, fields, subject, column) is Some);
        }
        if counts(last, fields) && last.file_name == subject {
            assert(recorded_statistics(records, fields, subject, last.column_name) is Some);
        }
        if exists|column: Seq<char>|
            #[trigger] recorded_statistics(records, fields, subject, column) is Some {
            let column = choose|column: Seq<char>|
                #[trigger] recorded_statistics(records, fields, subject, column) is Some;
            if !(counts(last, fields) && last.file_name == subject) {
                assert(recorded_statistics(shorter, fields, subject, column) is Some);
            }
        }
    } else {
        if is_described(records, fields, subject) {
            let i = choose|i: int|
                0 <= i < records.len() && counts(#[trigger] records[i], fields)
                    && records[i].file_name == subject;
        }
    }
}

/// Tombstones, and records of columns that the table does not have, make no difference wherever
/// they stand.
pub proof fn idle_records_add_nothing(
    before: Seq<ColumnStatsView>,
    idle: ColumnStatsView,
    after: Seq<ColumnStatsView>,
    fields: Seq<FieldView>,
    subject: Seq<char>,
    column: Seq<char>,
)
    requires
        !counts(idle, fields),
    ensures
        recorded_statistics(before.push(idle) + after, fields, subject, column)
            == recorded_statistics(before + after, fields, subject, column),
    decreases after.len(),
{
    if after.len() == 0 {
        assert(before.push(idle) + after =~= before.push(idle));
        assert(before + after =~= before);
        assert(before.push(idle).drop_last() =~= before);
    } else {
        let shorter = after.drop_last();
        assert((before.push(idle) + after).drop_last() =~= before.push(idle) + shorter);
        assert((before + after).drop_last() =~= before + shorter);
        idle_records_add_nothing(before, idle, shorter, fields, subject, column);
    }
}

/// A record that counts replaces what earlier records say of its subject and column.
pub proof fn latest_record_wins(
    records: Seq<ColumnStatsView>,
    last: ColumnStatsView,
    fields: Seq<FieldView>,
)
    requires
        counts(last, fields),
    ensures
        recorded_statistics(records.push(last), fields, last.file_name, last.column_name) == Some(
            column_statistics(last, type_of_column(fields, last.column_name)->0),
        ),
{
}

/// The statistics of a metadata record are read from its payload by the names of the fields: each
/// from the first field with its name, and from no other.
pub proof fn column_stats_are_read_by_name(
    top: Seq<(Seq<char>, AvroView)>,
    k: int,
    fields: Seq<(Seq<char>, AvroView)>,
)
    requires
        is_first_field(top, "ColumnStatsMetadata"@, k),
        unwrapped(top[k].1) == AvroView::Record(fields),
    ensures
        column_stats_in(AvroView::Record(top)) matches Some(c) && {
            &&& forall|a: int| #[trigger]
                is_first_field(fields, "fileName"@, a) ==> match unwrapped(fields[a].1) {
                    AvroView::String(s) => c.file_name == s,
                    _ => c.file_name.len() == 0,
                }
            &&& has_no_field(fields, "fileName"@) ==> c.file_name.len() == 0
            &&& forall|a: int| #[trigger]
                is_first_field(fields, "columnName"@, a) ==> match unwrapped(fields[a].1) {
                    AvroView::String(s) => c.column_name == s,
                    _ => c.column_name.len() == 0,
                }
            &&& has_no_field(fields, "columnName"@) ==> c.column_name.len() == 0
            &&& forall|a: int| #[trigger]
                is_first_field(fields, "minValue"@, a) ==> c.min_value == wrapped_scalar(
                    fields[a].1,
                )
            &&& has_no_field(fields, "minValue"@) ==> c.min_value is None
            &&& forall|a: int| #[trigger]
                is_first_field(fields, "maxValue"@, a) ==> c.max_value == wrapped_scalar(
                    fields[a].1,
                )
            &&& has_no_field(fields, "maxValue"@) ==> c.max_value is None
            &&& forall|a: int| #[trigger]
                is_first_field(fields, "nullCount"@, a) ==> match unwrapped(fields[a].1) {
                    AvroView::Long(n) => c.null_count == Some(n),
                    AvroView::Int(n) => c.null_count matches Some(m) && m == n,
                    _ => c.null_count is None,
                }
            &&& has_no_field(fields, "nullCount"@) ==> c.null_count is None
            &&& forall|a: int| #[trigger]
                is_first_field(fields, "valueCount"@, a) ==> match unwrapped(fields[a].1) {
                    AvroView::Long(n) => c.value_count == Some(n),
                    AvroView::Int(n) => c.value_count matches Some(m) && m == n,
                    _ => c.value_count is None,
                }
            &&& has_no_field(fields, "valueCount"@) ==> c.value_count is None
            &&& forall|a: int| #[trigger]
                is_first_field(fields, "isDeleted"@, a) ==> (c.is_deleted <==> unwrapped(
                    fields[a].1,
                ) == AvroView::Boolean(true))
            &&& has_no_field(fields, "isDeleted"@) ==> c.is_deleted == false
        },
{
    first_field_is_found(top, "ColumnStatsMetadata"@, k);
    unwrapped_is_no_union(top[k].1);
    field_is_read(fields, "fileName"@);
    field_is_read(fields, "columnName"@);
    field_is_read(fields, "minValue"@);
    field_is_read(fields, "maxValue"@);
    field_is_read(fields, "nullCount"@);
    field_is_read(fields, "valueCount"@);
    field_is_read(fields, "isDeleted"@);
}

/// A metadata record without the payload, and a value that is no record, carry no statistics.
pub proof fn no_payload_no_statistics(v: AvroView)
    requires
        v matches AvroView::Record(top) ==> has_no_field(top, "ColumnStatsMetadata"@),
    ensures
        column_stats_in(v) is None,
{
    if let AvroView::Record(top) = v {
        first_field_is_found(top, "ColumnStatsMetadata"@, 0);
    }
}

/// What is read of the fields of a payload is read of the first one with the name.
pub(crate) proof fn field_is_read(fields: Seq<(Seq<char>, AvroView)>, name: Seq<char>)
    ensures
        forall|a: int| #[trigger]
            is_first_field(fields, name, a) ==> {
                &&& match unwrapped(fields[a].1) {
                    AvroView::String(s) => text_field(fields, name) == s,
                    _ => text_field(fields, name).len() == 0,
                }
                &&& scalar_field(fields, name) == wrapped_scalar(fields[a].1)
                &&& long_field(fields, name) == match unwrapped(fields[a].1) {
                    AvroView::Long(n) => Some(n),
                    AvroView::Int(n) => Some(n as i64),
                    _ => None,
                }
                &&& (flag_field(fields, name) <==> unwrapped(fields[a].1) == AvroView::Boolean(
                    true,
                ))
            },
        has_no_field(fields, name) ==> text_field(fields, name).len() == 0 && scalar_field(
            fields,
            name,
        ) is None && long_field(fields, name) is None && !flag_field(fields, name),
{
    first_field_is_found(fields, name, 0);
    assert forall|a: int| #[trigger] is_first_field(fields, name, a) implies field_named(
        fields,
        name,
    ) == Some(unwrapped(fields[a].1)) && unwrapped(unwrapped(fields[a].1)) == unwrapped(
        fields[a].1,
    ) by {
        first_field_is_found(fields, name, a);
        unwrapped_is_no_union(fields[a].1);
    }
}

/// Minimum and maximum of a column of a subject are those of the last record of both that is no
/// tombstone, each by itself: the minimum is the recorded minimum as a value of the column, the
/// maximum is the recorded maximum as one. The type is that of the last column with the name.
pub proof fn extremes_are_the_recorded_ones(
    containers: Map<Seq<char>, StatisticsContainer>,
    records: Seq<ColumnStatsView>,
    fields: Seq<FieldView>,
    i: int,
    f: int,
)
    requires
        containers_hold(containers, records, fields),
        0 <= i < records.len(),
        !records[i].is_deleted,
        forall|j: int|
            i < j < records.len() ==> (#[trigger] records[j]).is_deleted || records[j].file_name
                != records[i].file_name || records[j].column_name != records[i].column_name,
        0 <= f < fields.len(),
        fields[f].name == records[i].column_name,
        forall|g: int|
            f < g < fields.len() ==> (#[trigger] fields[g]).name != records[i].column_name,
    ensures
        containers.contains_key(records[i].file_name),
        containers[records[i].file_name].granularity == StatsGranularity::File,
        containers[records[i].file_name].columns@.contains_key(records[i].column_name),
        ({
            let stats = containers[records[i].file_name].columns@[records[i].column_name]@;
            let t = fields[f].data_type;
            &&& stats.column_name == records[i].column_name
            &&& stats.data_type == t
            &&& stats.min_value is Some <==> records[i].min_value is Some && statistic_of(
                records[i].min_value->0,
                t,
            ) is Some
            &&& stats.min_value is Some ==> stats.min_value == statistic_of(
                records[i].min_value->0,
                t,
            )
            &&& stats.max_value is Some <==> records[i].max_value is Some && statistic_of(
                records[i].max_value->0,
                t,
            ) is Some
            &&& stats.max_value is Some ==> stats.max_value == statistic_of(
                records[i].max_value->0,
                t,
            )
        }),
{
    let subject = records[i].file_name;
    let column = records[i].column_name;
    type_of_last_column(fields, column, f);
    recorded_at(records, fields, i);
    assert(counts(records[i], fields));
    assert(is_described(records, fields, subject));
    assert(containers.contains_key(subject));
    assert(statistics_of(containers, subject, column) is Some);
}

/// Two lists of records that are the same but for the minima give every column of every subject
/// the same maximum, and two that are the same but for the maxima give it the same minimum.
pub proof fn extremes_do_not_mix(
    a: Map<Seq<char>, StatisticsContainer>,
    b: Map<Seq<char>, StatisticsContainer>,
    records: Seq<ColumnStatsView>,
    others: Seq<ColumnStatsView>,
    fields: Seq<FieldView>,
    subject: Seq<char>,
    column: Seq<char>,
)
    requires
        containers_hold(a, records, fields),
        containers_hold(b, others, fields),
        records.len() == others.len(),
        forall|i: int|
            0 <= i < records.len() ==> (#[trigger] records[i]).file_name == others[i].file_name
                && records[i].column_name == others[i].column_name && records[i].is_deleted
                == others[i].is_deleted,
    ensures
        statistics_of(a, subject, column) is Some <==> statistics_of(b, subject, column) is Some,
        (forall|i: int| 0 <= i < records.len() ==> (#[trigger] records[i]).max_value
            == others[i].max_value) && statistics_of(a, subject, column) is Some
            ==> statistics_of(a, subject, column)->0.max_value == statistics_of(
            b,
            subject,
            column,
        )->0.max_value,
        (forall|i: int| 0 <= i < records.len() ==> (#[trigger] records[i]).min_value
            == others[i].min_value) && statistics_of(a, subject, column) is Some
            ==> statistics_of(a, subject, column)->0.min_value == statistics_of(
            b,
            subject,
            column,
        )->0.min_value,
{
    recorded_alike(records, others, fields, subject, column);
}

proof fn recorded_alike(
    records: Seq<ColumnStatsView>,
    others: Seq<ColumnStatsView>,
    fields: Seq<FieldView>,
    subject: Seq<char>,
    column: Seq<char>,
)
    requires
        records.len() == others.len(),
        forall|i: int|
            0 <= i < records.len() ==> (#[trigger] records[i]).file_name == others[i].file_name
                && records[i].column_name == others[i].column_name && records[i].is_deleted
                == others[i].is_deleted,
    ensures
        recorded_statistics(records, fields, subject, column) is Some <==> recorded_statistics(
            others,
            fields,
            subject,
            column,
        ) is Some,
        (forall|i: int| 0 <= i < records.len() ==> (#[trigger] records[i]).max_value
            == others[i].max_value) && recorded_statistics(records, fields, subject, column) is Some
            ==> recorded_statistics(records, fields, subject, column)->0.max_value
            == recorded_statistics(others, fields, subject, column)->0.max_value,
        (forall|i: int| 0 <= i < records.len() ==> (#[trigger] records[i]).min_value
            == others[i].min_value) && recorded_statistics(records, fields, subject, column) is Some
            ==> recorded_statistics(records, fields, subject, column)->0.min_value
            == recorded_statistics(others, fields, subject, column)->0.min_value,
    decreases records.len(),
{
    if records.len() > 0 {
        let r = records.drop_last();
        let o = others.drop_last();
        assert(records[records.len() - 1] == records.last());
        assert forall|i: int| 0 <= i < r.len() implies #[trigger] r[i] == records[i] && o[i]
            == others[i] by {}
        assert forall|i: int| 0 <= i < r.len() implies (#[trigger] r[i]).file_name
            == o[i].file_name && r[i].column_name == o[i].column_name && r[i].is_deleted
            == o[i].is_deleted by {
            assert(r[i] == records[i]);
        }
        recorded_alike(r, o, fields, subject, column);
    }
}

/// A subject has no container, and a column of it no statistics, but for a record of it that is
/// no tombstone and whose column the table has.
pub proof fn statistics_are_of_records(
    containers: Map<Seq<char>, StatisticsContainer>,
    records: Seq<ColumnStatsView>,
    fields: Seq<FieldView>,
    subject: Seq<char>,
    column: Seq<char>,
)
    requires
        containers_hold(containers, records, fields),
    ensures
        containers.contains_key(subject) <==> exists|i: int, f: int|
            0 <= i < records.len() && 0 <= f < fields.len() && (#[trigger] records[i]).file_name
                == subject && !records[i].is_deleted && (#[trigger] fields[f]).name
                == records[i].column_name,
        containers.contains_key(subject) && containers[subject].columns@.contains_key(column)
            <==> exists|i: int, f: int|
            0 <= i < records.len() && 0 <= f < fields.len() && (#[trigger] records[i]).file_name
                == subject && !records[i].is_deleted && records[i].column_name == column && (
            #[trigger] fields[f]).name == column,
{
    if containers.contains_key(subject) {
        let i = choose|i: int|
            0 <= i < records.len() && counts(#[trigger] records[i], fields) && records[i].file_name
                == subject;
        column_is_there(fields, records[i].column_name);
    }
    if exists|i: int, f: int|
        0 <= i < records.len() && 0 <= f < fields.len() && (#[trigger] records[i]).file_name
            == subject && !records[i].is_deleted && (#[trigger] fields[f]).name
            == records[i].column_name {
        let (i, f) = choose|i: int, f: int|
            0 <= i < records.len() && 0 <= f < fields.len() && (#[trigger] records[i]).file_name
                == subject && !records[i].is_deleted && (#[trigger] fields[f]).name
                == records[i].column_name;
        column_is_there(fields, records[i].column_name);
        assert(counts(records[i], fields));
        assert(is_described(records, fields, subject));
    }
    recorded_somewhere(records, fields, subject, column);
    column_is_there(fields, column);
    assert(statistics_of(containers, subject, column) is Some <==> recorded_statistics(
        records,
        fields,
        subject,
        column,
    ) is Some);
    if recorded_statistics(records, fields, subject, column) is Some {
        let i = choose|i: int|
            0 <= i < records.len() && counts(#[trigger] records[i], fields) && records[i].file_name
                == subject && records[i].column_name == column;
    }
    if exists|i: int, f: int|
        0 <= i < records.len() && 0 <= f < fields.len() && (#[trigger] records[i]).file_name
            == subject && !records[i].is_deleted && records[i].column_name == column && (
        #[trigger] fields[f]).name == column {
        let (i, f) = choose|i: int, f: int|
            0 <= i < records.len() && 0 <= f < fields.len() && (#[trigger] records[i]).file_name
                == subject && !records[i].is_deleted && records[i].column_name == column && (
            #[trigger] fields[f]).name == column;
        assert(counts(records[i], fields));
    }
}

proof fn column_is_there(fields: Seq<FieldView>, name: Seq<char>)
    ensures
        type_of_column(fields, name) is Some <==> exists|f: int|
            0 <= f < fields.len() && (#[trigger] fields[f]).name == name,
    decreases fields.len(),
{
    if fields.len() > 0 {
        let shorter = fields.drop_last();
        column_is_there(shorter, name);
        assert(fields[fields.len() - 1] == fields.last());
        if exists|f: int| 0 <= f < shorter.len() && (#[trigger] shorter[f]).name == name {
            let f = choose|f: int| 0 <= f < shorter.len() && (#[trigger] shorter[f]).name == name;
            assert(fields[f].name == name);
        }
        if exists|f: int| 0 <= f < fields.len() && (#[trigger] fields[f]).name == name {
            let f = choose|f: int| 0 <= f < fields.len() && (#[trigger] fields[f]).name == name;
            if f < shorter.len() {
                assert(shorter[f].name == name);
            }
        }
    }
}

proof fn type_of_last_column(fields: Seq<FieldView>, name: Seq<char>, f: int)
    requires
        0 <= f < fields.len(),
        fields[f].name == name,
        forall|g: int| f < g < fields.len() ==> (#[trigger] fields[g]).name != name,
    ensures
        type_of_column(fields, name) == Some(fields[f].data_type),
    decreases fields.len(),
{
    if f < fields.len() - 1 {
        assert(fields[fields.len() - 1].name != name);
        type_of_last_column(fields.drop_last(), name, f);
    }
}

proof fn recorded_at(records: Seq<ColumnStatsView>, fields: Seq<FieldView>, i: int)
    requires
        0 <= i < records.len(),
        counts(records[i], fields),
        forall|j: int|
            i < j < records.len() ==> (#[trigger] records[j]).is_deleted || records[j].file_name
                != records[i].file_name || records[j].column_name != records[i].column_name,
    ensures
        recorded_statistics(records, fields, records[i].file_name, records[i].column_name) == Some(
            column_statistics(records[i], type_of_column(fields, records[i].column_name)->0),
        ),
    decreases records.len(),
{
    if i < records.len() - 1 {
        let last = records[records.len() - 1];
        assert(last.is_deleted || last.file_name != records[i].file_name || last.column_name
            != records[i].column_name);
        recorded_at(records.drop_last(), fields, i);
    }
}

proof fn recorded_somewhere(
    records: Seq<ColumnStatsView>,
    fields: Seq<FieldView>,
    subject: Seq<char>,
    column: Seq<char>,
)
    ensures
        recorded_statistics(records, fields, subject, column) is Some <==> exists|i: int|
            0 <= i < records.len() && counts(#[trigger] records[i], fields) && records[i].file_name
                == subject && records[i].column_name == column,
    decreases records.len(),
{
    if records.len() > 0 {
        let shorter = records.drop_last();
        recorded_somewhere(shorter, fields, subject, column);
        assert(records[records.len() - 1] == records.last());
        if recorded_statistics(shorter, fields, subject, column) is Some {
            let i = choose|i: int|
                0 <= i < shorter.len() && counts(#[trigger] shorter[i], fields)
                    && shorter[i].file_name == subject && shorter[i].column_name == column;
            assert(counts(records[i], fields));
        }
        if exists|i: int|
            0 <= i < records.len() && counts(#[trigger] records[i], fields) && records[i].file_name
                == subject && records[i].column_name == column {
            let i = choose|i: int|
                0 <= i < records.len() && counts(#[trigger] records[i], fields)
                    && records[i].file_name == subject && records[i].column_name == column;
            if i < shorter.len() {
                assert(counts(shorter[i], fields));
            }
        }
    }
}

/// An integer is a statistic of an integer column if and only if the type of the column has it,
/// and it is then that integer.
pub proof fn integer_statistics_are_kept(n: i64, m: i32)
    ensures
        statistic_of(AvroView::Int(m), ColumnType::Int32) == Some(StatView::Int32(m)),
        statistic_of(AvroView::Int(m), ColumnType::Int64) == Some(StatView::Int32(m)),
        statistic_of(AvroView::Long(n), ColumnType::Int64) == Some(StatView::Int64(n)),
        forall|t: ColumnType| #[trigger]
            statistic_of(AvroView::Int(m), t) matches Some(v) ==> v == StatView::Int32(m),
        forall|t: ColumnType| #[trigger]
            statistic_of(AvroView::Long(n), t) matches Some(v) ==> v == StatView::Int64(n),
        statistic_of(AvroView::Long(n), ColumnType::Int8) is Some <==> -0x80 <= n <= 0x7f,
        statistic_of(AvroView::Long(n), ColumnType::Int16) is Some <==> -0x8000 <= n <= 0x7fff,
        statistic_of(AvroView::Long(n), ColumnType::Int32) is Some <==> i32::MIN <= n <= i32::MAX,
        statistic_of(AvroView::Long(n), ColumnType::UInt8) is Some <==> 0 <= n <= 0xff,
        statistic_of(AvroView::Long(n), ColumnType::UInt16) is Some <==> 0 <= n <= 0xffff,
        statistic_of(AvroView::Long(n), ColumnType::UInt32) is Some <==> 0 <= n <= 0xffff_ffff,
        statistic_of(AvroView::Long(n), ColumnType::UInt64) is Some <==> 0 <= n,
        statistic_of(AvroView::Int(m), ColumnType::Int8) is Some <==> -0x80 <= m <= 0x7f,
        statistic_of(AvroView::Int(m), ColumnType::Int16) is Some <==> -0x8000 <= m <= 0x7fff,
        statistic_of(AvroView::Int(m), ColumnType::UInt8) is Some <==> 0 <= m <= 0xff,
        statistic_of(AvroView::Int(m), ColumnType::UInt16) is Some <==> 0 <= m <= 0xffff,
        statistic_of(AvroView::Int(m), ColumnType::UInt32) is Some <==> 0 <= m,
        statistic_of(AvroView::Int(m), ColumnType::UInt64) is Some <==> 0 <= m,
{
}

/// The logical types of Avro play no part: a date or a time is a statistic as the integer that it
/// is counted by, of every column that the integer is a statistic of.
pub proof fn times_are_their_integers(n: i64, m: i32, t: ColumnType)
    ensures
        statistic_of(AvroView::Date(m), t) == statistic_of(AvroView::Int(m), t),
        statistic_of(AvroView::TimeMillis(m), t) == statistic_of(AvroView::Int(m), t),
        statistic_of(AvroView::TimeMicros(n), t) == statistic_of(AvroView::Long(n), t),
        statistic_of(AvroView::TimestampMillis(n), t) == statistic_of(AvroView::Long(n), t),
        statistic_of(AvroView::TimestampMicros(n), t) == statistic_of(AvroView::Long(n), t),
        match shape_of(t) {
            TypeShape::Date32 => true,
            TypeShape::Time32(u) => u is Second || u is Millisecond,
            _ => false,
        } ==> statistic_of(AvroView::Int(m), t) == Some(StatView::Int32(m)),
        match shape_of(t) {
            TypeShape::Date64 => true,
            TypeShape::Time64(u) => u is Microsecond || u is Nanosecond,
            TypeShape::Timestamp(_, _) => true,
            TypeShape::Duration(_) => true,
            _ => false,
        } ==> statistic_of(AvroView::Long(n), t) == Some(StatView::Int64(n)),
{
}

/// Texts and bytes are statistics as their bytes, of text columns in UTF-8; truth values as they
/// are; a single precision number as its bits, to be widened for a double precision column.
pub proof fn other_statistics_are_kept(
    s: Seq<char>,
    b: Seq<u8>,
    size: usize,
    flag: bool,
    single: u32,
    double: u64,
    t: ColumnType,
)
    ensures
        t is Utf8 || t is LargeUtf8 || t is Utf8View || t is Binary || t is LargeBinary
            || t is BinaryView ==> statistic_of(AvroView::String(s), t) == Some(
            StatView::Bytes(vstd::utf8::encode_utf8(s)),
        ),
        t is Binary || t is LargeBinary || t is BinaryView ==> statistic_of(AvroView::Bytes(b), t)
            == Some(StatView::Bytes(b)),
        statistic_of(AvroView::Fixed(size, b), t) == statistic_of(AvroView::Bytes(b), t),
        t is Utf8 || t is LargeUtf8 || t is Utf8View ==> (statistic_of(AvroView::Bytes(b), t) == if vstd::utf8::valid_utf8(b) {
            Some(StatView::Bytes(b))
        } else {
            None
        }),
        statistic_of(AvroView::Boolean(flag), ColumnType::Boolean) == Some(StatView::Boolean(flag)),
        statistic_of(AvroView::Float(single), ColumnType::Float32) == Some(
            StatView::Float32(single),
        ),
        statistic_of(AvroView::Float(single), ColumnType::Float64) == Some(
            StatView::Float32AsFloat64(single),
        ),
        statistic_of(AvroView::Double(double), ColumnType::Float64) == Some(
            StatView::Float64(double),
        ),
        statistic_of(AvroView::Null, t) is None,
        !(t is Boolean) ==> statistic_of(AvroView::Boolean(flag), t) is None,
        !(t is Float64) ==> statistic_of(AvroView::Double(double), t) is None,
{
    vstd::utf8::encode_utf8_valid_utf8(s);
}

/// A value of another kind than its column holds is no statistic: a text, bytes or a truth value
/// in a column of numbers or times, a number in one of texts, bytes or truth values, and anything
/// that is no scalar.
pub proof fn mismatched_values_are_no_statistics(
    scalar: AvroView,
    t: ColumnType,
    n: i64,
    m: i32,
    single: u32,
    double: u64,
)
    ensures
        is_numeric(t) || is_short_time(t) || is_long_time(t) ==> (scalar is String || scalar is Bytes
            || scalar is Boolean ==> statistic_of(scalar, t) is None),
        is_text(t) || is_bytes(t) || t is Boolean || is_float(t) ==> statistic_of(
            AvroView::Long(n),
            t,
        ) is None && statistic_of(AvroView::Int(m), t) is None,
        is_text(t) || is_bytes(t) || t is Boolean || is_integer(t) ==> statistic_of(
            AvroView::Float(single),
            t,
        ) is None && statistic_of(AvroView::Double(double), t) is None,
        is_long_time(t) ==> statistic_of(AvroView::Int(m), t) is None,
        is_short_time(t) ==> statistic_of(AvroView::Long(n), t) is None,
        scalar is Null || scalar is Record || scalar is Union || scalar is Other ==> statistic_of(
            scalar,
            t,
        ) is None,
{
}

/// Bytes are a statistic of a column of byte strings of a fixed width if and only if they have
/// that width.
pub proof fn fixed_width_decides(b: Seq<u8>, t: ColumnType, width: int)
    requires
        shape_of(t) == TypeShape::FixedBytes(width),
    ensures
        statistic_of(AvroView::Bytes(b), t) == if b.len() == width {
            Some(StatView::Bytes(b))
        } else {
            None
        },
{
}

/// The minimum and the maximum of a column of integers are the recorded integers, each by itself:
/// neither depends on what the other is, or on whether it is there.
pub proof fn integer_extremes_are_recorded(
    containers: Map<Seq<char>, StatisticsContainer>,
    records: Seq<ColumnStatsView>,
    fields: Seq<FieldView>,
    i: int,
    f: int,
    n: i32,
    m: i64,
)
    requires
        containers_hold(containers, records, fields),
        0 <= i < records.len(),
        !records[i].is_deleted,
        forall|j: int|
            i < j < records.len() ==> (#[trigger] records[j]).is_deleted || records[j].file_name
                != records[i].file_name || records[j].column_name != records[i].column_name,
        0 <= f < fields.len(),
        fields[f].name == records[i].column_name,
        forall|g: int|
            f < g < fields.len() ==> (#[trigger] fields[g]).name != records[i].column_name,
    ensures
        ({
            let stats = containers[records[i].file_name].columns@[records[i].column_name];
            let t = fields[f].data_type;
            &&& t is Int32 && records[i].max_value == Some(AvroView::Int(n)) ==> stats.max_value
                == Some(StatValue::Int32(n))
            &&& t is Int32 && records[i].min_value == Some(AvroView::Int(n)) ==> stats.min_value
                == Some(StatValue::Int32(n))
            &&& t is Int64 && records[i].max_value == Some(AvroView::Long(m)) ==> stats.max_value
                == Some(StatValue::Int64(m))
            &&& t is Int64 && records[i].min_value == Some(AvroView::Long(m)) ==> stats.min_value
                == Some(StatValue::Int64(m))
            &&& records[i].max_value is None ==> stats.max_value is None
            &&& records[i].min_value is None ==> stats.min_value is None
        }),
{
    extremes_are_the_recorded_ones(containers, records, fields, i, f);
    integer_statistics_are_kept(m, n);
}

} // verus!
