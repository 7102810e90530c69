//! Column statistics, by which files and partitions can be skipped.

use vstd::prelude::*;
use vstd::utf8::valid_utf8;
use crate::named::NamedMap;
use crate::schema::{
    can_hold_integer, holds_integer, is_bytes, is_bytes_type, is_text, is_text_type, ColumnType,
};
use crate::text::is_utf8;
use crate::type_shape::{
    fixed_width, is_long_time, is_short_time, shape_of, time_widths, TypeShape,
};

verus! {

/// What statistics describe.
#[derive(Debug, Clone, Copy, PartialEq, Eq, Structural)]
pub enum StatsGranularity {
    /// A whole file.
    File,
}

/// A minimum or maximum of a column, as the one element of an array of the column's type.
/// What types a value is read as, [`is_value_of`] says.
#[derive(Debug, PartialEq, Eq)]
pub enum StatValue {
    Boolean(bool),
    /// A 32-bit integer, to be read as the column's type.
    Int32(i32),
    /// A 64-bit integer, to be read as the column's type.
    Int64(i64),
    /// The bits of a single precision number.
    Float32(u32),
    /// The bits of a single precision number, to be widened to double precision.
    Float32AsFloat64(u32),
    /// The bits of a double precision number.
    Float64(u64),
    /// Bytes, to be read as the column's type.
    Bytes(Vec<u8>),
}

/// What a [`StatValue`] stands for.
pub enum StatView {
    Boolean(bool),
    Int32(i32),
    Int64(i64),
    Float32(u32),
    Float32AsFloat64(u32),
    Float64(u64),
    Bytes(Seq<u8>),
}

impl StatValue {
    pub open spec fn view(&self) -> StatView {
        match self {
            StatValue::Boolean(b) => StatView::Boolean(*b),
            StatValue::Int32(n) => StatView::Int32(*n),
            StatValue::Int64(n) => StatView::Int64(*n),
            StatValue::Float32(bits) => StatView::Float32(*bits),
            StatValue::Float32AsFloat64(bits) => StatView::Float32AsFloat64(*bits),
            StatValue::Float64(bits) => StatView::Float64(*bits),
            StatValue::Bytes(b) => StatView::Bytes(b@),
        }
    }
}

/// Whether a statistic is a value of a column type: an integer that an integer type holds, or
/// that a date or time type of its width is counted in; text or bytes as the type has them, of
/// the width that the type may fix.
/// Decimals have no statistics.
pub open spec fn is_value_of(v: StatView, t: ColumnType) -> bool {
    match v {
        StatView::Boolean(_) => t is Boolean,
        StatView::Int32(n) => holds_integer(t, n as int) || is_short_time(t),
        StatView::Int64(n) => holds_integer(t, n as int) || is_long_time(t),
        StatView::Float32(_) => t is Float32,
        StatView::Float32AsFloat64(_) => t is Float64,
        StatView::Float64(_) => t is Float64,
        StatView::Bytes(b) => {
            ||| is_bytes(t)
            ||| is_text(t) && valid_utf8(b)
            ||| shape_of(t) == TypeShape::FixedBytes(b.len() as int)
        },
    }
}

impl StatValue {
    /// Whether the statistic is a value of a column type.
    pub fn is_of(&self, t: &ColumnType) -> (r: bool)
        ensures
            r == is_value_of(self@, *t),
    {
        match self {
            StatValue::Boolean(_) => match t {
                ColumnType::Boolean => true,
                _ => false,
            },
            StatValue::Int32(n) => can_hold_integer(t, *n as i64) || time_widths(t).0,
            StatValue::Int64(n) => can_hold_integer(t, *n) || time_widths(t).1,
            StatValue::Float32(_) => match t {
                ColumnType::Float32 => true,
                _ => false,
            },
            StatValue::Float32AsFloat64(_) => match t {
                ColumnType::Float64 => true,
                _ => false,
            },
            StatValue::Float64(_) => match t {
                ColumnType::Float64 => true,
                _ => false,
            },
            StatValue::Bytes(b) => is_bytes_type(t) || (is_text_type(t) && is_utf8(b.as_slice()))
                || fixed_width(t) == Some(b.len()),
        }
    }
}

/// What an optional statistic stands for.
pub open spec fn stat_view(v: Option<StatValue>) -> Option<StatView> {
    match v {
        Some(v) => Some(v@),
        None => None,
    }
}

/// The statistics of one column.
#[derive(Debug)]
pub struct ColumnStatistics {
    pub column_name: String,
    pub data_type: ColumnType,
    pub min_value: Option<StatValue>,
    pub max_value: Option<StatValue>,
}

/// What [`ColumnStatistics`] stand for.
pub struct ColumnStatisticsView {
    pub column_name: Seq<char>,
    pub data_type: ColumnType,
    pub min_value: Option<StatView>,
    pub max_value: Option<StatView>,
}

impl ColumnStatistics {
    pub open spec fn view(&self) -> ColumnStatisticsView {
        ColumnStatisticsView {
            column_name: self.column_name@,
            data_type: self.data_type,
            min_value: stat_view(self.min_value),
            max_value: stat_view(self.max_value),
        }
    }
}

/// The statistics of the columns of one file or partition.
#[derive(Debug)]
pub struct StatisticsContainer {
    pub granularity: StatsGranularity,
    /// The statistics by column name.
    pub columns: NamedMap<ColumnStatistics>,
}

impl StatisticsContainer {
    /// A container without columns.
    pub fn new(granularity: StatsGranularity) -> (r: StatisticsContainer)
        ensures
            r.granularity == granularity,
            r.columns@ == Map::<Seq<char>, ColumnStatistics>::empty(),
    {
        StatisticsContainer { granularity, columns: NamedMap::new() }
    }
}

/// The statistics of a column of a file or partition, where there are any.
pub open spec fn statistics_of(
    containers: Map<Seq<char>, StatisticsContainer>,
    subject: Seq<char>,
    column: Seq<char>,
) -> Option<ColumnStatisticsView> {
    if containers.contains_key(subject) && containers[subject].columns@.contains_key(column) {
        Some(containers[subject].columns@[column]@)
    } else {
        None
    }
}

} // verus!
