//! Statistics as columns of one value.

use vstd::pervasive::unreached;
use vstd::prelude::*;
use vstd::utf8::encode_utf8;
use crate::batch::{
    boolean_at, bytes_at, cast_column, cast_outcome, column_len, column_type, integer_at, null_at,
    text_at, Column,
};
use crate::cast_bounds::buffer_size;
use crate::order::same_encoding;
use crate::schema::{is_text, ColumnType};
use crate::statistics::{is_value_of, StatValue, StatView};
use crate::type_shape::{nulls_fit, shape_of, TypeShape};

verus! {

/// Whether a column holds one value of the given type, which is no null.
pub open spec fn is_single(c: Column, t: ColumnType) -> bool {
    column_type(c) == t && column_len(c) == 1 && !null_at(c, 0)
}

/// Makes a `BooleanArray` of one value.
#[verifier::external_body]
fn boolean_column(b: bool) -> (r: Column)
    ensures
        is_single(r, ColumnType::Boolean),
        boolean_at(r, 0) == b,
{
    Column { array: std::sync::Arc::new(arrow_array::BooleanArray::from(vec![b])) }
}

/// Makes an `Int32Array` of one value.
#[verifier::external_body]
fn int32_column(n: i32) -> (r: Column)
    ensures
        is_single(r, ColumnType::Int32),
        integer_at(r, 0) == n,
{
    Column { array: std::sync::Arc::new(arrow_array::Int32Array::from(vec![n])) }
}

/// Makes an `Int64Array` of one value.
#[verifier::external_body]
fn int64_column(n: i64) -> (r: Column)
    ensures
        is_single(r, ColumnType::Int64),
        integer_at(r, 0) == n,
{
    Column { array: std::sync::Arc::new(arrow_array::Int64Array::from(vec![n])) }
}

/// Makes a `BinaryArray` of one value, which is all that is in its buffer. It panics where the
/// value runs over an offset of 32 bits.
#[verifier::external_body]
fn bytes_column(b: &[u8]) -> (r: Column)
    requires
        b@.len() <= i32::MAX,
    ensures
        is_single(r, ColumnType::Binary),
        bytes_at(r, 0) == b@,
        buffer_size(r) == b@.len(),
{
    Column { array: std::sync::Arc::new(arrow_array::BinaryArray::from(vec![b])) }
}

/// Whether a statistic is a floating point number.
pub open spec fn is_float_statistic(v: StatView) -> bool {
    v is Float32 || v is Float32AsFloat64 || v is Float64
}

/// Whether a column holds a statistic as it is, before it is read as the type of its column.
pub open spec fn is_plain_column(c: Column, v: StatView) -> bool {
    match v {
        StatView::Boolean(b) => is_single(c, ColumnType::Boolean) && boolean_at(c, 0) == b,
        StatView::Int32(n) => is_single(c, ColumnType::Int32) && integer_at(c, 0) == n,
        StatView::Int64(n) => is_single(c, ColumnType::Int64) && integer_at(c, 0) == n,
        StatView::Bytes(b) => is_single(c, ColumnType::Binary) && bytes_at(c, 0) == b,
        _ => false,
    }
}

/// Whether the one value of a column is a statistic.
pub open spec fn holds_statistic(c: Column, v: StatView) -> bool {
    match v {
        StatView::Boolean(b) => boolean_at(c, 0) == b,
        StatView::Int32(n) => integer_at(c, 0) == n,
        StatView::Int64(n) => integer_at(c, 0) == n,
        StatView::Bytes(b) => if is_text(column_type(c)) {
            encode_utf8(text_at(c, 0)) == b
        } else {
            bytes_at(c, 0) == b
        },
        _ => false,
    }
}

/// Whether a column of type `t` is what becomes of a statistic: its plain column, or what that
/// one is cast to.
pub open spec fn comes_of(c: Column, v: StatView, t: ColumnType) -> bool {
    exists|plain: Column| #[trigger]
        is_plain_column(plain, v) && if column_type(plain) == t {
            c == plain
        } else {
            cast_outcome(plain, t) == Ok::<Column, arrow_schema::ArrowError>(c)
        }
}

/// Casts a plain column of one value to another type, which its value is of.
fn cast_plain(plain: &Column, v: Ghost<StatView>, t: &ColumnType) -> (r: Column)
    requires
        is_plain_column(*plain, v@),
        is_value_of(v@, *t),
        column_type(*plain) != *t,
        v@ matches StatView::Bytes(b) ==> b.len() <= i32::MAX && buffer_size(*plain) == b.len(),
    ensures
        is_single(r, *t),
        holds_statistic(r, v@),
        comes_of(r, v@, *t),
{
    assert(nulls_fit(shape_of(*t), 1)) by {
        if let TypeShape::FixedBytes(n) = shape_of(*t) {
            assert(n * 1 == n);
        }
    }
    match cast_column(plain, &t.to_arrow()) {
        Ok(c) => {
            assert(!null_at(c, 0));
            c
        },
        Err(_) => unreached(),
    }
}

/// A minimum or maximum as a column of one value, typed as the column that it is of. There is
/// none for a value that is not of that type. Floating point numbers are left to the caller.
pub fn stat_column(value: &StatValue, t: &ColumnType) -> (r: Option<Column>)
    requires
        value@ matches StatView::Bytes(b) ==> b.len() <= i32::MAX,
    ensures
        r is Some <==> is_value_of(value@, *t) && !is_float_statistic(value@),
        r matches Some(c) ==> is_single(c, *t) && holds_statistic(c, value@) && comes_of(
            c,
            value@,
            *t,
        ),
{
    if !value.is_of(t) {
        return None;
    }
    let plain: Column = match value {
        StatValue::Boolean(b) => boolean_column(*b),
        StatValue::Int32(n) => int32_column(*n),
        StatValue::Int64(n) => int64_column(*n),
        StatValue::Bytes(b) => bytes_column(b.as_slice()),
        _ => {
            return None;
        },
    };
    let same: bool = match (value, t) {
        (StatValue::Boolean(_), _) => true,
        (StatValue::Int32(_), ColumnType::Int32) => true,
        (StatValue::Int64(_), ColumnType::Int64) => true,
        (StatValue::Bytes(_), ColumnType::Binary) => true,
        _ => false,
    };
    assert(is_plain_column(plain, value@));
    if same {
        return Some(plain);
    }
    Some(cast_plain(&plain, Ghost(value@), t))
}

/// The column of a statistic has its value: the same truth value, number or bytes, a text by its
/// UTF-8 bytes.
pub proof fn statistic_stands_in_its_column(
    c: Column,
    b: bool,
    small: i32,
    large: i64,
    bytes: Seq<u8>,
    s: Seq<char>,
)
    ensures
        holds_statistic(c, StatView::Boolean(b)) <==> boolean_at(c, 0) == b,
        holds_statistic(c, StatView::Int32(small)) <==> integer_at(c, 0) == small,
        holds_statistic(c, StatView::Int64(large)) <==> integer_at(c, 0) == large,
        is_text(column_type(c)) && holds_statistic(c, StatView::Bytes(encode_utf8(s))) ==> text_at(
            c,
            0,
        ) == s,
        !is_text(column_type(c)) ==> (holds_statistic(c, StatView::Bytes(bytes)) <==> bytes_at(c, 0)
            == bytes),
{
    if is_text(column_type(c)) && holds_statistic(c, StatView::Bytes(encode_utf8(s))) {
        same_encoding(text_at(c, 0), s);
    }
}

} // verus!
