//! The shape of Arrow data types, as far as it decides whether arrays of nulls can be made and
//! whether rows can be encoded.

use arrow_schema::{DataType, TimeUnit, UnionMode};
use vstd::prelude::*;
use crate::schema::{is_integer, is_integer_type, type_model, ColumnType};

verus! {

/// A unit of time.
#[verifier::external_type_specification]
#[verifier::external_body]
pub struct ExTimeUnit(arrow_schema::TimeUnit);

/// How finely a time is given.
#[derive(Debug, Clone, Copy, PartialEq, Eq, Structural)]
pub enum TimeStep {
    Second,
    Millisecond,
    Microsecond,
    Nanosecond,
}

/// The kinds of lists of any length, by what holds the positions of their values.
#[derive(Debug, Clone, Copy, PartialEq, Eq, Structural)]
pub enum ListKind {
    /// Offsets of 32 bits.
    Small,
    /// Offsets of 64 bits.
    Large,
    /// Offsets and sizes of 32 bits.
    View,
    /// Offsets and sizes of 64 bits.
    LargeView,
}

/// How an Arrow data type is made up.
pub enum TypeShape {
    /// Another type without parts: numbers, text, bytes and intervals.
    Flat(ColumnType),
    /// Nothing but nulls.
    Void,
    /// Days, in 32 bits.
    Date32,
    /// Days, by their milliseconds in 64 bits.
    Date64,
    /// Times of day in 32 bits. Only seconds and milliseconds go with that width.
    Time32(TimeStep),
    /// Times of day in 64 bits. Only microseconds and nanoseconds go with that width.
    Time64(TimeStep),
    /// Points in time, in 64 bits, and their time zone.
    Timestamp(TimeStep, Option<Seq<char>>),
    /// Spans of time, in 64 bits.
    Duration(TimeStep),
    /// Byte strings of a fixed width.
    FixedBytes(int),
    /// Lists of any length.
    List(ListKind, Box<TypeShape>),
    /// Lists of a fixed length.
    FixedList(Box<TypeShape>, int),
    /// Structs.
    Fields(Seq<TypeShape>),
    /// Maps, by their entries.
    MapOf(Box<TypeShape>),
    /// Dictionaries, by their keys and values.
    Coded(ColumnType, Box<TypeShape>),
    /// Unions, and whether they are dense.
    Choice(Seq<TypeShape>, bool),
    /// Runs, by the type of their ends and their values.
    Runs(ColumnType, Box<TypeShape>),
}

/// The shape of an Arrow data type.
pub uninterp spec fn type_shape(t: arrow_schema::DataType) -> TypeShape;

/// The shape of an Arrow data type that is no list, struct or map.
pub uninterp spec fn simple_shape(t: arrow_schema::DataType) -> TypeShape;

/// The parts of a list, struct or map.
pub(crate) enum TypeParts {
    List(ListKind, arrow_schema::DataType),
    FixedList(arrow_schema::DataType, i32),
    Fields(Vec<arrow_schema::DataType>),
    MapOf(arrow_schema::DataType),
    Simple,
}

/// The parts of any other type.
pub(crate) enum SimpleParts {
    Flat,
    Void,
    Date32,
    Date64,
    Time32(arrow_schema::TimeUnit),
    Time64(arrow_schema::TimeUnit),
    Timestamp(arrow_schema::TimeUnit, Option<String>),
    Duration(arrow_schema::TimeUnit),
    FixedBytes(i32),
    Coded(arrow_schema::DataType, arrow_schema::DataType),
    Choice(Vec<arrow_schema::DataType>, bool),
    Runs(arrow_schema::DataType, arrow_schema::DataType),
}

/// What a unit of time stands for.
pub uninterp spec fn unit_step(u: arrow_schema::TimeUnit) -> TimeStep;

/// Tells the variants of `arrow_schema::TimeUnit` apart.
#[verifier::external_body]
pub(crate) fn step_of(u: &arrow_schema::TimeUnit) -> (r: TimeStep)
    ensures
        r == unit_step(*u),
{
    match u {
        TimeUnit::Second => TimeStep::Second,
        TimeUnit::Millisecond => TimeStep::Millisecond,
        TimeUnit::Microsecond => TimeStep::Microsecond,
        TimeUnit::Nanosecond => TimeStep::Nanosecond,
    }
}

/// What the types of several parts are shaped like.
pub open spec fn type_shapes(types: Seq<arrow_schema::DataType>) -> Seq<TypeShape> {
    types.map_values(|t: arrow_schema::DataType| type_shape(t))
}

/// Tells the lists, structs and maps among the variants of `arrow_schema::DataType` apart, and
/// hands out the types they are made of.
#[verifier::external_body]
pub(crate) fn type_parts(t: &arrow_schema::DataType) -> (r: TypeParts)
    ensures
        match r {
            TypeParts::List(k, e) => type_shape(*t) == TypeShape::List(
                k,
                Box::new(type_shape(e)),
            ),
            TypeParts::FixedList(e, n) => type_shape(*t) == TypeShape::FixedList(
                Box::new(type_shape(e)),
                n as int,
            ),
            TypeParts::Fields(es) => type_shape(*t) == TypeShape::Fields(type_shapes(es@)),
            TypeParts::MapOf(e) => type_shape(*t) == TypeShape::MapOf(Box::new(type_shape(e))),
            TypeParts::Simple => type_shape(*t) == simple_shape(*t),
        },
{
    let of = |f: &arrow_schema::FieldRef| f.data_type().clone();
    match t {
        DataType::List(f) => TypeParts::List(ListKind::Small, of(f)),
        DataType::LargeList(f) => TypeParts::List(ListKind::Large, of(f)),
        DataType::ListView(f) => TypeParts::List(ListKind::View, of(f)),
        DataType::LargeListView(f) => TypeParts::List(ListKind::LargeView, of(f)),
        DataType::FixedSizeList(f, n) => TypeParts::FixedList(of(f), *n),
        DataType::Struct(fs) => TypeParts::Fields(fs.iter().map(of).collect()),
        DataType::Map(f, _) => TypeParts::MapOf(of(f)),
        _ => TypeParts::Simple,
    }
}

/// Whether a shape is one of a type without parts and without a width of its own.
pub open spec fn is_undivided(s: TypeShape) -> bool {
    match s {
        TypeShape::Flat(_) => true,
        TypeShape::Void => true,
        TypeShape::Date32 => true,
        TypeShape::Date64 => true,
        TypeShape::Time32(_) => true,
        TypeShape::Time64(_) => true,
        TypeShape::Timestamp(_, _) => true,
        TypeShape::Duration(_) => true,
        _ => false,
    }
}

/// What an optional time zone stands for.
pub open spec fn zone_view(zone: Option<String>) -> Option<Seq<char>> {
    match zone {
        Some(z) => Some(z@),
        None => None,
    }
}

/// Whether parts are those of a shape.
pub(crate) open spec fn are_simple_parts(parts: SimpleParts, s: TypeShape, t: ColumnType) -> bool {
    match parts {
        SimpleParts::Flat => s == TypeShape::Flat(t),
        SimpleParts::Void => s == TypeShape::Void,
        SimpleParts::Date32 => s == TypeShape::Date32,
        SimpleParts::Date64 => s == TypeShape::Date64,
        SimpleParts::Time32(u) => s == TypeShape::Time32(unit_step(u)),
        SimpleParts::Time64(u) => s == TypeShape::Time64(unit_step(u)),
        SimpleParts::Timestamp(u, z) => s == TypeShape::Timestamp(unit_step(u), zone_view(z)),
        SimpleParts::Duration(u) => s == TypeShape::Duration(unit_step(u)),
        SimpleParts::FixedBytes(n) => s == TypeShape::FixedBytes(n as int),
        SimpleParts::Coded(k, v) => s == TypeShape::Coded(type_model(k), Box::new(type_shape(v))),
        SimpleParts::Choice(es, dense) => s == TypeShape::Choice(type_shapes(es@), dense),
        SimpleParts::Runs(k, v) => s == TypeShape::Runs(type_model(k), Box::new(type_shape(v))),
    }
}

/// Tells dictionaries, unions, runs and byte strings of a fixed width among the variants of
/// `arrow_schema::DataType` apart, and hands out the types they are made of. Of a list, struct or
/// map nothing is said.
#[verifier::external_body]
fn coded_parts(t: &arrow_schema::DataType) -> (r: Option<SimpleParts>)
    ensures
        match r {
            Some(parts) => are_simple_parts(parts, simple_shape(*t), type_model(*t)),
            None => is_undivided(simple_shape(*t)),
        },
{
    let of = |f: &arrow_schema::FieldRef| f.data_type().clone();
    match t {
        DataType::FixedSizeBinary(n) => Some(SimpleParts::FixedBytes(*n)),
        DataType::Dictionary(k, v) => Some(SimpleParts::Coded((**k).clone(), (**v).clone())),
        DataType::Union(fs, m) => {
            let parts = fs.iter().map(|(_, f)| of(f)).collect();
            Some(SimpleParts::Choice(parts, matches!(m, UnionMode::Dense)))
        },
        DataType::RunEndEncoded(r, v) => Some(SimpleParts::Runs(of(r), of(v))),
        _ => None,
    }
}

/// Tells the null type, dates, times of day, points and spans of time among the variants of
/// `arrow_schema::DataType` apart from the others without parts, and hands out their units and
/// time zones.
#[verifier::external_body]
fn undivided_parts(t: &arrow_schema::DataType) -> (r: SimpleParts)
    requires
        is_undivided(simple_shape(*t)),
    ensures
        are_simple_parts(r, simple_shape(*t), type_model(*t)),
{
    match t {
        DataType::Null => SimpleParts::Void,
        DataType::Date32 => SimpleParts::Date32,
        DataType::Date64 => SimpleParts::Date64,
        DataType::Time32(u) => SimpleParts::Time32(*u),
        DataType::Time64(u) => SimpleParts::Time64(*u),
        DataType::Timestamp(u, z) => SimpleParts::Timestamp(*u, z.as_deref().map(str::to_owned)),
        DataType::Duration(u) => SimpleParts::Duration(*u),
        _ => SimpleParts::Flat,
    }
}

/// The parts of a type that is no list, struct or map.
pub(crate) fn simple_parts(t: &arrow_schema::DataType) -> (r: SimpleParts)
    ensures
        are_simple_parts(r, simple_shape(*t), type_model(*t)),
{
    match coded_parts(t) {
        Some(parts) => parts,
        None => undivided_parts(t),
    }
}

/// The shape of a column type; the types with a variant of their own are flat.
pub open spec fn shape_of(t: ColumnType) -> TypeShape {
    if t is Other {
        type_shape(t.arrow_type())
    } else {
        TypeShape::Flat(t)
    }
}

/// Whether the memory of a machine can be asked for that many rows of a flat type, whose values
/// take 32 bytes at most.
pub open spec fn rows_fit(rows: nat) -> bool {
    32 * (rows + 1) <= isize::MAX
}

/// Whether columns of the shape mark their nulls themselves. Those of the null type have none to
/// tell apart, and unions and runs leave it to their parts.
pub open spec fn marks_nulls(s: TypeShape) -> bool {
    !(s is Void || s is Choice || s is Runs)
}

/// Whether a unit goes with times of day in 32 bits.
pub open spec fn goes_with_32_bits(u: TimeStep) -> bool {
    u is Second || u is Millisecond
}

/// Whether an array of that many nulls can be made: the shape is sound, and the number of rows
/// is within the bounds of the types that hold positions.
pub open spec fn nulls_fit(s: TypeShape, rows: nat) -> bool
    decreases s,
{
    rows_fit(rows) && match s {
        TypeShape::Flat(_) => true,
        TypeShape::Void => true,
        TypeShape::Date32 => true,
        TypeShape::Date64 => true,
        TypeShape::Time32(u) => goes_with_32_bits(u),
        TypeShape::Time64(u) => !goes_with_32_bits(u),
        TypeShape::Timestamp(_, _) => true,
        TypeShape::Duration(_) => true,
        TypeShape::FixedBytes(n) => 0 <= n && n * rows <= isize::MAX,
        TypeShape::List(_, e) => nulls_fit(*e, 0),
        TypeShape::FixedList(e, n) => 0 <= n && nulls_fit(*e, (n * rows) as nat),
        TypeShape::Fields(es) => all_nulls_fit(es, rows),
        TypeShape::MapOf(e) => is_pair(*e) && nulls_fit(*e, 0),
        TypeShape::Coded(k, v) => is_integer(k) && nulls_fit(*v, 0),
        TypeShape::Choice(es, dense) => {
            &&& es.len() == 0 ==> rows == 0
            &&& dense ==> rows <= i32::MAX
            &&& all_nulls_fit(es, rows)
            &&& all_nulls_fit(es, 0)
        },
        TypeShape::Runs(k, v) => run_ends_fit(k, rows) && nulls_fit(*v, 0) && nulls_fit(*v, 1),
    }
}

/// Whether arrays of that many nulls can be made for each of several shapes.
pub open spec fn all_nulls_fit(es: Seq<TypeShape>, rows: nat) -> bool
    decreases es,
{
    forall|i: int| 0 <= i < es.len() ==> nulls_fit(#[trigger] es[i], rows)
}

/// Whether a shape is that of the entries of a map: a key and a value.
pub open spec fn is_pair(s: TypeShape) -> bool {
    s matches TypeShape::Fields(es) && es.len() == 2
}

/// Whether the type of run ends can hold the number of rows.
pub open spec fn run_ends_fit(k: ColumnType, rows: nat) -> bool {
    match k {
        ColumnType::Int16 => rows <= i16::MAX,
        ColumnType::Int32 => rows <= i32::MAX,
        ColumnType::Int64 => rows <= i64::MAX,
        _ => false,
    }
}

/// Whether an encoder of rows can be set up for columns of the shape, or is properly refused:
/// where it needs an encoded null, the null can be made.
pub open spec fn encodable(s: TypeShape) -> bool
    decreases s,
{
    match s {
        TypeShape::List(_, e) => encodable(*e),
        TypeShape::FixedList(e, _) => encodable(*e),
        TypeShape::Fields(es) => all_encodable(es) && all_nulls_fit(es, 1),
        TypeShape::MapOf(e) => match *e {
            TypeShape::Fields(es) => es.len() == 2 && all_encodable(es),
            _ => true,
        },
        TypeShape::Coded(_, v) => encodable(*v) && nulls_fit(*v, 1),
        TypeShape::Choice(es, _) => all_encodable(es) && all_nulls_fit(es, 1),
        TypeShape::Runs(_, v) => encodable(*v),
        _ => true,
    }
}

/// Whether [`encodable`] holds of several shapes.
pub open spec fn all_encodable(es: Seq<TypeShape>) -> bool
    decreases es,
{
    forall|i: int| 0 <= i < es.len() ==> encodable(#[trigger] es[i])
}

proof fn nulls_fit_bound(s: TypeShape, rows: nat)
    ensures
        nulls_fit(s, rows) ==> rows_fit(rows),
{
}

fn within_rows(rows: usize) -> (r: bool)
    ensures
        r == rows_fit(rows as nat),
{
    rows as u128 * 32 + 32 <= isize::MAX as u128
}

fn is_coarse(u: TimeStep) -> (r: bool)
    ensures
        r == goes_with_32_bits(u),
{
    match u {
        TimeStep::Second => true,
        TimeStep::Millisecond => true,
        _ => false,
    }
}

fn ends_within(k: &arrow_schema::DataType, rows: usize) -> (r: bool)
    ensures
        r == run_ends_fit(type_model(*k), rows as nat),
{
    match ColumnType::from_arrow(k) {
        ColumnType::Int16 => rows as u64 <= i16::MAX as u64,
        ColumnType::Int32 => rows as u64 <= i32::MAX as u64,
        ColumnType::Int64 => rows as u64 <= i64::MAX as u64,
        _ => false,
    }
}

/// Whether the entries of a map are structs of two fields.
fn has_pairs(entries: &arrow_schema::DataType) -> (r: bool)
    ensures
        r == is_pair(type_shape(*entries)),
{
    match type_parts(entries) {
        TypeParts::Fields(es) => es.len() == 2,
        TypeParts::Simple => {
            let parts: SimpleParts = simple_parts(entries);
            false
        },
        _ => false,
    }
}

/// Whether a struct or union is made of the given shapes.
pub open spec fn are_parts(whole: TypeShape, es: Seq<TypeShape>) -> bool {
    match whole {
        TypeShape::Fields(parts) => parts == es,
        TypeShape::Choice(parts, _) => parts == es,
        _ => false,
    }
}

/// A part of a struct or union is smaller than the whole.
pub proof fn part_is_smaller(whole: TypeShape, es: Seq<TypeShape>, i: int)
    requires
        are_parts(whole, es),
        0 <= i < es.len(),
    ensures
        decreases_to!(whole => es[i]),
{
    match whole {
        TypeShape::Fields(parts) => {
            assert(decreases_to!(whole => whole->Fields_0));
        },
        TypeShape::Choice(parts, _) => {
            assert(decreases_to!(whole => whole->Choice_0));
        },
        _ => {},
    }
    assert(decreases_to!(es => es[i]));
}

fn types_nulls_fit(
    types: &Vec<arrow_schema::DataType>,
    rows: usize,
    Ghost(whole): Ghost<TypeShape>,
) -> (r: bool)
    requires
        are_parts(whole, type_shapes(types@)),
    ensures
        r == all_nulls_fit(type_shapes(types@), rows as nat),
    decreases whole, 0int,
{
    let ghost es = type_shapes(types@);
    let mut i: usize = 0;
    while i < types.len()
        invariant
            i <= types@.len(),
            es == type_shapes(types@),
            are_parts(whole, es),
            forall|k: int| 0 <= k < i ==> nulls_fit(#[trigger] es[k], rows as nat),
        decreases types@.len() - i,
    {
        assert(es[i as int] == type_shape(types@[i as int]));
        proof {
            part_is_smaller(whole, es, i as int);
        }
        if !type_nulls_fit(&types[i], rows) {
            return false;
        }
        i += 1;
    }
    true
}

/// Whether an array of that many nulls of an Arrow type can be made.
fn type_nulls_fit(t: &arrow_schema::DataType, rows: usize) -> (r: bool)
    ensures
        r == nulls_fit(type_shape(*t), rows as nat),
    decreases type_shape(*t), 1int,
{
    let ghost s = type_shape(*t);
    if !within_rows(rows) {
        return false;
    }
    match type_parts(t) {
        TypeParts::List(_, e) => {
            assert(decreases_to!(s => s->List_1));
            type_nulls_fit(&e, 0)
        },
        TypeParts::FixedList(e, n) => {
            assert(decreases_to!(s => s->FixedList_0));
            if n < 0 {
                return false;
            }
            proof {
                assert(n as u128 * rows as u128 <= u128::MAX) by (nonlinear_arith)
                    requires
                        0 <= n <= i32::MAX,
                        0 <= rows <= usize::MAX,
                ;
            }
            let total: u128 = n as u128 * rows as u128;
            if total > usize::MAX as u128 {
                proof {
                    nulls_fit_bound(*s->FixedList_0, (n * rows) as nat);
                }
                return false;
            }
            type_nulls_fit(&e, total as usize)
        },
        TypeParts::Fields(es) => types_nulls_fit(&es, rows, Ghost(s)),
        TypeParts::MapOf(e) => {
            assert(decreases_to!(s => s->MapOf_0));
            has_pairs(&e) && type_nulls_fit(&e, 0)
        },
        TypeParts::Simple => match simple_parts(t) {
            SimpleParts::Flat => true,
            SimpleParts::Void => true,
            SimpleParts::Date32 => true,
            SimpleParts::Date64 => true,
            SimpleParts::Time32(u) => is_coarse(step_of(&u)),
            SimpleParts::Time64(u) => !is_coarse(step_of(&u)),
            SimpleParts::Timestamp(_, _) => true,
            SimpleParts::Duration(_) => true,
            SimpleParts::FixedBytes(n) => {
                if n < 0 {
                    return false;
                }
                proof {
                    assert(n as u128 * rows as u128 <= u128::MAX) by (nonlinear_arith)
                        requires
                            0 <= n <= i32::MAX,
                            0 <= rows <= usize::MAX,
                    ;
                }
                n as u128 * rows as u128 <= isize::MAX as u128
            },
            SimpleParts::Coded(k, v) => {
                assert(decreases_to!(s => s->Coded_1));
                is_integer_type(&ColumnType::from_arrow(&k)) && type_nulls_fit(&v, 0)
            },
            SimpleParts::Choice(es, dense) => {
                if es.len() == 0 && rows > 0 {
                    return false;
                }
                if dense && rows as u64 > i32::MAX as u64 {
                    return false;
                }
                let some: bool = types_nulls_fit(&es, rows, Ghost(s));
                let none: bool = types_nulls_fit(&es, 0, Ghost(s));
                some && none
            },
            SimpleParts::Runs(k, v) => {
                assert(decreases_to!(s => s->Runs_1));
                ends_within(&k, rows) && type_nulls_fit(&v, 0) && type_nulls_fit(&v, 1)
            },
        },
    }
}

/// Whether an array of that many nulls can be made for a column of the type.
pub fn can_hold_nulls(t: &ColumnType, rows: usize) -> (r: bool)
    ensures
        r == nulls_fit(shape_of(*t), rows as nat),
{
    match t {
        ColumnType::Other(_) => type_nulls_fit(&t.to_arrow(), rows),
        _ => within_rows(rows),
    }
}

/// Whether the values of a type are days or times of day in 32 bits.
pub open spec fn is_short_time(t: ColumnType) -> bool {
    match shape_of(t) {
        TypeShape::Date32 => true,
        TypeShape::Time32(u) => goes_with_32_bits(u),
        _ => false,
    }
}

/// Whether the values of a type are days, times of day, points or spans of time in 64 bits.
pub open spec fn is_long_time(t: ColumnType) -> bool {
    match shape_of(t) {
        TypeShape::Date64 => true,
        TypeShape::Timestamp(_, _) => true,
        TypeShape::Duration(_) => true,
        TypeShape::Time64(u) => !goes_with_32_bits(u),
        _ => false,
    }
}

/// Whether a type holds days or times of day in 32 bits, and whether it holds days, times of day,
/// points or spans of time in 64 bits.
pub fn time_widths(t: &ColumnType) -> (r: (bool, bool))
    ensures
        r.0 == is_short_time(*t),
        r.1 == is_long_time(*t),
{
    match t {
        ColumnType::Other(_) => {
            let inner: arrow_schema::DataType = t.to_arrow();
            match type_parts(&inner) {
                TypeParts::Simple => match simple_parts(&inner) {
                    SimpleParts::Date32 => (true, false),
                    SimpleParts::Time32(u) => (is_coarse(step_of(&u)), false),
                    SimpleParts::Time64(u) => (false, !is_coarse(step_of(&u))),
                    SimpleParts::Date64 => (false, true),
                    SimpleParts::Timestamp(_, _) => (false, true),
                    SimpleParts::Duration(_) => (false, true),
                    _ => (false, false),
                },
                _ => (false, false),
            }
        },
        _ => (false, false),
    }
}

/// The width of the byte strings of a type that fixes it.
pub fn fixed_width(t: &ColumnType) -> (r: Option<usize>)
    ensures
        match r {
            Some(n) => shape_of(*t) == TypeShape::FixedBytes(n as int),
            None => !(shape_of(*t) is FixedBytes) || shape_of(*t)->FixedBytes_0 < 0,
        },
{
    match t {
        ColumnType::Other(_) => {
            let inner: arrow_schema::DataType = t.to_arrow();
            match type_parts(&inner) {
                TypeParts::Simple => match simple_parts(&inner) {
                    SimpleParts::FixedBytes(n) => if n < 0 {
                        None
                    } else {
                        Some(n as usize)
                    },
                    _ => None,
                },
                _ => None,
            }
        },
        _ => None,
    }
}

fn types_encodable(types: &Vec<arrow_schema::DataType>, Ghost(whole): Ghost<TypeShape>) -> (r: bool)
    requires
        are_parts(whole, type_shapes(types@)),
    ensures
        r == all_encodable(type_shapes(types@)),
    decreases whole, 0int,
{
    let ghost es = type_shapes(types@);
    let mut i: usize = 0;
    while i < types.len()
        invariant
            i <= types@.len(),
            es == type_shapes(types@),
            are_parts(whole, es),
            forall|k: int| 0 <= k < i ==> encodable(#[trigger] es[k]),
        decreases types@.len() - i,
    {
        assert(es[i as int] == type_shape(types@[i as int]));
        proof {
            part_is_smaller(whole, es, i as int);
        }
        if !type_encodable(&types[i]) {
            return false;
        }
        i += 1;
    }
    true
}

fn type_encodable(t: &arrow_schema::DataType) -> (r: bool)
    ensures
        r == encodable(type_shape(*t)),
    decreases type_shape(*t), 1int,
{
    let ghost s = type_shape(*t);
    match type_parts(t) {
        TypeParts::List(_, e) => {
            assert(decreases_to!(s => s->List_1));
            type_encodable(&e)
        },
        TypeParts::FixedList(e, _) => {
            assert(decreases_to!(s => s->FixedList_0));
            type_encodable(&e)
        },
        TypeParts::Fields(es) => types_encodable(&es, Ghost(s)) && types_nulls_fit(
            &es,
            1,
            Ghost(s),
        ),
        TypeParts::MapOf(e) => {
            assert(decreases_to!(s => s->MapOf_0));
            match type_parts(&e) {
                TypeParts::Fields(es) => es.len() == 2 && types_encodable(
                    &es,
                    Ghost(type_shape(e)),
                ),
                TypeParts::Simple => {
                    let parts: SimpleParts = simple_parts(&e);
                    true
                },
                _ => true,
            }
        },
        TypeParts::Simple => match simple_parts(t) {
            SimpleParts::Coded(_, v) => {
                assert(decreases_to!(s => s->Coded_1));
                type_encodable(&v) && type_nulls_fit(&v, 1)
            },
            SimpleParts::Choice(es, _) => types_encodable(&es, Ghost(s)) && types_nulls_fit(
                &es,
                1,
                Ghost(s),
            ),
            SimpleParts::Runs(_, v) => {
                assert(decreases_to!(s => s->Runs_1));
                type_encodable(&v)
            },
            _ => true,
        },
    }
}

/// Whether an encoder of rows can be asked for a column of the type.
pub fn can_encode(t: &ColumnType) -> (r: bool)
    ensures
        r == encodable(shape_of(*t)),
{
    match t {
        ColumnType::Other(_) => type_encodable(&t.to_arrow()),
        _ => true,
    }
}

/// Whether columns of the type are encoded without parts of their own, so that an encoder is
/// never refused.
pub open spec fn is_flat(t: ColumnType) -> bool {
    match shape_of(t) {
        TypeShape::Flat(_) => true,
        TypeShape::Void => true,
        TypeShape::Date32 => true,
        TypeShape::Date64 => true,
        TypeShape::Time32(_) => true,
        TypeShape::Time64(_) => true,
        TypeShape::Timestamp(_, _) => true,
        TypeShape::Duration(_) => true,
        TypeShape::FixedBytes(_) => true,
        _ => false,
    }
}

/// An array of nulls of a type without parts can be made whatever the type is, if the memory of a
/// machine can be asked for it; so can one of lists and of structs of such types.
pub proof fn nulls_of_plain_types_fit(t: ColumnType, rows: nat, k: ListKind, n: nat)
    requires
        t !is Other,
        32 * (rows + 1) <= isize::MAX,
    ensures
        nulls_fit(shape_of(t), rows),
        nulls_fit(TypeShape::Date32, rows),
        nulls_fit(TypeShape::Date64, rows),
        nulls_fit(TypeShape::Time32(TimeStep::Second), rows),
        nulls_fit(TypeShape::Time32(TimeStep::Millisecond), rows),
        nulls_fit(TypeShape::Time64(TimeStep::Microsecond), rows),
        nulls_fit(TypeShape::Time64(TimeStep::Nanosecond), rows),
        forall|u: TimeStep, z: Option<Seq<char>>| #[trigger]
            nulls_fit(TypeShape::Timestamp(u, z), rows),
        forall|u: TimeStep| #[trigger] nulls_fit(TypeShape::Duration(u), rows),
        nulls_fit(TypeShape::List(k, Box::new(shape_of(t))), rows),
        nulls_fit(TypeShape::Fields(Seq::new(n, |i: int| shape_of(t))), rows),
        is_integer(t) ==> nulls_fit(
            TypeShape::Coded(t, Box::new(TypeShape::Flat(ColumnType::Utf8))),
            rows,
        ),
{
    assert(nulls_fit(shape_of(t), 0));
    assert(nulls_fit(TypeShape::Flat(ColumnType::Utf8), 0));
    let parts = Seq::new(n, |i: int| shape_of(t));
    assert forall|i: int| 0 <= i < parts.len() implies nulls_fit(#[trigger] parts[i], rows) by {}
    assert(all_nulls_fit(parts, rows));
}

/// Rows of types without parts can be encoded, and so can rows of lists of them.
pub proof fn plain_types_can_be_encoded(t: ColumnType, k: ListKind)
    ensures
        is_flat(t) ==> encodable(shape_of(t)),
        is_flat(t) ==> encodable(TypeShape::List(k, Box::new(shape_of(t)))),
        t !is Other ==> is_flat(t),
        shape_of(t) is Date32 || shape_of(t) is Date64 || shape_of(t) is Timestamp || shape_of(
            t,
        ) is Time32 || shape_of(t) is Time64 || shape_of(t) is Duration || shape_of(
            t,
        ) is FixedBytes ==> is_flat(t),
{
    if is_flat(t) {
        assert(encodable(shape_of(t)));
    }
}

} // verus!
