//! Which columns can be cast within the bounds of the type that they are cast to.
//!
//! Texts, byte strings and lists with offsets of 32 bits hold no more than the offsets reach, a
//! decimal in fewer bits holds fewer digits, and a time zone moves times.

use arrow_array::cast::AsArray;
use arrow_array::types::{
    Decimal128Type as D128, Decimal256Type as D256, Decimal32Type as D32, Decimal64Type as D64,
    DecimalType,
};
use arrow_schema::DataType;
use vstd::arithmetic::power::pow;
use vstd::pervasive::unreached;
use vstd::prelude::*;
use vstd::utf8::encode_utf8;
use crate::batch::{
    cast_column, column_len, column_type, holds_same, integer_at, null_at, type_of, Column,
};
use crate::rows::{is_null, read_int32, read_int64};
use crate::schema::{is_decimal, is_decimal_type, is_numeric, ColumnType};
use crate::text::text_views;
use crate::type_shape::{
    are_parts, can_hold_nulls, is_undivided, nulls_fit, part_is_smaller, rows_fit, shape_of,
    simple_parts, step_of, time_widths, type_parts, type_shape, type_shapes, ListKind, SimpleParts,
    TimeStep, TypeParts, TypeShape,
};

verus! {

/// What decides whether values of one type can be cast to another.
pub struct TypeTraits {
    /// Whether offsets of 32 bits have to reach over values.
    pub narrow: bool,
    /// The bits of the widest decimal; none where there is no decimal.
    pub widest: nat,
    /// The bits of the narrowest decimal; as many as there can be where there is no decimal.
    pub narrowest: nat,
    /// Whether the decimals have no more digits than their bits hold.
    pub exact: bool,
    /// Whether there are days, or points in time without a zone.
    pub naive: bool,
    /// Whether there are points in time with a zone.
    pub zoned: bool,
    /// Whether there are days, or texts, which times can be written out in.
    pub dated: bool,
    /// Whether there are columns of nothing but nulls.
    pub void: bool,
    /// Whether there are values of a fixed width or length.
    pub sized: bool,
    /// Whether there are unions or runs.
    pub odd: bool,
    /// Whether there are texts or byte strings that are held as views.
    pub viewed: bool,
    /// Whether there are lists.
    pub listed: bool,
}

/// The traits of a type that has none of them.
pub open spec fn no_traits() -> TypeTraits {
    TypeTraits {
        narrow: false,
        widest: 0,
        narrowest: 256,
        exact: true,
        naive: false,
        zoned: false,
        dated: false,
        void: false,
        sized: false,
        odd: false,
        viewed: false,
        listed: false,
    }
}

/// The traits of a decimal type.
pub open spec fn decimal_traits(bits: nat, exact: bool) -> TypeTraits {
    TypeTraits { widest: bits, narrowest: bits, exact, ..no_traits() }
}

/// The number of digits that a decimal type holds in its bits.
pub open spec fn most_digits(t: ColumnType) -> nat {
    match t {
        ColumnType::Decimal32(_, _) => 9,
        ColumnType::Decimal64(_, _) => 18,
        ColumnType::Decimal128(_, _) => 38,
        _ => 76,
    }
}

/// The traits of a type without parts.
pub open spec fn flat_traits(t: ColumnType) -> TypeTraits {
    match t {
        ColumnType::Utf8 => TypeTraits { narrow: true, dated: true, ..no_traits() },
        ColumnType::LargeUtf8 => TypeTraits { dated: true, ..no_traits() },
        ColumnType::Utf8View => TypeTraits { dated: true, viewed: true, ..no_traits() },
        ColumnType::BinaryView => TypeTraits { viewed: true, ..no_traits() },
        ColumnType::Binary => TypeTraits { narrow: true, ..no_traits() },
        ColumnType::Decimal32(p, _) => decimal_traits(32, p <= most_digits(t)),
        ColumnType::Decimal64(p, _) => decimal_traits(64, p <= most_digits(t)),
        ColumnType::Decimal128(p, _) => decimal_traits(128, p <= most_digits(t)),
        ColumnType::Decimal256(p, _) => decimal_traits(256, p <= most_digits(t)),
        _ => no_traits(),
    }
}

/// The traits of a type that is made of two.
pub open spec fn joined_traits(a: TypeTraits, b: TypeTraits) -> TypeTraits {
    TypeTraits {
        narrow: a.narrow || b.narrow,
        widest: if a.widest < b.widest {
            b.widest
        } else {
            a.widest
        },
        narrowest: if b.narrowest < a.narrowest {
            b.narrowest
        } else {
            a.narrowest
        },
        exact: a.exact && b.exact,
        naive: a.naive || b.naive,
        zoned: a.zoned || b.zoned,
        dated: a.dated || b.dated,
        void: a.void || b.void,
        sized: a.sized || b.sized,
        odd: a.odd || b.odd,
        viewed: a.viewed || b.viewed,
        listed: a.listed || b.listed,
    }
}

/// The traits of a type. On their way into a dictionary, values are held with offsets of 32 bits
/// before they are held as views.
pub open spec fn traits_of(s: TypeShape) -> TypeTraits
    decreases s, 0nat,
{
    match s {
        TypeShape::Flat(t) => flat_traits(t),
        TypeShape::Void => TypeTraits { void: true, ..no_traits() },
        TypeShape::Date32 => TypeTraits { naive: true, dated: true, ..no_traits() },
        TypeShape::Date64 => TypeTraits { naive: true, dated: true, ..no_traits() },
        TypeShape::Timestamp(_, z) => TypeTraits {
            naive: z is None,
            zoned: z is Some,
            ..no_traits()
        },
        TypeShape::FixedBytes(_) => TypeTraits { sized: true, ..no_traits() },
        TypeShape::List(k, e) => {
            let inner = traits_of(*e);
            TypeTraits { narrow: inner.narrow || k is Small || k is View, listed: true, ..inner }
        },
        TypeShape::FixedList(e, _) => TypeTraits { sized: true, ..traits_of(*e) },
        TypeShape::Fields(es) => traits_in(es, es.len()),
        TypeShape::MapOf(e) => traits_of(*e),
        TypeShape::Coded(_, v) => {
            let inner = traits_of(*v);
            TypeTraits { narrow: inner.narrow || inner.viewed, ..inner }
        },
        TypeShape::Choice(es, _) => TypeTraits { odd: true, ..traits_in(es, es.len()) },
        TypeShape::Runs(_, v) => TypeTraits { odd: true, ..traits_of(*v) },
        _ => no_traits(),
    }
}

/// The traits of the first `n` of several types together.
pub open spec fn traits_in(es: Seq<TypeShape>, n: nat) -> TypeTraits
    decreases es, n,
{
    if n == 0 || n > es.len() {
        no_traits()
    } else {
        joined_traits(traits_in(es, (n - 1) as nat), traits_of(es[n - 1]))
    }
}

/// The traits of a type, in numbers of the machine.
struct Traits {
    narrow: bool,
    widest: u16,
    narrowest: u16,
    exact: bool,
    naive: bool,
    zoned: bool,
    dated: bool,
    void: bool,
    sized: bool,
    odd: bool,
    viewed: bool,
    listed: bool,
}

impl Traits {
    spec fn view(&self) -> TypeTraits {
        TypeTraits {
            narrow: self.narrow,
            widest: self.widest as nat,
            narrowest: self.narrowest as nat,
            exact: self.exact,
            naive: self.naive,
            zoned: self.zoned,
            dated: self.dated,
            void: self.void,
            sized: self.sized,
            odd: self.odd,
            viewed: self.viewed,
            listed: self.listed,
        }
    }
}

fn plain_traits() -> (r: Traits)
    ensures
        r@ == no_traits(),
{
    Traits {
        narrow: false,
        widest: 0,
        narrowest: 256,
        exact: true,
        naive: false,
        zoned: false,
        dated: false,
        void: false,
        sized: false,
        odd: false,
        viewed: false,
        listed: false,
    }
}

fn traits_of_decimal(bits: u16, exact: bool) -> (r: Traits)
    ensures
        r@ == decimal_traits(bits as nat, exact),
{
    let mut r: Traits = plain_traits();
    r.widest = bits;
    r.narrowest = bits;
    r.exact = exact;
    r
}

fn traits_of_time(zoned: bool, dated: bool) -> (r: Traits)
    ensures
        r@ == (TypeTraits { naive: !zoned, zoned, dated, ..no_traits() }),
{
    let mut r: Traits = plain_traits();
    r.naive = !zoned;
    r.zoned = zoned;
    r.dated = dated;
    r
}

fn traits_of_flat(t: &ColumnType) -> (r: Traits)
    ensures
        r@ == flat_traits(*t),
{
    let mut r: Traits = plain_traits();
    match t {
        ColumnType::Utf8 => {
            r.narrow = true;
            r.dated = true;
        },
        ColumnType::LargeUtf8 => {
            r.dated = true;
        },
        ColumnType::Utf8View => {
            r.dated = true;
            r.viewed = true;
        },
        ColumnType::BinaryView => {
            r.viewed = true;
        },
        ColumnType::Binary => {
            r.narrow = true;
        },
        ColumnType::Decimal32(p, _) => {
            r = traits_of_decimal(32, *p <= 9);
        },
        ColumnType::Decimal64(p, _) => {
            r = traits_of_decimal(64, *p <= 18);
        },
        ColumnType::Decimal128(p, _) => {
            r = traits_of_decimal(128, *p <= 38);
        },
        ColumnType::Decimal256(p, _) => {
            r = traits_of_decimal(256, *p <= 76);
        },
        _ => {},
    }
    r
}

fn join_traits(a: Traits, b: Traits) -> (r: Traits)
    ensures
        r@ == joined_traits(a@, b@),
{
    Traits {
        narrow: a.narrow || b.narrow,
        widest: if a.widest < b.widest {
            b.widest
        } else {
            a.widest
        },
        narrowest: if b.narrowest < a.narrowest {
            b.narrowest
        } else {
            a.narrowest
        },
        exact: a.exact && b.exact,
        naive: a.naive || b.naive,
        zoned: a.zoned || b.zoned,
        dated: a.dated || b.dated,
        void: a.void || b.void,
        sized: a.sized || b.sized,
        odd: a.odd || b.odd,
        viewed: a.viewed || b.viewed,
        listed: a.listed || b.listed,
    }
}

fn types_traits(types: &Vec<arrow_schema::DataType>, Ghost(whole): Ghost<TypeShape>) -> (r: Traits)
    requires
        are_parts(whole, type_shapes(types@)),
    ensures
        r@ == traits_in(type_shapes(types@), types@.len()),
    decreases whole, 0int,
{
    let ghost es = type_shapes(types@);
    let mut all: Traits = plain_traits();
    let mut i: usize = 0;
    while i < types.len()
        invariant
            i <= types@.len(),
            es == type_shapes(types@),
            are_parts(whole, es),
            all@ == traits_in(es, i as nat),
        decreases types@.len() - i,
    {
        assert(es[i as int] == type_shape(types@[i as int]));
        proof {
            part_is_smaller(whole, es, i as int);
        }
        all = join_traits(all, type_traits(&types[i]));
        i += 1;
    }
    all
}

fn type_traits(t: &arrow_schema::DataType) -> (r: Traits)
    ensures
        r@ == traits_of(type_shape(*t)),
    decreases type_shape(*t), 1int,
{
    let ghost s = type_shape(*t);
    match type_parts(t) {
        TypeParts::List(k, e) => {
            assert(decreases_to!(s => s->List_1));
            let mut r: Traits = type_traits(&e);
            let short: bool = match k {
                ListKind::Small => true,
                ListKind::View => true,
                _ => false,
            };
            r.narrow = r.narrow || short;
            r.listed = true;
            r
        },
        TypeParts::FixedList(e, _) => {
            assert(decreases_to!(s => s->FixedList_0));
            let mut r: Traits = type_traits(&e);
            r.sized = true;
            r
        },
        TypeParts::Fields(es) => types_traits(&es, Ghost(s)),
        TypeParts::MapOf(e) => {
            assert(decreases_to!(s => s->MapOf_0));
            type_traits(&e)
        },
        TypeParts::Simple => match simple_parts(t) {
            SimpleParts::Flat => traits_of_flat(&ColumnType::from_arrow(t)),
            SimpleParts::Void => {
                let mut r: Traits = plain_traits();
                r.void = true;
                r
            },
            SimpleParts::Date32 => traits_of_time(false, true),
            SimpleParts::Date64 => traits_of_time(false, true),
            SimpleParts::Timestamp(_, z) => traits_of_time(z.is_some(), false),
            SimpleParts::FixedBytes(_) => {
                let mut r: Traits = plain_traits();
                r.sized = true;
                r
            },
            SimpleParts::Coded(_, v) => {
                assert(decreases_to!(s => s->Coded_1));
                let mut r: Traits = type_traits(&v);
                r.narrow = r.narrow || r.viewed;
                r
            },
            SimpleParts::Choice(es, _) => {
                let mut r: Traits = types_traits(&es, Ghost(s));
                r.odd = true;
                r
            },
            SimpleParts::Runs(_, v) => {
                assert(decreases_to!(s => s->Runs_1));
                let mut r: Traits = type_traits(&v);
                r.odd = true;
                r
            },
            _ => plain_traits(),
        },
    }
}

fn column_traits(t: &ColumnType) -> (r: Traits)
    ensures
        r@ == traits_of(shape_of(*t)),
{
    match t {
        ColumnType::Other(_) => type_traits(&t.to_arrow()),
        _ => traits_of_flat(t),
    }
}

/// The columns that a column is made of: the values of a list or dictionary, the columns of a
/// struct or union, the entries of a map, the ends and the values of runs.
pub uninterp spec fn column_parts(c: Column) -> Seq<Column>;

/// The names of the columns that a struct is made of.
pub uninterp spec fn column_labels(c: Column) -> Seq<Seq<char>>;

/// The number of bytes that the values of a column and what tells them apart take.
pub uninterp spec fn slice_size(c: Column) -> Option<nat>;

/// The number of bytes in the buffer that holds the values of a column. A column that is part of
/// another shares its buffer.
pub uninterp spec fn buffer_size(c: Column) -> nat;

/// The number of bytes that the values of a column of views take.
pub uninterp spec fn view_size(c: Column) -> nat;

/// Calls `Array::len`.
#[verifier::external_body]
fn count_values(c: &Column) -> (r: usize)
    ensures
        r == column_len(*c),
{
    arrow_array::Array::len(&c.array)
}

/// Calls `Array::to_data` and makes arrays of its child data, which are typed as the parts of
/// the type.
#[verifier::external_body]
fn read_parts(c: &Column) -> (r: Vec<Column>)
    ensures
        r@ == column_parts(*c),
        match shape_of(column_type(*c)) {
            TypeShape::List(_, e) => r@.len() == 1 && shape_of(column_type(r@[0])) == *e,
            TypeShape::FixedList(e, _) => r@.len() == 1 && shape_of(column_type(r@[0])) == *e,
            TypeShape::MapOf(e) => r@.len() == 1 && shape_of(column_type(r@[0])) == *e,
            TypeShape::Coded(_, v) => r@.len() == 1 && shape_of(column_type(r@[0])) == *v,
            TypeShape::Fields(es) => r@.len() == es.len() && forall|i: int|
                0 <= i < es.len() ==> shape_of(column_type(#[trigger] r@[i])) == es[i],
            TypeShape::Choice(es, _) => r@.len() == es.len() && forall|i: int|
                0 <= i < es.len() ==> shape_of(column_type(#[trigger] r@[i])) == es[i],
            TypeShape::Runs(_, v) => r@.len() == 2 && shape_of(column_type(r@[1])) == *v,
            _ => r@.len() >= 0,
        },
{
    let data = arrow_array::Array::to_data(&c.array);
    let part = |d: &_| Column { array: arrow_array::make_array(Clone::clone(d)) };
    data.child_data().iter().map(part).collect()
}

/// Calls `StructArray::column_names`; there is a name for each column.
#[verifier::external_body]
fn read_labels(c: &Column) -> (r: Vec<String>)
    requires
        shape_of(column_type(*c)) is Fields,
    ensures
        text_views(r@) == column_labels(*c),
        r@.len() == shape_of(column_type(*c))->Fields_0.len(),
{
    let labels = arrow_array::cast::AsArray::as_struct(&c.array).column_names();
    labels.into_iter().map(str::to_owned).collect()
}

/// Calls `ArrayData::get_slice_memory_size` on the data of a column of texts or byte strings.
#[verifier::external_body]
fn read_slice_size(c: &Column) -> (r: Option<usize>)
    requires
        is_plain_text(column_type(*c)),
    ensures
        match r {
            Some(n) => slice_size(*c) == Some(n as nat),
            None => slice_size(*c) is None,
        },
{
    arrow_array::Array::to_data(&c.array).get_slice_memory_size().ok()
}

/// Calls `ArrayData::buffers` on the data of a column of texts or byte strings, which are in the
/// second one, and tells how long that is.
#[verifier::external_body]
fn read_buffer_size(c: &Column) -> (r: usize)
    requires
        is_plain_text(column_type(*c)),
    ensures
        r == buffer_size(*c),
{
    arrow_array::Array::to_data(&c.array).buffers()[1].len()
}

/// Calls `GenericByteViewArray::total_bytes_len` on a column of texts or byte strings held as
/// views.
#[verifier::external_body]
fn read_view_size(c: &Column) -> (r: usize)
    requires
        column_type(*c) is Utf8View || column_type(*c) is BinaryView,
    ensures
        r == view_size(*c),
{
    match arrow_array::cast::AsArray::as_string_view_opt(&c.array) {
        Some(texts) => texts.total_bytes_len(),
        None => arrow_array::cast::AsArray::as_binary_view(&c.array).total_bytes_len(),
    }
}

/// Whether a type holds texts or byte strings one behind the other. A cast tells by their
/// offsets whether they fit.
pub open spec fn is_plain_text(t: ColumnType) -> bool {
    t is Utf8 || t is LargeUtf8 || t is Binary || t is LargeBinary
}

/// The number of characters that a value of a type without parts takes at most when it is
/// written out.
pub open spec fn text_width(t: ColumnType) -> nat {
    match t {
        ColumnType::Boolean => 5,
        ColumnType::Int8 => 4,
        ColumnType::Int16 => 6,
        ColumnType::Int32 => 11,
        ColumnType::Int64 => 20,
        ColumnType::UInt8 => 3,
        ColumnType::UInt16 => 5,
        ColumnType::UInt32 => 10,
        ColumnType::UInt64 => 20,
        ColumnType::Float16 => 25,
        ColumnType::Float32 => 25,
        ColumnType::Float64 => 25,
        ColumnType::Decimal32(_, s) => 13 + spread_of(s),
        ColumnType::Decimal64(_, s) => 22 + spread_of(s),
        ColumnType::Decimal128(_, s) => 42 + spread_of(s),
        ColumnType::Decimal256(_, s) => 80 + spread_of(s),
        _ => 96,
    }
}

/// The number of zeros that a scale adds to a decimal at most.
pub open spec fn spread_of(scale: i8) -> nat {
    if scale < 0 {
        -scale as nat
    } else {
        scale as nat
    }
}

/// The number of characters that a day, a time or a null takes at most when it is written out.
pub open spec fn time_width(s: TypeShape) -> nat {
    match s {
        TypeShape::Void => 0,
        TypeShape::Date32 => 14,
        TypeShape::Date64 => 32,
        TypeShape::Time32(_) => 20,
        TypeShape::Time64(_) => 20,
        _ => 40,
    }
}

/// The number of characters that a day, a time or a null takes at most when it is written out in
/// another value. A day or time that there is no date for is an error then, which is written out.
pub open spec fn part_width(s: TypeShape) -> nat {
    match s {
        TypeShape::Void => 0,
        TypeShape::Duration(_) => 40,
        _ => 128,
    }
}

/// A number of bytes with more to come.
pub open spec fn plus(a: Option<nat>, b: Option<nat>) -> Option<nat> {
    match (a, b) {
        (Some(a), Some(b)) => Some(a + b),
        _ => None,
    }
}

/// A number of bytes as many times; it is to be within the reach of offsets itself.
pub open spec fn times(a: Option<nat>, n: nat) -> Option<nat> {
    if is_within_offsets(a) {
        Some(a->0 * n)
    } else {
        None
    }
}

/// The number of bytes that the values of a column of the given shape take at most when they are
/// written out; each value of a dictionary takes no more than all of them. There is no telling of
/// lists that share values, of unions and of runs.
pub open spec fn written_size(c: Column, s: TypeShape) -> Option<nat>
    decreases s, 0nat,
{
    match s {
        TypeShape::Flat(t) => if is_plain_text(t) {
            plus(slice_size(c), slice_size(c))
        } else if t is Utf8View || t is BinaryView {
            Some(2 * view_size(c) + column_len(c))
        } else {
            Some(text_width(t) * column_len(c))
        },
        TypeShape::FixedBytes(n) => if n >= 0 {
            Some((2 * n + 1) as nat * column_len(c))
        } else {
            None
        },
        TypeShape::List(k, e) => if k is Small || k is Large {
            plus(
                written_size(column_parts(c)[0], *e),
                Some(4 * column_len(c) + 4 * column_len(column_parts(c)[0])),
            )
        } else {
            None
        },
        TypeShape::FixedList(e, _) => plus(
            written_size(column_parts(c)[0], *e),
            Some(4 * column_len(c) + 4 * column_len(column_parts(c)[0])),
        ),
        TypeShape::MapOf(e) => plus(
            written_size(column_parts(c)[0], *e),
            Some(4 * column_len(c) + 4 * column_len(column_parts(c)[0])),
        ),
        TypeShape::Fields(es) => written_fields(c, es, es.len()),
        TypeShape::Coded(_, v) => times(written_size(column_parts(c)[0], *v), column_len(c)),
        TypeShape::Choice(_, _) => None,
        TypeShape::Runs(_, _) => None,
        _ => Some(part_width(s) * column_len(c)),
    }
}

/// The number of bytes that the first `n` columns of a struct take at most when its values are
/// written out.
pub open spec fn written_fields(c: Column, es: Seq<TypeShape>, n: nat) -> Option<nat>
    decreases es, n,
{
    if n == 0 || n > es.len() {
        Some(4 * column_len(c))
    } else {
        plus(
            plus(
                written_fields(c, es, (n - 1) as nat),
                written_size(column_parts(c)[n - 1], es[n - 1]),
            ),
            Some((encode_utf8(column_labels(c)[n - 1]).len() + 4) * column_len(c)),
        )
    }
}

/// Whether a number of bytes is within what offsets of 32 bits reach.
pub open spec fn is_within_offsets(n: Option<nat>) -> bool {
    n matches Some(n) && n <= i32::MAX
}

/// Whether values of a type end up in an array without parts, or in a dictionary of such values.
pub open spec fn lands_flat(to: TypeShape) -> bool {
    match to {
        TypeShape::Flat(_) => true,
        TypeShape::Coded(_, v) => *v is Flat,
        _ => false,
    }
}

/// Whether what a column of the given shape holds is within what offsets of 32 bits reach, or a
/// cast tells that it is not. The values of a dictionary are cast before they are spread out.
pub open spec fn text_fits(c: Column, s: TypeShape, flat: bool) -> bool
    decreases s,
{
    match s {
        TypeShape::Flat(t) => is_plain_text(t) || is_within_offsets(written_size(c, s)),
        TypeShape::FixedBytes(_) => true,
        TypeShape::Coded(_, v) => if flat {
            text_fits(column_parts(c)[0], *v, flat)
        } else {
            is_within_offsets(written_size(c, s))
        },
        TypeShape::Runs(_, v) => flat && (*v matches TypeShape::Flat(t) && is_plain_text(t)),
        _ => if is_undivided(s) {
            is_within_offsets(Some(time_width(s) * column_len(c)))
        } else {
            is_within_offsets(written_size(c, s))
        },
    }
}

/// How many units of a point in time make up a day.
pub open spec fn units_per_day(u: TimeStep) -> int {
    match u {
        TimeStep::Second => 86_400,
        TimeStep::Millisecond => 86_400_000,
        TimeStep::Microsecond => 86_400_000_000,
        TimeStep::Nanosecond => 86_400_000_000_000,
    }
}

/// Whether a time is within two days of the first or behind the last day that there is a date
/// for, so that a time zone can move it out of or into that range. The days are counted from the
/// epoch, the time in parts of which a day has that many.
pub open spec fn is_near_edge(n: int, per_day: int) -> bool {
    ||| -96_465_294 * per_day < n < -96_465_290 * per_day
    ||| 95_026_235 * per_day < n < 95_026_239 * per_day
}

/// Whether the times in a column keep clear of the first and the last day.
pub open spec fn is_calm(c: Column, per_day: int) -> bool {
    rows_fit(column_len(c)) && forall|row: nat|
        row < column_len(c) && !#[trigger] null_at(c, row) ==> !is_near_edge(
            integer_at(c, row),
            per_day,
        )
}

/// The number of which a decimal is made up, without its decimal point.
pub uninterp spec fn decimal_at(c: Column, row: nat) -> int;

/// The number of digits that a decimal type has.
pub open spec fn digits_of(t: ColumnType) -> nat {
    match t {
        ColumnType::Decimal32(p, _) => p as nat,
        ColumnType::Decimal64(p, _) => p as nat,
        ColumnType::Decimal128(p, _) => p as nat,
        ColumnType::Decimal256(p, _) => p as nat,
        _ => 0,
    }
}

/// Whether a decimal has no more digits than its type, which has no more than its bits hold. It
/// is said of what stands behind a null as well.
pub open spec fn holds_digits(c: Column, row: nat) -> bool {
    let p = digits_of(column_type(c));
    p <= most_digits(column_type(c)) && -pow(10, p) < decimal_at(c, row) < pow(10, p)
}

/// What is asked of the values of a column before it is cast.
pub struct Needs {
    /// That times keep clear of the first and the last day.
    pub times: bool,
    /// That decimals have no more digits than their type.
    pub digits: bool,
    /// That columns of nothing but nulls are not too long.
    pub voids: bool,
    /// That texts and byte strings are in buffers that views can point into.
    pub views: bool,
    /// That lists are not too long for views when they are written out.
    pub lists: bool,
}

/// Whether views can point into the buffer of a column of texts or byte strings.
pub open spec fn has_viewable(c: Column) -> bool {
    buffer_size(c) < u32::MAX
}

/// The number of bytes that a list of values of the given shape takes at most when it is written
/// out.
pub open spec fn list_size(values: Column, e: TypeShape) -> Option<nat> {
    plus(written_size(values, e), Some(4 * column_len(values) + 4))
}

/// Whether the values of a column of the given shape, or of the columns that it is made of, are
/// as they are needed.
pub open spec fn meets(c: Column, s: TypeShape, n: Needs) -> bool
    decreases s, 0nat,
{
    match s {
        TypeShape::Flat(t) => {
            &&& n.digits && is_decimal(t) ==> forall|row: nat|
                row < column_len(c) ==> #[trigger] holds_digits(c, row)
            &&& n.views && is_plain_text(t) ==> has_viewable(c)
        },
        TypeShape::Void => n.voids ==> column_len(c) <= i32::MAX,
        TypeShape::Date32 => n.times ==> is_calm(c, 1),
        TypeShape::Date64 => n.times ==> is_calm(c, units_per_day(TimeStep::Millisecond)),
        TypeShape::Timestamp(u, _) => n.times ==> is_calm(c, units_per_day(u)),
        TypeShape::List(_, e) => {
            &&& n.lists ==> is_within_offsets(list_size(column_parts(c)[0], *e))
            &&& meets(column_parts(c)[0], *e, n)
        },
        TypeShape::FixedList(e, _) => meets(column_parts(c)[0], *e, n),
        TypeShape::MapOf(e) => meets(column_parts(c)[0], *e, n),
        TypeShape::Coded(_, v) => meets(column_parts(c)[0], *v, n),
        TypeShape::Fields(es) => all_meet(column_parts(c), es, n),
        TypeShape::Choice(es, _) => all_meet(column_parts(c), es, n),
        TypeShape::Runs(_, v) => meets(column_parts(c)[1], *v, n),
        _ => true,
    }
}

/// Whether [`meets`] holds of several columns.
pub open spec fn all_meet(parts: Seq<Column>, es: Seq<TypeShape>, n: Needs) -> bool
    decreases es, 1nat,
{
    forall|i: int| 0 <= i < es.len() ==> meets(parts[i], #[trigger] es[i], n)
}

/// Whether a type has no parts.
pub open spec fn is_single_piece(s: TypeShape) -> bool {
    is_undivided(s) || s is FixedBytes
}

/// Whether unions and runs stand alone in a type, and hold values without parts.
pub open spec fn stands_alone(s: TypeShape) -> bool {
    match s {
        TypeShape::Choice(es, _) => forall|i: int|
            0 <= i < es.len() ==> is_single_piece(#[trigger] es[i]),
        TypeShape::Runs(_, v) => is_single_piece(*v),
        _ => !traits_of(s).odd,
    }
}

/// Whether a shape is one of lists of values without parts.
pub open spec fn is_flat_list(s: TypeShape) -> bool {
    s matches TypeShape::List(_, e) && *e is Flat
}

/// What is needed for a cast from a type with the given traits to another. Lists of values without
/// parts are cast to other such lists value by value.
pub open spec fn needs_of(from: TypeTraits, to: TypeTraits, flat_lists: bool) -> Needs {
    Needs {
        times: (from.naive && to.zoned) || (from.zoned && to.dated),
        digits: to.narrowest < from.widest,
        voids: from.void,
        views: to.viewed,
        lists: to.viewed && from.listed && !flat_lists,
    }
}

/// Whether a column can be cast to a type within its bounds:
///
/// - unions and runs are not inside other types, whose positions may run over their ends;
/// - what it holds is within the reach of offsets of 32 bits in the type;
/// - decimals that are cast to fewer bits have no more digits than they should;
/// - days and times that enter a time zone, leave it for days or are written out in it keep clear
///   of the first and the last day;
/// - nulls that take no memory are not to be spelt out in values of a fixed width;
/// - texts, byte strings and written lists that become views are within what views can point to.
pub open spec fn cast_fits(c: Column, to: ColumnType) -> bool {
    let from = shape_of(column_type(c));
    let have = traits_of(from);
    let want = traits_of(shape_of(to));
    &&& stands_alone(from)
    &&& stands_alone(shape_of(to))
    &&& from is Choice ==> nulls_fit(from, column_len(c))
    &&& from is Runs ==> column_len(c) <= i32::MAX
    &&& want.narrowest < have.widest ==> want.exact
    &&& have.void && want.sized ==> from is Void
    &&& from is Void || meets(
        c,
        from,
        needs_of(have, want, is_flat_list(from) && is_flat_list(shape_of(to))),
    )
    &&& want.narrow ==> text_fits(c, from, lands_flat(shape_of(to)))
}

/// What is left of a number of bytes where it is within what offsets of 32 bits reach.
spec fn is_measure(r: Option<u64>, n: Option<nat>) -> bool {
    match r {
        Some(m) => n == Some(m as nat) && m <= i32::MAX,
        None => !is_within_offsets(n),
    }
}

fn measured(n: u64) -> (r: Option<u64>)
    ensures
        is_measure(r, Some(n as nat)),
{
    if n <= i32::MAX as u64 {
        Some(n)
    } else {
        None
    }
}

fn measured_product(a: u64, b: u64) -> (r: Option<u64>)
    ensures
        is_measure(r, Some((a * b) as nat)),
{
    match a.checked_mul(b) {
        Some(n) => measured(n),
        None => None,
    }
}

fn measured_times(a: Option<u64>, n: u64, Ghost(m): Ghost<Option<nat>>) -> (r: Option<u64>)
    requires
        is_measure(a, m),
    ensures
        is_measure(r, times(m, n as nat)),
{
    match a {
        Some(a) => measured_product(a, n),
        None => None,
    }
}

fn measured_sum(a: Option<u64>, b: Option<u64>, Ghost(m): Ghost<Option<nat>>, Ghost(n): Ghost<
    Option<nat>,
>) -> (r: Option<u64>)
    requires
        is_measure(a, m),
        is_measure(b, n),
    ensures
        is_measure(r, plus(m, n)),
{
    match (a, b) {
        (Some(a), Some(b)) => measured(a + b),
        _ => None,
    }
}

fn width_of(t: &ColumnType) -> (r: u64)
    ensures
        r == text_width(*t),
{
    match t {
        ColumnType::Boolean => 5,
        ColumnType::Int8 => 4,
        ColumnType::Int16 => 6,
        ColumnType::Int32 => 11,
        ColumnType::Int64 => 20,
        ColumnType::UInt8 => 3,
        ColumnType::UInt16 => 5,
        ColumnType::UInt32 => 10,
        ColumnType::UInt64 => 20,
        ColumnType::Float16 => 25,
        ColumnType::Float32 => 25,
        ColumnType::Float64 => 25,
        ColumnType::Decimal32(_, s) => 13 + spread_by(*s),
        ColumnType::Decimal64(_, s) => 22 + spread_by(*s),
        ColumnType::Decimal128(_, s) => 42 + spread_by(*s),
        ColumnType::Decimal256(_, s) => 80 + spread_by(*s),
        _ => 96,
    }
}

fn spread_by(scale: i8) -> (r: u64)
    ensures
        r == spread_of(scale),
        r <= 128,
{
    if scale < 0 {
        -(scale as i64) as u64
    } else {
        scale as u64
    }
}

fn is_plain_text_type(t: &ColumnType) -> (r: bool)
    ensures
        r == is_plain_text(*t),
{
    match t {
        ColumnType::Utf8 => true,
        ColumnType::LargeUtf8 => true,
        ColumnType::Binary => true,
        ColumnType::LargeBinary => true,
        _ => false,
    }
}

fn measure_flat(c: &Column, t: &ColumnType) -> (r: Option<u64>)
    requires
        shape_of(column_type(*c)) == TypeShape::Flat(*t),
        t !is Other ==> column_type(*c) == *t,
    ensures
        is_measure(r, written_size(*c, TypeShape::Flat(*t))),
{
    if is_plain_text_type(t) {
        match read_slice_size(c) {
            Some(n) => {
                let once: Option<u64> = measured(n as u64);
                let again: Option<u64> = measured(n as u64);
                measured_sum(once, again, Ghost(slice_size(*c)), Ghost(slice_size(*c)))
            },
            None => None,
        }
    } else {
        let len: u64 = count_values(c) as u64;
        let views: bool = match t {
            ColumnType::Utf8View => true,
            ColumnType::BinaryView => true,
            _ => false,
        };
        if views {
            let size: u64 = read_view_size(c) as u64;
            let twice: Option<u64> = measured_product(2, size);
            measured_sum(
                twice,
                measured(len),
                Ghost(Some((2 * size) as nat)),
                Ghost(Some(len as nat)),
            )
        } else {
            measured_product(width_of(t), len)
        }
    }
}

fn measure_listed(c: &Column, part: &Column, Ghost(e): Ghost<TypeShape>) -> (r: Option<u64>)
    requires
        shape_of(column_type(*part)) == e,
    ensures
        is_measure(
            r,
            plus(
                written_size(*part, e),
                Some(4 * column_len(*c) + 4 * column_len(*part)),
            ),
        ),
    decreases e, 2int,
{
    let inner: Option<u64> = measure(part);
    let len: u64 = count_values(c) as u64;
    let values: u64 = count_values(part) as u64;
    let rows: Option<u64> = measured_product(4, len);
    let items: Option<u64> = measured_product(4, values);
    let marks: Option<u64> = measured_sum(
        rows,
        items,
        Ghost(Some((4 * len) as nat)),
        Ghost(Some((4 * values) as nat)),
    );
    measured_sum(
        inner,
        marks,
        Ghost(written_size(*part, e)),
        Ghost(Some((4 * len + 4 * values) as nat)),
    )
}

fn measure_fields(c: &Column, Ghost(es): Ghost<Seq<TypeShape>>) -> (r: Option<u64>)
    requires
        shape_of(column_type(*c)) == TypeShape::Fields(es),
    ensures
        is_measure(r, written_fields(*c, es, es.len())),
    decreases shape_of(column_type(*c)), 0int,
{
    let ghost whole = shape_of(column_type(*c));
    let parts: Vec<Column> = read_parts(c);
    let labels: Vec<String> = read_labels(c);
    let len: u64 = count_values(c) as u64;
    let mut size: Option<u64> = measured_product(4, len);
    let mut i: usize = 0;
    while i < parts.len()
        invariant
            whole == shape_of(column_type(*c)),
            whole == TypeShape::Fields(es),
            parts@ == column_parts(*c),
            text_views(labels@) == column_labels(*c),
            parts@.len() == es.len(),
            labels@.len() == es.len(),
            len == column_len(*c),
            forall|k: int|
                0 <= k < es.len() ==> shape_of(column_type(#[trigger] parts@[k])) == es[k],
            i <= parts@.len(),
            is_measure(size, written_fields(*c, es, i as nat)),
        decreases parts@.len() - i,
    {
        proof {
            part_is_smaller(whole, es, i as int);
        }
        let ghost so_far = written_fields(*c, es, i as nat);
        let ghost next = written_size(parts@[i as int], es[i as int]);
        let part: Option<u64> = measure(&parts[i]);
        let sum: Option<u64> = measured_sum(size, part, Ghost(so_far), Ghost(next));
        let bytes: usize = labels[i].as_str().as_bytes().len();
        assert(column_labels(*c)[i as int] == labels@[i as int]@);
        let ghost label: int = bytes + 4;
        let names: Option<u64> = match (bytes as u64).checked_add(4) {
            Some(n) => measured_product(n, len),
            None => if len == 0 {
                assert(label * len == 0) by (nonlinear_arith)
                    requires
                        len == 0,
                ;
                Some(0)
            } else {
                assert(label * len >= label) by (nonlinear_arith)
                    requires
                        len >= 1,
                        label >= 0,
                ;
                None
            },
        };
        size = measured_sum(
            sum,
            names,
            Ghost(plus(so_far, next)),
            Ghost(Some((label * len) as nat)),
        );
        i += 1;
    }
    size
}

/// How many bytes the values of a column take at most when they are written out, where that is
/// within what offsets of 32 bits reach.
fn measure(c: &Column) -> (r: Option<u64>)
    ensures
        is_measure(r, written_size(*c, shape_of(column_type(*c)))),
    decreases shape_of(column_type(*c)), 1int,
{
    let ghost s = shape_of(column_type(*c));
    let t: ColumnType = type_of(c);
    let is_other: bool = match &t {
        ColumnType::Other(_) => true,
        _ => false,
    };
    if !is_other {
        return measure_flat(c, &t);
    }
    let inner: arrow_schema::DataType = t.to_arrow();
    match type_parts(&inner) {
        TypeParts::List(k, _) => {
            assert(decreases_to!(s => s->List_1));
            match k {
                ListKind::Small => measure_listed(c, &read_parts(c)[0], Ghost(*s->List_1)),
                ListKind::Large => measure_listed(c, &read_parts(c)[0], Ghost(*s->List_1)),
                _ => None,
            }
        },
        TypeParts::FixedList(_, _) => {
            assert(decreases_to!(s => s->FixedList_0));
            measure_listed(c, &read_parts(c)[0], Ghost(*s->FixedList_0))
        },
        TypeParts::Fields(_) => measure_fields(c, Ghost(s->Fields_0)),
        TypeParts::MapOf(_) => {
            assert(decreases_to!(s => s->MapOf_0));
            measure_listed(c, &read_parts(c)[0], Ghost(*s->MapOf_0))
        },
        TypeParts::Simple => match simple_parts(&inner) {
            SimpleParts::Flat => measure_flat(c, &ColumnType::from_arrow(&inner)),
            SimpleParts::FixedBytes(n) => {
                if n < 0 {
                    return None;
                }
                measured_product(2 * (n as u64) + 1, count_values(c) as u64)
            },
            SimpleParts::Coded(_, _) => {
                assert(decreases_to!(s => s->Coded_1));
                let values: Vec<Column> = read_parts(c);
                let all: Option<u64> = measure(&values[0]);
                measured_times(
                    all,
                    count_values(c) as u64,
                    Ghost(written_size(values@[0], *s->Coded_1)),
                )
            },
            SimpleParts::Choice(_, _) => None,
            SimpleParts::Runs(_, _) => None,
            SimpleParts::Void => measured_product(0, count_values(c) as u64),
            SimpleParts::Duration(_) => measured_product(40, count_values(c) as u64),
            _ => measured_product(128, count_values(c) as u64),
        },
    }
}

fn lands_in_flat(to: &ColumnType) -> (r: bool)
    ensures
        r == lands_flat(shape_of(*to)),
{
    match to {
        ColumnType::Other(_) => {
            let inner: arrow_schema::DataType = to.to_arrow();
            match type_parts(&inner) {
                TypeParts::Simple => match simple_parts(&inner) {
                    SimpleParts::Flat => true,
                    SimpleParts::Coded(_, v) => is_flat_type(&v),
                    _ => false,
                },
                _ => false,
            }
        },
        _ => true,
    }
}

fn is_flat_type(t: &arrow_schema::DataType) -> (r: bool)
    ensures
        r == (type_shape(*t) is Flat),
{
    match type_parts(t) {
        TypeParts::Simple => match simple_parts(t) {
            SimpleParts::Flat => true,
            _ => false,
        },
        _ => false,
    }
}

/// Whether an Arrow type holds texts or byte strings one behind the other.
fn is_plain_text_arrow(t: &arrow_schema::DataType) -> (r: bool)
    ensures
        r == (type_shape(*t) matches TypeShape::Flat(m) && is_plain_text(m)),
{
    match type_parts(t) {
        TypeParts::Simple => match simple_parts(t) {
            SimpleParts::Flat => is_plain_text_type(&ColumnType::from_arrow(t)),
            _ => false,
        },
        _ => false,
    }
}

fn can_hold_text(c: &Column, flat: bool) -> (r: bool)
    ensures
        r == text_fits(*c, shape_of(column_type(*c)), flat),
    decreases shape_of(column_type(*c)),
{
    let ghost s = shape_of(column_type(*c));
    let t: ColumnType = type_of(c);
    let is_other: bool = match &t {
        ColumnType::Other(_) => true,
        _ => false,
    };
    if !is_other {
        return is_plain_text_type(&t) || measure(c).is_some();
    }
    let inner: arrow_schema::DataType = t.to_arrow();
    match type_parts(&inner) {
        TypeParts::Simple => match simple_parts(&inner) {
            SimpleParts::Flat => is_plain_text_type(&ColumnType::from_arrow(&inner)) || measure(
                c,
            ).is_some(),
            SimpleParts::FixedBytes(_) => true,
            SimpleParts::Coded(_, _) => {
                assert(decreases_to!(s => s->Coded_1));
                if flat {
                    can_hold_text(&read_parts(c)[0], flat)
                } else {
                    measure(c).is_some()
                }
            },
            SimpleParts::Runs(_, v) => flat && is_plain_text_arrow(&v),
            SimpleParts::Choice(_, _) => measure(c).is_some(),
            SimpleParts::Void => measured_product(0, count_values(c) as u64).is_some(),
            SimpleParts::Date32 => measured_product(14, count_values(c) as u64).is_some(),
            SimpleParts::Date64 => measured_product(32, count_values(c) as u64).is_some(),
            SimpleParts::Time32(_) => measured_product(20, count_values(c) as u64).is_some(),
            SimpleParts::Time64(_) => measured_product(20, count_values(c) as u64).is_some(),
            SimpleParts::Timestamp(_, _) => measured_product(
                40,
                count_values(c) as u64,
            ).is_some(),
            SimpleParts::Duration(_) => measured_product(40, count_values(c) as u64).is_some(),
        },
        _ => measure(c).is_some(),
    }
}

/// Whether a list of the values of a column can be written out.
fn can_write_list(values: &Column) -> (r: bool)
    ensures
        r == is_within_offsets(list_size(*values, shape_of(column_type(*values)))),
{
    let inner: Option<u64> = measure(values);
    let len: u64 = count_values(values) as u64;
    let items: Option<u64> = measured_sum(
        measured_product(4, len),
        Some(4),
        Ghost(Some((4 * len) as nat)),
        Ghost(Some(4)),
    );
    measured_sum(
        inner,
        items,
        Ghost(written_size(*values, shape_of(column_type(*values)))),
        Ghost(Some((4 * len + 4) as nat)),
    ).is_some()
}

fn flat_meets(c: &Column, t: &ColumnType, n: &Needs) -> (r: bool)
    requires
        shape_of(column_type(*c)) == TypeShape::Flat(*t),
        t !is Other ==> column_type(*c) == *t,
    ensures
        r == meets(*c, TypeShape::Flat(*t), *n),
{
    if n.digits && is_decimal_type(t) && !has_all_digits(c) {
        return false;
    }
    !n.views || !is_plain_text_type(t) || (read_buffer_size(c) as u64) < u32::MAX as u64
}

/// Calls `DecimalType::is_valid_decimal_precision` on a value and the precision of its column. It
/// is told whether the value has more digits; of a precision that is too high for the type it is
/// not valid.
#[verifier::external_body]
fn has_digits(c: &Column, row: usize) -> (r: bool)
    requires
        is_decimal(column_type(*c)),
        row < column_len(*c),
    ensures
        r == (digits_of(column_type(*c)) <= most_digits(column_type(*c)) && -pow(
            10,
            digits_of(column_type(*c)),
        ) < decimal_at(*c, row as nat) < pow(10, digits_of(column_type(*c)))),
{
    match arrow_array::Array::data_type(&c.array) {
        DataType::Decimal32(p, _) => {
            D32::is_valid_decimal_precision(c.array.as_primitive::<D32>().value(row), *p)
        },
        DataType::Decimal64(p, _) => {
            D64::is_valid_decimal_precision(c.array.as_primitive::<D64>().value(row), *p)
        },
        DataType::Decimal128(p, _) => {
            D128::is_valid_decimal_precision(c.array.as_primitive::<D128>().value(row), *p)
        },
        DataType::Decimal256(p, _) => {
            D256::is_valid_decimal_precision(c.array.as_primitive::<D256>().value(row), *p)
        },
        _ => false,
    }
}

fn has_all_digits(c: &Column) -> (r: bool)
    requires
        is_decimal(column_type(*c)),
    ensures
        r == forall|row: nat| row < column_len(*c) ==> #[trigger] holds_digits(*c, row),
{
    let len: usize = count_values(c);
    let mut i: usize = 0;
    while i < len
        invariant
            is_decimal(column_type(*c)),
            len == column_len(*c),
            i <= len,
            forall|row: nat| row < i ==> #[trigger] holds_digits(*c, row),
        decreases len - i,
    {
        if !has_digits(c, i) {
            assert(!holds_digits(*c, i as nat));
            return false;
        }
        i += 1;
    }
    true
}

fn near_edge(n: i64, per_day: i64) -> (r: bool)
    requires
        0 < per_day <= 86_400_000_000_000,
    ensures
        r == is_near_edge(n as int, per_day as int),
{
    let n: i128 = n as i128;
    let day: i128 = per_day as i128;
    let first: i128 = 96_465_290 * day;
    let last: i128 = 95_026_235 * day;
    let days: i128 = 4 * day;
    (-first - days < n && n < -first) || (last < n && n < last + days)
}

/// Whether the times in a column keep clear of the first and the last day. They are read as
/// integers.
fn keeps_clear(c: &Column, per_day: i64) -> (r: bool)
    requires
        0 < per_day <= 86_400_000_000_000,
        match shape_of(column_type(*c)) {
            TypeShape::Date32 => true,
            TypeShape::Date64 => true,
            TypeShape::Timestamp(_, _) => true,
            _ => false,
        },
    ensures
        r == is_calm(*c, per_day as int),
{
    let len: usize = count_values(c);
    if !can_hold_nulls(&ColumnType::Int64, len) {
        return false;
    }
    let short: bool = time_widths(&type_of(c)).0;
    let plain: ColumnType = if short {
        ColumnType::Int32
    } else {
        ColumnType::Int64
    };
    let numbers: Column = match cast_column(c, &plain.to_arrow()) {
        Ok(d) => d,
        Err(_) => {
            return unreached();
        },
    };
    let mut i: usize = 0;
    while i < len
        invariant
            0 < per_day <= 86_400_000_000_000,
            len == column_len(*c),
            rows_fit(column_len(*c)),
            holds_same(*c, numbers),
            column_type(*c) !is Binary,
            column_type(numbers) == (if short {
                ColumnType::Int32
            } else {
                ColumnType::Int64
            }),
            i <= len,
            forall|row: nat|
                row < i && !#[trigger] null_at(*c, row) ==> !is_near_edge(
                    integer_at(*c, row),
                    per_day as int,
                ),
        decreases len - i,
    {
        assert(null_at(numbers, i as nat) == null_at(*c, i as nat));
        if !is_null(c, i) {
            let n: Option<i64> = if short {
                match read_int32(&numbers, i) {
                    Some(n) => Some(n as i64),
                    None => None,
                }
            } else {
                read_int64(&numbers, i)
            };
            match n {
                Some(n) => {
                    if near_edge(n, per_day) {
                        return false;
                    }
                },
                None => {
                    return unreached();
                },
            }
        }
        i += 1;
    }
    true
}

fn day_of(u: TimeStep) -> (r: i64)
    ensures
        r == units_per_day(u),
        0 < r <= 86_400_000_000_000,
{
    match u {
        TimeStep::Second => 86_400,
        TimeStep::Millisecond => 86_400_000,
        TimeStep::Microsecond => 86_400_000_000,
        TimeStep::Nanosecond => 86_400_000_000_000,
    }
}

fn parts_meet(
    parts: &Vec<Column>,
    n: &Needs,
    Ghost(whole): Ghost<TypeShape>,
    Ghost(es): Ghost<Seq<TypeShape>>,
) -> (r: bool)
    requires
        are_parts(whole, es),
        parts@.len() == es.len(),
        forall|i: int| 0 <= i < es.len() ==> shape_of(column_type(#[trigger] parts@[i])) == es[i],
    ensures
        r == all_meet(parts@, es, *n),
    decreases whole, 0int,
{
    let mut i: usize = 0;
    while i < parts.len()
        invariant
            are_parts(whole, es),
            parts@.len() == es.len(),
            forall|k: int|
                0 <= k < es.len() ==> shape_of(column_type(#[trigger] parts@[k])) == es[k],
            i <= parts@.len(),
            forall|k: int| 0 <= k < i ==> meets(parts@[k], #[trigger] es[k], *n),
        decreases parts@.len() - i,
    {
        proof {
            part_is_smaller(whole, es, i as int);
        }
        if !column_meets(&parts[i], n) {
            assert(!meets(parts@[i as int], es[i as int], *n));
            return false;
        }
        i += 1;
    }
    true
}

/// Whether the values of a column, or of the columns that it is made of, are as they are needed.
fn column_meets(c: &Column, n: &Needs) -> (r: bool)
    ensures
        r == meets(*c, shape_of(column_type(*c)), *n),
    decreases shape_of(column_type(*c)), 1int,
{
    let ghost s = shape_of(column_type(*c));
    let t: ColumnType = type_of(c);
    let is_other: bool = match &t {
        ColumnType::Other(_) => true,
        _ => false,
    };
    if !is_other {
        return flat_meets(c, &t, n);
    }
    let inner: arrow_schema::DataType = t.to_arrow();
    match type_parts(&inner) {
        TypeParts::List(_, _) => {
            assert(decreases_to!(s => s->List_1));
            let parts: Vec<Column> = read_parts(c);
            if n.lists && !can_write_list(&parts[0]) {
                return false;
            }
            column_meets(&parts[0], n)
        },
        TypeParts::FixedList(_, _) => {
            assert(decreases_to!(s => s->FixedList_0));
            column_meets(&read_parts(c)[0], n)
        },
        TypeParts::Fields(_) => parts_meet(&read_parts(c), n, Ghost(s), Ghost(s->Fields_0)),
        TypeParts::MapOf(_) => {
            assert(decreases_to!(s => s->MapOf_0));
            column_meets(&read_parts(c)[0], n)
        },
        TypeParts::Simple => match simple_parts(&inner) {
            SimpleParts::Void => !n.voids || count_values(c) as u64 <= i32::MAX as u64,
            SimpleParts::Date32 => !n.times || keeps_clear(c, 1),
            SimpleParts::Date64 => !n.times || keeps_clear(c, day_of(TimeStep::Millisecond)),
            SimpleParts::Timestamp(u, _) => !n.times || keeps_clear(c, day_of(step_of(&u))),
            SimpleParts::Coded(_, _) => {
                assert(decreases_to!(s => s->Coded_1));
                column_meets(&read_parts(c)[0], n)
            },
            SimpleParts::Choice(_, _) => parts_meet(
                &read_parts(c),
                n,
                Ghost(s),
                Ghost(s->Choice_0),
            ),
            SimpleParts::Runs(_, _) => {
                assert(decreases_to!(s => s->Runs_1));
                column_meets(&read_parts(c)[1], n)
            },
            _ => true,
        },
    }
}

fn is_single_type(t: &arrow_schema::DataType) -> (r: bool)
    ensures
        r == is_single_piece(type_shape(*t)),
{
    match type_parts(t) {
        TypeParts::Simple => match simple_parts(t) {
            SimpleParts::Coded(_, _) => false,
            SimpleParts::Choice(_, _) => false,
            SimpleParts::Runs(_, _) => false,
            _ => true,
        },
        _ => false,
    }
}

/// Whether unions and runs stand alone in a type, and hold values without parts.
fn is_alone(t: &ColumnType) -> (r: bool)
    ensures
        r == stands_alone(shape_of(*t)),
{
    match t {
        ColumnType::Other(_) => {
            let inner: arrow_schema::DataType = t.to_arrow();
            match type_parts(&inner) {
                TypeParts::Simple => match simple_parts(&inner) {
                    SimpleParts::Runs(_, v) => is_single_type(&v),
                    SimpleParts::Choice(es, _) => {
                        let ghost shapes = type_shapes(es@);
                        let mut i: usize = 0;
                        while i < es.len()
                            invariant
                                i <= es@.len(),
                                shapes == type_shapes(es@),
                                shape_of(*t) matches TypeShape::Choice(ss, _) && ss == shapes,
                                forall|k: int|
                                    0 <= k < i ==> is_single_piece(#[trigger] shapes[k]),
                            decreases es@.len() - i,
                        {
                            assert(shapes[i as int] == type_shape(es@[i as int]));
                            if !is_single_type(&es[i]) {
                                return false;
                            }
                            i += 1;
                        }
                        true
                    },
                    _ => !column_traits(t).odd,
                },
                _ => !column_traits(t).odd,
            }
        },
        _ => !column_traits(t).odd,
    }
}

/// What a column is at the top, as far as casts treat it in a way of their own.
enum Top {
    Nothing,
    Union,
    Ends,
    FlatLists,
    Else,
}

fn top_of(t: &ColumnType) -> (r: Top)
    ensures
        match r {
            Top::Nothing => shape_of(*t) is Void,
            Top::Union => shape_of(*t) is Choice,
            Top::Ends => shape_of(*t) is Runs,
            Top::FlatLists => is_flat_list(shape_of(*t)),
            Top::Else => !(shape_of(*t) is Void || shape_of(*t) is Choice || shape_of(*t) is Runs
                || is_flat_list(shape_of(*t))),
        },
{
    match t {
        ColumnType::Other(_) => {
            let inner: arrow_schema::DataType = t.to_arrow();
            match type_parts(&inner) {
                TypeParts::Simple => match simple_parts(&inner) {
                    SimpleParts::Void => Top::Nothing,
                    SimpleParts::Choice(_, _) => Top::Union,
                    SimpleParts::Runs(_, _) => Top::Ends,
                    _ => Top::Else,
                },
                TypeParts::List(_, e) => if is_flat_type(&e) {
                    Top::FlatLists
                } else {
                    Top::Else
                },
                _ => Top::Else,
            }
        },
        _ => Top::Else,
    }
}

/// Whether a column can be cast to a type within its bounds.
pub fn can_cast(c: &Column, to: &ColumnType) -> (r: bool)
    ensures
        r == cast_fits(*c, *to),
{
    let t: ColumnType = type_of(c);
    if !is_alone(&t) || !is_alone(to) {
        return false;
    }
    let have: Traits = column_traits(&t);
    let want: Traits = column_traits(to);
    let fewer: bool = want.narrowest < have.widest;
    if fewer && !want.exact {
        return false;
    }
    let mut flat_lists: bool = false;
    let nothing: bool = match top_of(&t) {
        Top::Nothing => true,
        Top::Union => {
            if !can_hold_nulls(&t, count_values(c)) {
                return false;
            }
            false
        },
        Top::Ends => {
            if count_values(c) as u64 > i32::MAX as u64 {
                return false;
            }
            false
        },
        Top::FlatLists => {
            flat_lists = true;
            false
        },
        Top::Else => false,
    };
    match top_of(to) {
        Top::FlatLists => {},
        _ => {
            flat_lists = false;
        },
    }
    if have.void && want.sized && !nothing {
        return false;
    }
    let needs: Needs = Needs {
        times: (have.naive && want.zoned) || (have.zoned && want.dated),
        digits: fewer,
        voids: have.void,
        views: want.viewed,
        lists: want.viewed && have.listed && !flat_lists,
    };
    if !nothing && !column_meets(c, &needs) {
        return false;
    }
    !want.narrow || can_hold_text(c, lands_in_flat(to))
}

/// The bits of a decimal type; none of another type.
pub open spec fn decimal_bits(t: ColumnType) -> nat {
    match t {
        ColumnType::Decimal32(_, _) => 32,
        ColumnType::Decimal64(_, _) => 64,
        ColumnType::Decimal128(_, _) => 128,
        ColumnType::Decimal256(_, _) => 256,
        _ => 0,
    }
}

/// A column without parts can be cast to any other type without parts, if it is not long, what it
/// holds is not much, and decimals do not lose bits. A number takes less than 256 characters when
/// it is written out.
pub proof fn plain_casts_are_within_bounds(c: Column, to: ColumnType)
    requires
        column_type(c) !is Other,
        to !is Other,
        256 * column_len(c) <= i32::MAX,
        column_type(c) is Utf8View || column_type(c) is BinaryView ==> 2 * view_size(c) + column_len(
            c,
        ) <= i32::MAX,
        is_plain_text(column_type(c)) ==> buffer_size(c) < u32::MAX,
        is_decimal(column_type(c)) && is_decimal(to) ==> decimal_bits(column_type(c))
            <= decimal_bits(to),
    ensures
        cast_fits(c, to),
{
    let t = column_type(c);
    let n = column_len(c) as int;
    let w = text_width(t) as int;
    if !is_plain_text(t) && !(t is Utf8View || t is BinaryView) {
        assert(w <= 256);
        assert(w * n <= 256 * n) by (nonlinear_arith)
            requires
                w <= 256,
                0 <= n,
        ;
    }
}

/// Numbers can be cast to numbers, to truth values and to texts and byte strings with offsets of
/// 64 bits, however many they are.
pub proof fn numbers_are_within_bounds(c: Column, to: ColumnType)
    requires
        is_numeric(column_type(c)),
        is_numeric(to) || to is Boolean || to is LargeUtf8 || to is LargeBinary,
    ensures
        cast_fits(c, to),
{
}

/// Numbers can be read as days, times of day, points and spans of time, however many they are,
/// and the other way round.
pub proof fn times_are_within_bounds(c: Column, to: ColumnType)
    requires
        ({
            let from = shape_of(column_type(c));
            let want = shape_of(to);
            ||| is_numeric(column_type(c)) && is_time(want)
            ||| is_time(from) && is_numeric(to)
        }),
    ensures
        cast_fits(c, to),
{
}

/// Whether a shape is that of days, times of day, points or spans of time.
pub open spec fn is_time(s: TypeShape) -> bool {
    ||| s is Date32
    ||| s is Date64
    ||| s is Time32
    ||| s is Time64
    ||| s is Timestamp
    ||| s is Duration
}

} // verus!
