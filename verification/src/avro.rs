//! Avro values as the metadata table stores them.
//!
//! A stored value is decoded by the `apache_avro` crate and taken over into [`AvroValue`], which
//! the rest of the library reads.

use vstd::prelude::*;
use crate::avro_schema::{can_decode, is_decodable, schema_shape};
use crate::error::CoreError;
use crate::text::same_text;

verus! {

/// The schema of an Avro datum.
#[verifier::external_type_specification]
#[verifier::external_body]
pub struct ExAvroSchema(apache_avro::Schema);

/// A decoded Avro datum.
#[verifier::external_type_specification]
#[verifier::external_body]
pub struct ExAvroDatum(apache_avro::types::Value);

/// `apache_avro::types::Value` derives `Clone`: the clone is the same value.
pub assume_specification[ <apache_avro::types::Value as Clone>::clone ](
    v: &apache_avro::types::Value,
) -> (r: apache_avro::types::Value)
    ensures
        r == *v,
;

/// An Avro value of a kind that the library only carries: an array, a map, a decimal and the
/// like.
#[derive(Debug, PartialEq)]
pub struct CarriedValue {
    value: apache_avro::types::Value,
}

/// An Avro value.
///
/// A `float` and a `double` are held as their IEEE 754 bits.
#[derive(Debug, PartialEq)]
pub enum AvroValue {
    Null,
    Boolean(bool),
    Int(i32),
    Long(i64),
    Float(u32),
    Double(u64),
    Bytes(Vec<u8>),
    String(String),
    Fixed(usize, Vec<u8>),
    /// The position of the branch in the union, and its value.
    Union(u32, Box<AvroValue>),
    /// The fields in the order of the schema.
    Record(Vec<(String, AvroValue)>),
    Date(i32),
    TimeMillis(i32),
    TimeMicros(i64),
    TimestampMillis(i64),
    TimestampMicros(i64),
    Other(CarriedValue),
}

/// What an [`AvroValue`] stands for.
pub enum AvroView {
    Null,
    Boolean(bool),
    Int(i32),
    Long(i64),
    Float(u32),
    Double(u64),
    Bytes(Seq<u8>),
    String(Seq<char>),
    Fixed(usize, Seq<u8>),
    Union(u32, Box<AvroView>),
    Record(Seq<(Seq<char>, AvroView)>),
    Date(i32),
    TimeMillis(i32),
    TimeMicros(i64),
    TimestampMillis(i64),
    TimestampMicros(i64),
    Other(CarriedValue),
}

impl AvroValue {
    pub open spec fn view(&self) -> AvroView
        decreases self,
    {
        match self {
            AvroValue::Null => AvroView::Null,
            AvroValue::Boolean(b) => AvroView::Boolean(*b),
            AvroValue::Int(n) => AvroView::Int(*n),
            AvroValue::Long(n) => AvroView::Long(*n),
            AvroValue::Float(bits) => AvroView::Float(*bits),
            AvroValue::Double(bits) => AvroView::Double(*bits),
            AvroValue::Bytes(b) => AvroView::Bytes(b@),
            AvroValue::String(s) => AvroView::String(s@),
            AvroValue::Fixed(n, b) => AvroView::Fixed(*n, b@),
            AvroValue::Union(i, v) => AvroView::Union(*i, Box::new(v.view())),
            AvroValue::Record(fields) => AvroView::Record(
                Seq::new(
                    fields@.len(),
                    |i: int|
                        if 0 <= i < fields@.len() {
                            (fields@[i].0@, fields@[i].1.view())
                        } else {
                            arbitrary()
                        },
                ),
            ),
            AvroValue::Date(n) => AvroView::Date(*n),
            AvroValue::TimeMillis(n) => AvroView::TimeMillis(*n),
            AvroValue::TimeMicros(n) => AvroView::TimeMicros(*n),
            AvroValue::TimestampMillis(n) => AvroView::TimestampMillis(*n),
            AvroValue::TimestampMicros(n) => AvroView::TimestampMicros(*n),
            AvroValue::Other(v) => AvroView::Other(*v),
        }
    }
}

impl Clone for CarriedValue {
    fn clone(&self) -> (r: Self)
        ensures
            r == *self,
    {
        CarriedValue { value: self.value.clone() }
    }
}

impl Clone for AvroValue {
    fn clone(&self) -> (r: Self)
        ensures
            r@ == self@,
        decreases self,
    {
        match self {
            AvroValue::Null => AvroValue::Null,
            AvroValue::Boolean(b) => AvroValue::Boolean(*b),
            AvroValue::Int(n) => AvroValue::Int(*n),
            AvroValue::Long(n) => AvroValue::Long(*n),
            AvroValue::Float(bits) => AvroValue::Float(*bits),
            AvroValue::Double(bits) => AvroValue::Double(*bits),
            AvroValue::Bytes(b) => AvroValue::Bytes(clone_bytes(b)),
            AvroValue::String(s) => AvroValue::String(s.clone()),
            AvroValue::Fixed(n, b) => AvroValue::Fixed(*n, clone_bytes(b)),
            AvroValue::Union(i, v) => AvroValue::Union(*i, Box::new((**v).clone())),
            AvroValue::Record(fields) => {
                let mut copy: Vec<(String, AvroValue)> = Vec::new();
                let mut i: usize = 0;
                while i < fields.len()
                    invariant
                        self matches AvroValue::Record(f) && f == fields,
                        i <= fields@.len(),
                        copy@.len() == i,
                        forall|k: int|
                            0 <= k < i ==> (#[trigger] copy@[k]).0@ == fields@[k].0@ && copy@[k].1@
                                == fields@[k].1@,
                    decreases fields@.len() - i,
                {
                    let name: String = fields[i].0.clone();
                    let value: AvroValue = fields[i].1.clone();
                    copy.push((name, value));
                    i += 1;
                }
                let r: AvroValue = AvroValue::Record(copy);
                assert(r@->Record_0 =~= self@->Record_0);
                r
            },
            AvroValue::Date(n) => AvroValue::Date(*n),
            AvroValue::TimeMillis(n) => AvroValue::TimeMillis(*n),
            AvroValue::TimeMicros(n) => AvroValue::TimeMicros(*n),
            AvroValue::TimestampMillis(n) => AvroValue::TimestampMillis(*n),
            AvroValue::TimestampMicros(n) => AvroValue::TimestampMicros(*n),
            AvroValue::Other(v) => AvroValue::Other(v.clone()),
        }
    }
}

/// The value inside any number of nested unions.
pub open spec fn unwrapped(v: AvroView) -> AvroView
    decreases v,
{
    match v {
        AvroView::Union(_, inner) => unwrapped(*inner),
        other => other,
    }
}

/// The value of the first field called `name`, taken out of its unions.
pub open spec fn field_named(fields: Seq<(Seq<char>, AvroView)>, name: Seq<char>) -> Option<
    AvroView,
>
    decreases fields.len(),
{
    if fields.len() == 0 {
        None
    } else if fields[0].0 == name {
        Some(unwrapped(fields[0].1))
    } else {
        field_named(fields.drop_first(), name)
    }
}

/// The text of a string.
pub open spec fn as_string(v: AvroView) -> Option<Seq<char>> {
    match unwrapped(v) {
        AvroView::String(s) => Some(s),
        _ => None,
    }
}

/// The number of a `long` or an `int`.
pub open spec fn as_long(v: AvroView) -> Option<i64> {
    match unwrapped(v) {
        AvroView::Long(n) => Some(n),
        AvroView::Int(n) => Some(n as i64),
        _ => None,
    }
}

/// The truth value of a `boolean`.
pub open spec fn as_bool(v: AvroView) -> Option<bool> {
    match unwrapped(v) {
        AvroView::Boolean(b) => Some(b),
        _ => None,
    }
}

/// The scalar in a type wrapper, that is a record with a `value` field; a value that is no
/// record stands for itself. A null, wrapped or not, is no scalar.
pub open spec fn wrapped_scalar(v: AvroView) -> Option<AvroView> {
    match unwrapped(v) {
        AvroView::Null => None,
        AvroView::Record(fields) => match field_named(fields, "value"@) {
            Some(AvroView::Null) => None,
            found => found,
        },
        other => Some(other),
    }
}

/// The fields of a record, taken out of its unions.
pub open spec fn as_record(v: AvroView) -> Option<Seq<(Seq<char>, AvroView)>> {
    match unwrapped(v) {
        AvroView::Record(fields) => Some(fields),
        _ => None,
    }
}

/// The fields of a record value.
pub open spec fn fields_view(fields: Seq<(String, AvroValue)>) -> Seq<(Seq<char>, AvroView)> {
    fields.map_values(|f: (String, AvroValue)| (f.0@, f.1@))
}

/// A record stands for its fields.
pub proof fn record_view(fields: Vec<(String, AvroValue)>)
    ensures
        AvroValue::Record(fields)@ == AvroView::Record(fields_view(fields@)),
{
    assert(AvroValue::Record(fields)@->Record_0 =~= fields_view(fields@));
}

/// No union is left around an unwrapped value.
pub proof fn unwrapped_is_no_union(v: AvroView)
    ensures
        !(unwrapped(v) is Union),
        unwrapped(unwrapped(v)) == unwrapped(v),
    decreases v,
{
    match v {
        AvroView::Union(_, inner) => unwrapped_is_no_union(*inner),
        _ => {},
    }
}

/// Reaches through nested unions to the value they hold.
pub fn unwrap_union(value: &AvroValue) -> (r: &AvroValue)
    ensures
        r@ == unwrapped(value@),
    decreases value,
{
    match value {
        AvroValue::Union(_, inner) => unwrap_union(inner),
        other => other,
    }
}

/// Finds a field by name and unwraps its value.
pub fn find_field<'a>(fields: &'a Vec<(String, AvroValue)>, name: &str) -> (r: Option<&'a AvroValue>)
    ensures
        match r {
            Some(v) => field_named(fields_view(fields@), name@) == Some(v@) && v@ == unwrapped(v@),
            None => field_named(fields_view(fields@), name@) is None,
        },
{
    let ghost all = fields_view(fields@);
    let mut i: usize = 0;
    assert(all.skip(0) =~= all);
    while i < fields.len()
        invariant
            all == fields_view(fields@),
            i <= fields@.len(),
            field_named(all, name@) == field_named(all.skip(i as int), name@),
        decreases fields@.len() - i,
    {
        assert(all.skip(i as int).drop_first() =~= all.skip(i + 1));
        if same_text(fields[i].0.as_str(), name) {
            let found: &AvroValue = unwrap_union(&fields[i].1);
            proof {
                unwrapped_is_no_union(fields@[i as int].1@);
            }
            return Some(found);
        }
        i += 1;
    }
    None
}

/// The text of a string value.
pub fn extract_string(value: &AvroValue) -> (r: Option<String>)
    ensures
        match r {
            Some(s) => as_string(value@) == Some(s@),
            None => as_string(value@) is None,
        },
{
    match unwrap_union(value) {
        AvroValue::String(s) => Some(s.clone()),
        _ => None,
    }
}

/// The number of a `long` or `int` value.
pub fn extract_long(value: &AvroValue) -> (r: Option<i64>)
    ensures
        r == as_long(value@),
{
    match unwrap_union(value) {
        AvroValue::Long(n) => Some(*n),
        AvroValue::Int(n) => Some(*n as i64),
        _ => None,
    }
}

/// The truth value of a `boolean` value.
pub fn extract_bool(value: &AvroValue) -> (r: Option<bool>)
    ensures
        r == as_bool(value@),
{
    match unwrap_union(value) {
        AvroValue::Boolean(b) => Some(*b),
        _ => None,
    }
}

/// The scalar held by a min or max field.
///
/// Such a field is a union of type wrappers (for instance `LongWrapper { value: long }`).
pub fn extract_wrapped_scalar(value: &AvroValue) -> (r: Option<AvroValue>)
    ensures
        match r {
            Some(v) => wrapped_scalar(value@) == Some(v@),
            None => wrapped_scalar(value@) is None,
        },
{
    let inner: &AvroValue = unwrap_union(value);
    match inner {
        AvroValue::Null => None,
        AvroValue::Record(fields) => {
            proof {
                record_view(*fields);
            }
            match find_field(fields, "value") {
                Some(AvroValue::Null) => None,
                Some(v) => Some(v.clone()),
                None => None,
            }
        },
        other => Some(other.clone()),
    }
}

/// The fields of a record value.
pub fn extract_record(value: &AvroValue) -> (r: Option<&Vec<(String, AvroValue)>>)
    ensures
        match r {
            Some(fields) => as_record(value@) == Some(fields_view(fields@)),
            None => as_record(value@) is None,
        },
{
    match unwrap_union(value) {
        AvroValue::Record(fields) => {
            proof {
                record_view(*fields);
            }
            Some(fields)
        },
        _ => None,
    }
}

/// What a decoded datum stands for.
pub uninterp spec fn datum_view(v: apache_avro::types::Value) -> AvroView;

/// What a decoded datum stands for, if it is none of the kinds that [`Datum`] tells apart.
pub uninterp spec fn rare_datum_view(v: apache_avro::types::Value) -> AvroView;

/// The datum that bytes encode under a schema.
pub uninterp spec fn datum_of(
    schema: apache_avro::Schema,
    bytes: Seq<u8>,
) -> apache_avro::types::Value;

/// A decoded datum, by kind.
enum Datum {
    Null,
    Boolean(bool),
    Int(i32),
    Long(i64),
    Bytes(Vec<u8>),
    String(String),
    Union(u32, Box<apache_avro::types::Value>),
    Record(Vec<(String, apache_avro::types::Value)>),
    Rare(apache_avro::types::Value),
}

/// Calls `apache_avro::from_avro_datum` without a reader schema.
///
/// Where it succeeds, the datum depends on the schema and the bytes alone. Nothing is said of
/// when it fails: besides malformed bytes, the crate refuses lengths above an allocation limit
/// that a process may set. It does not return where the bytes lead to a record that leads back to
/// itself without a byte being read, and it panics where they lead to a fixed width that memory
/// cannot hold.
#[verifier::external_body]
#[allow(deprecated)]
fn decode_datum(schema: &apache_avro::Schema, bytes: &[u8]) -> (r: Result<
    apache_avro::types::Value,
    apache_avro::Error,
>)
    requires
        is_decodable(schema_shape(*schema), bytes@),
    ensures
        r matches Ok(v) ==> v == datum_of(*schema, bytes@),
{
    let mut reader = bytes;
    apache_avro::from_avro_datum(schema, &mut reader, None)
}

/// Tells the common variants of `apache_avro::types::Value` apart, moving their fields. A union
/// stands for its branch position and what its value stands for, a record for its field names
/// and what their values stand for.
#[verifier::external_body]
fn datum_kind(v: apache_avro::types::Value) -> (r: Datum)
    ensures
        match r {
            Datum::Null => datum_view(v) == AvroView::Null,
            Datum::Boolean(b) => datum_view(v) == AvroView::Boolean(b),
            Datum::Int(n) => datum_view(v) == AvroView::Int(n),
            Datum::Long(n) => datum_view(v) == AvroView::Long(n),
            Datum::Bytes(b) => datum_view(v) == AvroView::Bytes(b@),
            Datum::String(s) => datum_view(v) == AvroView::String(s@),
            Datum::Union(i, inner) => datum_view(v) == AvroView::Union(
                i,
                Box::new(datum_view(*inner)),
            ),
            Datum::Record(fields) => datum_view(v) == AvroView::Record(
                fields@.map_values(
                    |f: (String, apache_avro::types::Value)| (f.0@, datum_view(f.1)),
                ),
            ),
            Datum::Rare(same) => same == v && datum_view(v) == rare_datum_view(v),
        },
{
    match v {
        apache_avro::types::Value::Null => Datum::Null,
        apache_avro::types::Value::Boolean(b) => Datum::Boolean(b),
        apache_avro::types::Value::Int(n) => Datum::Int(n),
        apache_avro::types::Value::Long(n) => Datum::Long(n),
        apache_avro::types::Value::Bytes(b) => Datum::Bytes(b),
        apache_avro::types::Value::String(s) => Datum::String(s),
        apache_avro::types::Value::Union(i, inner) => Datum::Union(i, inner),
        apache_avro::types::Value::Record(fields) => Datum::Record(fields),
        other => Datum::Rare(other),
    }
}

/// Tells the remaining variants of `apache_avro::types::Value` that the library reads apart,
/// moving their fields; floating point numbers become their bits. Any other value is carried.
#[verifier::external_body]
fn rare_datum(v: apache_avro::types::Value) -> (r: AvroValue)
    ensures
        r@ == rare_datum_view(v),
        r matches AvroValue::Other(carried) ==> carried.value == v,
{
    match v {
        apache_avro::types::Value::Float(f) => AvroValue::Float(f.to_bits()),
        apache_avro::types::Value::Double(d) => AvroValue::Double(d.to_bits()),
        apache_avro::types::Value::Fixed(n, b) => AvroValue::Fixed(n, b),
        apache_avro::types::Value::Date(n) => AvroValue::Date(n),
        apache_avro::types::Value::TimeMillis(n) => AvroValue::TimeMillis(n),
        apache_avro::types::Value::TimeMicros(n) => AvroValue::TimeMicros(n),
        apache_avro::types::Value::TimestampMillis(n) => AvroValue::TimestampMillis(n),
        apache_avro::types::Value::TimestampMicros(n) => AvroValue::TimestampMicros(n),
        other => AvroValue::Other(CarriedValue { value: other }),
    }
}

/// Takes a decoded datum over.
pub fn take_over(v: apache_avro::types::Value) -> (r: AvroValue)
    ensures
        r@ == datum_view(v),
    decreases datum_view(v),
{
    let ghost whole = datum_view(v);
    match datum_kind(v) {
        Datum::Null => AvroValue::Null,
        Datum::Boolean(b) => AvroValue::Boolean(b),
        Datum::Int(n) => AvroValue::Int(n),
        Datum::Long(n) => AvroValue::Long(n),
        Datum::Bytes(b) => AvroValue::Bytes(b),
        Datum::String(s) => AvroValue::String(s),
        Datum::Union(i, inner) => {
            assert(decreases_to!(whole => whole->Union_1));
            AvroValue::Union(i, Box::new(take_over(*inner)))
        },
        Datum::Record(fields) => {
            let ghost parts = whole->Record_0;
            let ghost given = fields@;
            let mut out: Vec<(String, AvroValue)> = Vec::new();
            let mut i: usize = 0;
            while i < fields.len()
                invariant
                    whole == datum_view(v),
                    whole == AvroView::Record(parts),
                    parts.len() == fields@.len(),
                    fields@ == given,
                    forall|k: int|
                        0 <= k < given.len() ==> #[trigger] parts[k] == (
                            given[k].0@,
                            datum_view(given[k].1),
                        ),
                    i <= fields@.len(),
                    out@.len() == i,
                    forall|k: int|
                        0 <= k < i ==> ((#[trigger] out@[k]).0@, out@[k].1@) == parts[k],
                decreases fields@.len() - i,
            {
                let name: String = fields[i].0.clone();
                let value: apache_avro::types::Value = fields[i].1.clone();
                assert(parts[i as int].1 == datum_view(value));
                assert(decreases_to!(whole => whole->Record_0));
                assert(decreases_to!(parts => parts[i as int]));
                assert(decreases_to!(parts[i as int] => parts[i as int].1));
                out.push((name, take_over(value)));
                i += 1;
            }
            proof {
                record_view(out);
                assert(fields_view(out@) =~= parts);
            }
            AvroValue::Record(out)
        },
        Datum::Rare(other) => rare_datum(other),
    }
}

/// The message of bytes that cannot be decoded under a schema.
pub open spec fn endless_schema() -> Seq<char> {
    "Avro schema with values that have no end"@
}

/// Whether an error is what comes of bytes that cannot be decoded: the error of the Avro crate, or
/// that of a schema whose values have no end.
pub open spec fn is_decode_error(
    schema: apache_avro::Schema,
    bytes: Seq<u8>,
    e: CoreError,
) -> bool {
    if is_decodable(schema_shape(schema), bytes) {
        e is Avro
    } else {
        e matches CoreError::Schema(m) && m@ == endless_schema()
    }
}

/// Decodes an Avro datum.
///
/// The outcome is the datum that the bytes encode, or the error of the Avro crate. A schema whose
/// values have no end is an error, as far as the bytes can lead there.
pub fn decode_avro_value(bytes: &[u8], schema: &apache_avro::Schema) -> (r: Result<
    AvroValue,
    CoreError,
>)
    ensures
        match r {
            Ok(v) => is_decodable(schema_shape(*schema), bytes@) && v@ == datum_view(
                datum_of(*schema, bytes@),
            ),
            Err(e) => is_decode_error(*schema, bytes@, e),
        },
{
    if !can_decode(schema, bytes) {
        return Err(CoreError::Schema("Avro schema with values that have no end".to_owned()));
    }
    match decode_datum(schema, bytes) {
        Ok(v) => Ok(take_over(v)),
        Err(e) => Err(CoreError::Avro(e)),
    }
}

fn clone_bytes(b: &Vec<u8>) -> (r: Vec<u8>)
    ensures
        r@ == b@,
{
    let r: Vec<u8> = b.clone();
    assert(r@ =~= b@);
    r
}

/// Whether the field at place `k` is the first one called `name`.
pub open spec fn is_first_field(
    fields: Seq<(Seq<char>, AvroView)>,
    name: Seq<char>,
    k: int,
) -> bool {
    &&& 0 <= k < fields.len()
    &&& fields[k].0 == name
    &&& forall|j: int| 0 <= j < k ==> (#[trigger] fields[j]).0 != name
}

/// Whether no field is called `name`.
pub open spec fn has_no_field(fields: Seq<(Seq<char>, AvroView)>, name: Seq<char>) -> bool {
    forall|j: int| 0 <= j < fields.len() ==> (#[trigger] fields[j]).0 != name
}

/// A union stands for the value in it, however deep it is, and any other value for itself.
pub proof fn union_stands_for_its_value(v: AvroView)
    ensures
        v matches AvroView::Union(_, inner) ==> unwrapped(v) == unwrapped(*inner),
        !(v is Union) ==> unwrapped(v) == v,
{
}

/// The first field with a name is the one that is found, out of its union; without such a field
/// nothing is found.
pub proof fn first_field_is_found(fields: Seq<(Seq<char>, AvroView)>, name: Seq<char>, k: int)
    ensures
        is_first_field(fields, name, k) ==> field_named(fields, name) == Some(
            unwrapped(fields[k].1),
        ),
        has_no_field(fields, name) ==> field_named(fields, name) is None,
    decreases fields.len(),
{
    if fields.len() > 0 && fields[0].0 != name {
        let rest = fields.drop_first();
        first_field_is_found(rest, name, k - 1);
        if is_first_field(fields, name, k) {
            assert forall|j: int| 0 <= j < k - 1 implies (#[trigger] rest[j]).0 != name by {
                assert(fields[j + 1].0 != name);
            }
        }
        if has_no_field(fields, name) {
            assert forall|j: int| 0 <= j < rest.len() implies (#[trigger] rest[j]).0 != name by {
                assert(fields[j + 1].0 != name);
            }
        }
    }
}

/// A scalar is read out of its type wrapper as it is, whatever the wrapper holds besides and
/// whichever unions stand around the wrapper and the scalar. One without a wrapper is read as it
/// is too.
pub proof fn scalar_is_read_as_it_is(v: AvroView, fields: Seq<(Seq<char>, AvroView)>, k: int)
    ensures
        unwrapped(v) == AvroView::Record(fields) && is_first_field(fields, "value"@, k) ==> (
        wrapped_scalar(v) == if unwrapped(fields[k].1) is Null {
            None
        } else {
            Some(unwrapped(fields[k].1))
        }),
        unwrapped(v) == AvroView::Record(fields) && has_no_field(fields, "value"@)
            ==> wrapped_scalar(v) is None,
        unwrapped(v) is Null ==> wrapped_scalar(v) is None,
        !(unwrapped(v) is Null) && !(unwrapped(v) is Record) ==> wrapped_scalar(v) == Some(
            unwrapped(v),
        ),
{
    first_field_is_found(fields, "value"@, k);
}

} // verus!
