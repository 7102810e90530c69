//! Record batches: columns by name, projection, sorting, and adaptation to a schema.

use vstd::pervasive::unreached;
use vstd::prelude::*;
use vstd::string::*;
use vstd::utf8::{encode_utf8, valid_utf8};
use crate::cast_bounds::{can_cast, cast_fits, column_parts, decimal_at};
use crate::error::CoreError;
use crate::order::{
    bytes_less, bytes_less_asymmetric, bytes_less_irreflexive, bytes_less_total,
    descending_mirrors, is_row_order, placed_before, row_bytes, row_order, same_encoding, text_less,
};
use crate::schema::{
    field_notes, field_views, has_field, holds_integer, is_bytes, is_decimal, is_integer,
    is_numeric, is_text, metadata_entries, no_note, same_fields, type_model, ColumnType,
    DictionaryNote, FieldDef, FieldView, SchemaDef, SchemaView,
};
use crate::text::{has_substring, same_text, text_views};
use crate::type_shape::{
    can_encode, can_hold_nulls, encodable, is_flat, is_long_time, is_short_time, marks_nulls,
    nulls_fit, shape_of, TypeShape,
};

verus! {

/// A column of values: an Arrow array.
#[verifier::external_body]
#[derive(Debug)]
pub struct Column {
    pub array: arrow_array::ArrayRef,
}

/// A column of texts: an Arrow `StringArray`.
#[verifier::external_body]
#[derive(Debug)]
pub struct StringColumn {
    pub array: arrow_array::StringArray,
}

/// Row positions: an Arrow `UInt32Array`.
#[verifier::external_body]
#[derive(Debug)]
pub struct IndexArray {
    pub array: arrow_array::UInt32Array,
}

/// Columns of the same length under a schema: an Arrow `RecordBatch`.
#[verifier::external_body]
#[derive(Debug)]
pub struct Batch {
    pub batch: arrow_array::RecordBatch,
}

/// Encodes rows as byte strings that compare like the rows.
#[verifier::external_type_specification]
#[verifier::external_body]
pub struct ExRowConverter(arrow_row::RowConverter);

/// The type of a column.
pub uninterp spec fn column_type(c: Column) -> ColumnType;

/// The number of values of a column.
pub uninterp spec fn column_len(c: Column) -> nat;

/// The number of values that the validity bitmap of a column marks as null.
pub uninterp spec fn column_nulls(c: Column) -> nat;

/// Whether the value of a column in a row is null.
pub uninterp spec fn null_at(c: Column, row: nat) -> bool;

/// The value of a column of integers in a row; days and times are counted in integers.
pub uninterp spec fn integer_at(c: Column, row: nat) -> int;

/// The value of a column of texts in a row.
pub uninterp spec fn text_at(c: Column, row: nat) -> Seq<char>;

/// The value of a column of booleans in a row.
pub uninterp spec fn boolean_at(c: Column, row: nat) -> bool;

/// The value of a column of byte strings in a row.
pub uninterp spec fn bytes_at(c: Column, row: nat) -> Seq<u8>;

/// The column that a column of texts is.
pub uninterp spec fn text_column(s: StringColumn) -> Column;

/// The positions in an index array.
pub uninterp spec fn index_values(a: IndexArray) -> Seq<u32>;

/// The schema of a batch.
pub uninterp spec fn batch_schema(b: Batch) -> SchemaView;

/// The columns of a batch.
pub uninterp spec fn batch_columns(b: Batch) -> Seq<Column>;

/// The number of rows of a batch.
pub uninterp spec fn batch_rows(b: Batch) -> nat;

/// The error of looking up a column that is not among the given ones.
pub uninterp spec fn missing_column_error(names: Seq<Seq<char>>, name: Seq<char>) ->
    arrow_schema::ArrowError;

/// What an Arrow error looks like in diagnostics.
pub uninterp spec fn arrow_error_text(e: arrow_schema::ArrowError) -> Seq<char>;

/// The message of a cast error; `None` of any other Arrow error.
pub uninterp spec fn cast_error_message(e: arrow_schema::ArrowError) -> Option<Seq<char>>;

/// What comes of casting a column to another type.
pub uninterp spec fn cast_outcome(c: Column, t: ColumnType) -> Result<
    Column,
    arrow_schema::ArrowError,
>;

/// The column of nulls of the given type and length.
pub uninterp spec fn null_column(t: ColumnType, rows: nat) -> Column;

/// The column types that a row encoder was made for, in default order.
pub uninterp spec fn converter_types(c: arrow_row::RowConverter) -> Seq<ColumnType>;

/// Whether there is a row encoder for columns of the given types.
pub uninterp spec fn rows_supported(types: Seq<ColumnType>) -> bool;

/// The encoded rows of columns; `None` where they cannot be encoded.
pub uninterp spec fn encoded_rows(columns: Seq<Column>) -> Option<Seq<Seq<u8>>>;

/// A column as Arrow schemas hold it.
struct ArrowField {
    name: String,
    data_type: arrow_schema::DataType,
    nullable: bool,
    metadata: arrow_schema::Metadata,
    dictionary: DictionaryNote,
}

/// A schema as Arrow holds it.
struct ArrowSchema {
    fields: Vec<ArrowField>,
    metadata: arrow_schema::Metadata,
}

impl ArrowField {
    spec fn view(&self) -> FieldView {
        FieldView {
            name: self.name@,
            data_type: type_model(self.data_type),
            nullable: self.nullable,
            metadata: metadata_entries(self.metadata),
        }
    }
}

impl ArrowSchema {
    spec fn view(&self) -> SchemaView {
        SchemaView {
            fields: self.fields@.map_values(|f: ArrowField| f@),
            metadata: metadata_entries(self.metadata),
        }
    }

    spec fn notes(&self) -> Seq<DictionaryNote> {
        self.fields@.map_values(|f: ArrowField| f.dictionary)
    }
}

/// What the columns of a batch say of their dictionaries.
pub uninterp spec fn batch_notes(b: Batch) -> Seq<DictionaryNote>;

/// The names of columns, in order.
pub open spec fn column_names(fields: Seq<FieldView>) -> Seq<Seq<char>> {
    fields.map_values(|f: FieldView| f.name)
}

/// The position of the first column with the given name.
pub open spec fn first_named(fields: Seq<FieldView>, name: Seq<char>) -> Option<int>
    decreases fields.len(),
{
    if fields.len() == 0 {
        None
    } else {
        match first_named(fields.drop_last(), name) {
            Some(i) => Some(i),
            None => if fields.last().name == name {
                Some(fields.len() - 1)
            } else {
                None
            },
        }
    }
}

/// Whether the column at place `i` is the first one called `name`.
pub open spec fn is_first_column(fields: Seq<FieldView>, name: Seq<char>, i: int) -> bool {
    &&& 0 <= i < fields.len()
    &&& fields[i].name == name
    &&& forall|j: int| 0 <= j < i ==> (#[trigger] fields[j]).name != name
}

/// Whether no column is called `name`.
pub open spec fn has_no_column(fields: Seq<FieldView>, name: Seq<char>) -> bool {
    forall|j: int| 0 <= j < fields.len() ==> (#[trigger] fields[j]).name != name
}

/// Calls `RecordBatch::clone`: the clone is the same batch.
#[verifier::external_body]
fn clone_batch(b: &Batch) -> (r: Batch)
    ensures
        r == *b,
{
    Batch { batch: b.batch.clone() }
}

/// Calls `RecordBatch::num_rows`.
#[verifier::external_body]
fn count_rows(b: &Batch) -> (r: usize)
    ensures
        r == batch_rows(*b),
{
    b.batch.num_rows()
}

/// Calls `RecordBatch::schema` and hands out its fields and metadata. A batch has a column for
/// each field. Of a column without a dictionary the note is empty.
#[verifier::external_body]
#[allow(deprecated)]
fn read_schema(b: &Batch) -> (r: ArrowSchema)
    ensures
        r@ == batch_schema(*b),
        r.notes() == batch_notes(*b),
        r.fields@.len() == batch_columns(*b).len(),
{
    let schema = b.batch.schema();
    let field = |f: &arrow_schema::FieldRef| ArrowField {
        name: f.name().clone(),
        data_type: f.data_type().clone(),
        nullable: f.is_nullable(),
        metadata: f.metadata().clone(),
        dictionary: DictionaryNote {
            id: f.dict_id().unwrap_or_default(),
            is_ordered: f.dict_is_ordered().unwrap_or_default(),
        },
    };
    let fields = schema.fields().iter().map(field).collect();
    ArrowSchema { fields, metadata: schema.metadata().clone() }
}

/// Calls `RecordBatch::column` and clones the column it refers to, which is as long as the
/// batch. It panics where there is no such column.
#[verifier::external_body]
pub(crate) fn column_at(b: &Batch, i: usize) -> (r: Column)
    requires
        i < batch_columns(*b).len(),
    ensures
        r == batch_columns(*b)[i as int],
        column_len(r) == batch_rows(*b),
{
    Column { array: b.batch.column(i).clone() }
}

/// Calls `RecordBatch::column_by_name` and clones the column it refers to: the one of the first
/// field with that name.
#[verifier::external_body]
fn column_by_name(b: &Batch, name: &str) -> (r: Option<Column>)
    ensures
        match first_named(batch_schema(*b).fields, name@) {
            Some(i) => r == Some(batch_columns(*b)[i]),
            None => r is None,
        },
{
    b.batch.column_by_name(name).map(|array| Column { array: array.clone() })
}

/// Calls `Schema::index_of` on the schema of a batch: the position of the first field with that
/// name, or an error that depends on the names that there are.
#[verifier::external_body]
fn index_of(b: &Batch, name: &str) -> (r: Result<usize, arrow_schema::ArrowError>)
    ensures
        match r {
            Ok(i) => first_named(batch_schema(*b).fields, name@) == Some(i as int) && i
                < batch_columns(*b).len(),
            Err(e) => first_named(batch_schema(*b).fields, name@) is None && e
                == missing_column_error(column_names(batch_schema(*b).fields), name@),
        },
{
    b.batch.schema().index_of(name)
}

/// The fields at the given positions.
pub open spec fn picked_fields(fields: Seq<FieldView>, at: Seq<usize>) -> Seq<FieldView> {
    at.map_values(|i: usize| fields[i as int])
}

/// What the columns at the given positions say of their dictionaries.
pub open spec fn picked_notes(notes: Seq<DictionaryNote>, at: Seq<usize>) -> Seq<DictionaryNote> {
    at.map_values(|i: usize| notes[i as int])
}

/// The columns at the given positions.
pub open spec fn picked_columns(columns: Seq<Column>, at: Seq<usize>) -> Seq<Column> {
    at.map_values(|i: usize| columns[i as int])
}

/// Calls `RecordBatch::project`. With all positions in bounds it picks fields, with what they say
/// of their dictionaries, and columns, and keeps the metadata of the schema and the number of
/// rows; otherwise it fails.
#[verifier::external_body]
fn project(b: &Batch, at: &Vec<usize>) -> (r: Result<Batch, arrow_schema::ArrowError>)
    ensures
        r is Ok <==> forall|k: int|
            0 <= k < at@.len() ==> (#[trigger] at@[k]) < batch_columns(*b).len(),
        match r {
            Ok(p) => {
                &&& batch_schema(p).fields == picked_fields(batch_schema(*b).fields, at@)
                &&& batch_notes(p) == picked_notes(batch_notes(*b), at@)
                &&& batch_schema(p).metadata == batch_schema(*b).metadata
                &&& batch_columns(p) == picked_columns(batch_columns(*b), at@)
                &&& batch_rows(p) == batch_rows(*b)
            },
            Err(_) => true,
        },
{
    b.batch.project(at.as_slice()).map(|batch| Batch { batch })
}

/// Whether Arrow takes columns for a batch with a schema: there is one for each field and at
/// least one, they are of the same length and of the types of the fields, and only nullable
/// fields hold nulls.
pub open spec fn is_batch_of(fields: Seq<FieldView>, columns: Seq<Column>) -> bool {
    &&& columns.len() == fields.len()
    &&& columns.len() > 0
    &&& forall|i: int|
        0 <= i < columns.len() ==> {
            &&& column_len(#[trigger] columns[i]) == column_len(columns[0])
            &&& column_type(columns[i]) == fields[i].data_type
            &&& fields[i].nullable || column_nulls(columns[i]) == 0
        }
}

/// Whether a batch holds columns for its fields, as many values in each as it has rows. Arrow
/// makes no other batches; one without columns can have rows.
pub open spec fn is_whole(b: Batch) -> bool {
    &&& batch_columns(b).len() == batch_schema(b).fields.len()
    &&& forall|i: int|
        0 <= i < batch_columns(b).len() ==> {
            &&& column_len(#[trigger] batch_columns(b)[i]) == batch_rows(b)
            &&& column_type(batch_columns(b)[i]) == batch_schema(b).fields[i].data_type
            &&& batch_schema(b).fields[i].nullable || column_nulls(batch_columns(b)[i]) == 0
        }
}

/// What columns say of their dictionaries: nothing where they have none.
pub open spec fn told_notes(fields: Seq<FieldView>, notes: Seq<DictionaryNote>) -> Seq<
    DictionaryNote,
> {
    Seq::new(
        fields.len(),
        |i: int|
            if shape_of(fields[i].data_type) is Coded {
                notes[i]
            } else {
                no_note()
            },
    )
}

/// Calls `RecordBatch::try_new` with a schema made of the given fields. What a field says of a
/// dictionary can be read back if it has one.
#[verifier::external_body]
#[allow(deprecated)]
fn build_batch(schema: ArrowSchema, columns: Vec<Column>) -> (r: Result<
    Batch,
    arrow_schema::ArrowError,
>)
    ensures
        r is Ok <==> is_batch_of(schema@.fields, columns@),
        match r {
            Ok(b) => {
                &&& batch_schema(b) == schema@
                &&& batch_notes(b) == told_notes(schema@.fields, schema.notes())
                &&& batch_columns(b) == columns@
                &&& batch_rows(b) == column_len(columns@[0])
            },
            Err(_) => true,
        },
{
    let field = |f: ArrowField| {
        let (id, is_ordered) = (f.dictionary.id, f.dictionary.is_ordered);
        arrow_schema::Field::new_dict(f.name, f.data_type, f.nullable, id, is_ordered)
            .with_metadata(f.metadata)
    };
    let fields: Vec<arrow_schema::Field> = schema.fields.into_iter().map(field).collect();
    let whole = arrow_schema::Schema::new_with_metadata(fields, schema.metadata);
    let arrays = columns.into_iter().map(|c| c.array).collect();
    let made = arrow_array::RecordBatch::try_new(std::sync::Arc::new(whole), arrays);
    made.map(|batch| Batch { batch })
}

/// Calls `Array::data_type` and clones the type it refers to.
#[verifier::external_body]
fn read_type(c: &Column) -> (r: arrow_schema::DataType)
    ensures
        type_model(r) == column_type(*c),
{
    arrow_array::Array::data_type(&c.array).clone()
}

/// Whether a column holds nulls where another one does.
pub open spec fn same_nulls(c: Column, d: Column) -> bool {
    &&& column_len(d) == column_len(c)
    &&& column_nulls(d) == column_nulls(c)
    &&& forall|row: nat|
        row < column_len(c) ==> #[trigger] null_at(d, row) == null_at(c, row)
}

/// Whether every number of type `from` can be cast to a number of type `to`: to a 64-bit float
/// any can, to a 64-bit integer those of the integer types that it covers.
pub open spec fn fits_into(from: ColumnType, to: ColumnType) -> bool {
    ||| to is Float64 && is_numeric(from)
    ||| to is Int64 && is_integer(from) && from !is UInt64
}

/// Whether all values of a column are null.
pub open spec fn all_null(c: Column) -> bool {
    forall|row: nat| row < column_len(c) ==> #[trigger] null_at(c, row)
}

/// Whether integers of the width of `from` are read as the days or times of type `to` or the
/// other way round, or byte strings are held in another way.
pub open spec fn reads_as(from: ColumnType, to: ColumnType) -> bool {
    ||| from is Int32 && is_short_time(to)
    ||| from is Int64 && is_long_time(to)
    ||| is_short_time(from) && to is Int32
    ||| is_long_time(from) && to is Int64
    ||| from is Binary && is_bytes(to)
}

/// Whether the integers of a column that a type holds are in another column of that type, with
/// nulls for the others.
pub open spec fn holds_integers(c: Column, d: Column, to: ColumnType) -> bool {
    forall|row: nat|
        #![trigger null_at(d, row)]
        row < column_len(c) ==> {
            &&& null_at(d, row) <==> null_at(c, row) || !holds_integer(to, integer_at(c, row))
            &&& !null_at(d, row) ==> integer_at(d, row) == integer_at(c, row)
        }
}

/// Whether a column holds the integers or the byte strings of another one, and nulls where it
/// does.
pub open spec fn holds_same(c: Column, d: Column) -> bool {
    same_nulls(c, d) && forall|row: nat|
        #![trigger null_at(d, row)]
        row < column_len(c) && !null_at(c, row) ==> if column_type(c) is Binary {
            bytes_at(d, row) == bytes_at(c, row)
        } else {
            integer_at(d, row) == integer_at(c, row)
        }
}

/// Whether the byte strings of a column that are UTF-8 are the texts of another column, with
/// nulls for the others.
pub open spec fn holds_texts(c: Column, d: Column) -> bool {
    forall|row: nat|
        #![trigger null_at(d, row)]
        row < column_len(c) ==> {
            &&& null_at(d, row) <==> null_at(c, row) || !valid_utf8(bytes_at(c, row))
            &&& !null_at(d, row) ==> encode_utf8(text_at(d, row)) == bytes_at(c, row)
        }
}

/// Whether the byte strings of a column are those of a column of a fixed width, with nulls for
/// those of another width.
pub open spec fn holds_fixed(c: Column, d: Column, to: ColumnType) -> bool {
    shape_of(to) matches TypeShape::FixedBytes(n) ==> forall|row: nat|
        #![trigger null_at(d, row)]
        row < column_len(c) ==> {
            &&& null_at(d, row) <==> null_at(c, row) || bytes_at(c, row).len() != n
            &&& !null_at(d, row) ==> bytes_at(d, row) == bytes_at(c, row)
        }
}

/// Calls `arrow::compute::cast`. The outcome is named; a column that was cast to a type without
/// parts is of that type and as long as before. Numbers can be cast to numbers of another type;
/// a number that the type does not hold becomes a null, and where it holds them all, nulls stay
/// where they are. Integers keep their values. Those of 32 and 64 bits can also be read as days
/// or times that are counted in them and the other way round, and byte strings as texts or as
/// byte strings of a fixed width, where those that are no UTF-8 or of another width become nulls.
/// A column of nulls becomes a column of nulls of the other type, so that one has to exist. It
/// panics where texts, bytes or lists run over offsets of 32 bits or are more than views can point
/// to, where a time zone moves a day or time beyond the first or last date, as it does for writing
/// it out, and can do so where decimals of too many digits are cast to fewer bits, and with runs
/// inside other types, whose ends may not hold the positions.
#[verifier::external_body]
pub(crate) fn cast_column(c: &Column, t: &arrow_schema::DataType) -> (r: Result<
    Column,
    arrow_schema::ArrowError,
>)
    requires
        nulls_fit(shape_of(type_model(*t)), column_len(*c)),
        cast_fits(*c, type_model(*t)),
    ensures
        r == cast_outcome(*c, type_model(*t)),
        r matches Ok(d) ==> is_flat(type_model(*t)) ==> column_type(d) == type_model(*t)
            && column_len(d) == column_len(*c),
        is_numeric(column_type(*c)) && is_numeric(type_model(*t)) ==> r is Ok,
        fits_into(column_type(*c), type_model(*t)) ==> same_nulls(*c, r->Ok_0),
        is_integer(column_type(*c)) && is_integer(type_model(*t)) ==> holds_integers(
            *c,
            r->Ok_0,
            type_model(*t),
        ),
        reads_as(column_type(*c), type_model(*t)) ==> r is Ok && holds_same(*c, r->Ok_0),
        column_type(*c) is Binary && is_text(type_model(*t)) ==> r is Ok && holds_texts(
            *c,
            r->Ok_0,
        ),
        column_type(*c) is Binary && shape_of(type_model(*t)) is FixedBytes ==> r is Ok
            && holds_fixed(*c, r->Ok_0, type_model(*t)),
{
    arrow::compute::cast(&c.array, t).map(|array| Column { array })
}

/// Calls `arrow_array::new_null_array`. It panics where no array of that many nulls can be made.
/// The column is of the type and length asked for; where columns of the type mark their nulls
/// themselves, its validity bitmap marks every value as null, and all its values are.
#[verifier::external_body]
fn make_nulls(t: &arrow_schema::DataType, rows: usize) -> (r: Column)
    requires
        nulls_fit(shape_of(type_model(*t)), rows as nat),
    ensures
        r == null_column(type_model(*t), rows as nat),
        column_type(r) == type_model(*t),
        column_len(r) == rows,
        marks_nulls(shape_of(type_model(*t))) ==> column_nulls(r) == rows && all_null(r),
{
    Column { array: arrow_array::new_null_array(t, rows) }
}

/// Whether a name is made of ASCII letters, digits and underscores.
pub open spec fn is_plain_name(name: Seq<char>) -> bool {
    forall|i: int|
        0 <= i < name.len() ==> {
            ||| 'a' <= #[trigger] name[i] <= 'z'
            ||| 'A' <= name[i] <= 'Z'
            ||| '0' <= name[i] <= '9'
            ||| name[i] == '_'
        }
}

/// Formats an Arrow error with its `Debug` implementation. The error of looking up a column
/// quotes the name that was looked up; formatting escapes some characters, so this is said of
/// names without any such character.
#[verifier::external_body]
fn debug_text(e: &arrow_schema::ArrowError) -> (r: String)
    ensures
        r@ == arrow_error_text(*e),
        forall|names: Seq<Seq<char>>, name: Seq<char>|
            *e == #[trigger] missing_column_error(names, name) && is_plain_name(name)
                ==> has_substring(r@, name),
{
    format!("{e:?}")
}

/// Makes the variant `ArrowError::CastError`.
#[verifier::external_body]
fn cast_error(message: String) -> (r: arrow_schema::ArrowError)
    ensures
        cast_error_message(r) == Some(message@),
{
    arrow_schema::ArrowError::CastError(message)
}

/// Calls `downcast_ref` for a `StringArray`, which is what holds a column of type `Utf8`, and
/// clones the array it refers to.
#[verifier::external_body]
fn as_texts(c: &Column) -> (r: Option<StringColumn>)
    ensures
        r is Some <==> column_type(*c) == ColumnType::Utf8,
        r matches Some(s) ==> text_column(s) == *c,
{
    let texts = c.array.as_any().downcast_ref::<arrow_array::StringArray>();
    texts.map(|array| StringColumn { array: array.clone() })
}

/// Calls `UInt32Array::from_iter_values`.
#[verifier::external_body]
fn make_indices(values: Vec<u32>) -> (r: IndexArray)
    ensures
        index_values(r) == values@,
{
    IndexArray { array: arrow_array::UInt32Array::from_iter_values(values) }
}

/// What several Arrow types are for the library.
pub open spec fn type_models(types: Seq<arrow_schema::DataType>) -> Seq<ColumnType> {
    types.map_values(|t: arrow_schema::DataType| type_model(t))
}

/// The types of columns.
pub open spec fn column_types(columns: Seq<Column>) -> Seq<ColumnType> {
    columns.map_values(|c: Column| column_type(c))
}

/// Whether an encoder can be asked for each of several types.
pub open spec fn types_encodable(types: Seq<ColumnType>) -> bool {
    forall|i: int| 0 <= i < types.len() ==> encodable(shape_of(#[trigger] types[i]))
}

/// Whether an encoder is never refused for several types.
pub open spec fn types_flat(types: Seq<ColumnType>) -> bool {
    forall|i: int| 0 <= i < types.len() ==> is_flat(#[trigger] types[i])
}

/// Calls `RowConverter::new` with a `SortField` in default order for each type. It refuses types
/// that the row format does not support, but no flat ones; it panics where it needs a null that
/// cannot be made.
#[verifier::external_body]
fn new_converter(types: Vec<arrow_schema::DataType>) -> (r: Result<
    arrow_row::RowConverter,
    arrow_schema::ArrowError,
>)
    requires
        types_encodable(type_models(types@)),
    ensures
        r is Ok <==> rows_supported(type_models(types@)),
        r matches Ok(c) ==> converter_types(c) == type_models(types@),
        types_flat(type_models(types@)) ==> r is Ok,
{
    arrow_row::RowConverter::new(types.into_iter().map(arrow_row::SortField::new).collect())
}

/// Whether columns are of the same length.
pub open spec fn same_lengths(columns: Seq<Column>) -> bool {
    forall|i: int|
        0 <= i < columns.len() ==> column_len(#[trigger] columns[i]) == column_len(columns[0])
}

/// The number of rows that columns make up.
pub open spec fn row_count(columns: Seq<Column>) -> nat {
    if columns.len() == 0 {
        0
    } else {
        column_len(columns[0])
    }
}

/// Whether the values of a column have names here: booleans, integers, decimals, days and times,
/// texts and byte strings.
pub open spec fn is_readable(c: Column) -> bool {
    let t = column_type(c);
    ||| t is Boolean || is_integer(t) || is_decimal(t) || is_text(t)
    ||| holds_bytes(t) || is_short_time(t) || is_long_time(t)
}

/// Whether the values of a type are byte strings, of any width or a fixed one.
pub open spec fn holds_bytes(t: ColumnType) -> bool {
    is_bytes(t) || shape_of(t) is FixedBytes
}

/// Whether the value of a column in row `i` comes before its value in row `j`. Nulls come first,
/// false comes before true, integers, decimals, days and times by size, texts and byte strings by
/// their bytes.
pub open spec fn cell_less(c: Column, i: nat, j: nat) -> bool {
    if null_at(c, i) || null_at(c, j) {
        null_at(c, i) && !null_at(c, j)
    } else {
        let t = column_type(c);
        if t is Boolean {
            !boolean_at(c, i) && boolean_at(c, j)
        } else if is_text(t) {
            text_less(text_at(c, i), text_at(c, j))
        } else if holds_bytes(t) {
            bytes_less(bytes_at(c, i), bytes_at(c, j))
        } else if is_decimal(t) {
            decimal_at(c, i) < decimal_at(c, j)
        } else {
            integer_at(c, i) < integer_at(c, j)
        }
    }
}

/// Whether the values of a column in two rows are the same.
pub open spec fn cell_same(c: Column, i: nat, j: nat) -> bool {
    if null_at(c, i) || null_at(c, j) {
        null_at(c, i) && null_at(c, j)
    } else {
        let t = column_type(c);
        if t is Boolean {
            boolean_at(c, i) == boolean_at(c, j)
        } else if is_text(t) {
            text_at(c, i) == text_at(c, j)
        } else if holds_bytes(t) {
            bytes_at(c, i) == bytes_at(c, j)
        } else if is_decimal(t) {
            decimal_at(c, i) == decimal_at(c, j)
        } else {
            integer_at(c, i) == integer_at(c, j)
        }
    }
}

/// Whether the first `k` columns have the same values in two rows.
pub open spec fn rows_agree(columns: Seq<Column>, k: int, i: nat, j: nat) -> bool {
    forall|l: int| 0 <= l < k ==> cell_same(#[trigger] columns[l], i, j)
}

/// Whether two rows are told apart by column `k`, row `i` coming first.
pub open spec fn differs_at(columns: Seq<Column>, k: int, i: nat, j: nat) -> bool {
    0 <= k < columns.len() && rows_agree(columns, k, i, j) && cell_less(columns[k], i, j)
}

/// Whether row `i` comes before row `j`: by the first column, then the second and so on.
pub open spec fn row_less(columns: Seq<Column>, i: nat, j: nat) -> bool {
    exists|k: int| differs_at(columns, k, i, j)
}

/// Whether encoded rows compare as the rows of the columns do.
pub open spec fn compare_alike(rows: Seq<Seq<u8>>, columns: Seq<Column>) -> bool {
    forall|i: int, j: int|
        #![trigger rows[i], rows[j]]
        0 <= i < rows.len() && 0 <= j < rows.len() ==> {
            &&& bytes_less(rows[i], rows[j]) <==> row_less(columns, i as nat, j as nat)
            &&& rows[i] == rows[j] <==> rows_agree(
                columns,
                columns.len() as int,
                i as nat,
                j as nat,
            )
        }
}

/// Whether the values of all columns have names.
pub open spec fn all_readable(columns: Seq<Column>) -> bool {
    forall|k: int| 0 <= k < columns.len() ==> is_readable(#[trigger] columns[k])
}

/// Whether the values of the first `k` columns have names.
pub open spec fn first_readable(columns: Seq<Column>, k: int) -> bool {
    k <= columns.len() && forall|l: int| 0 <= l < k ==> is_readable(#[trigger] columns[l])
}

/// Whether the nulls of a column are those that it marks itself. The values of a dictionary can
/// be nulls as well.
pub open spec fn tells_nulls(c: Column) -> bool {
    hides_no_nulls(c, shape_of(column_type(c)))
}

/// Whether no value of a dictionary is a null.
pub open spec fn hides_no_nulls(c: Column, s: TypeShape) -> bool
    decreases s,
{
    match s {
        TypeShape::Coded(_, v) => {
            &&& marks_nulls(*v)
            &&& column_nulls(column_parts(c)[0]) == 0
            &&& hides_no_nulls(column_parts(c)[0], *v)
        },
        _ => true,
    }
}

/// Whether two rows are told apart by column `k` in a way that is known: by its values where they
/// have names, and by its nulls.
pub open spec fn is_told_at(columns: Seq<Column>, k: int, i: nat, j: nat) -> bool {
    is_readable(columns[k]) || (tells_nulls(columns[k]) && null_at(columns[k], i) && !null_at(
        columns[k],
        j,
    ))
}

/// Whether encoded rows compare as the first columns tell them apart, whatever columns follow.
pub open spec fn leading_alike(rows: Seq<Seq<u8>>, columns: Seq<Column>) -> bool {
    forall|i: nat, j: nat, k: int|
        i < rows.len() && j < rows.len() && first_readable(columns, k) && #[trigger] differs_at(
            columns,
            k,
            i,
            j,
        ) && is_told_at(columns, k, i, j) ==> bytes_less(rows[i as int], rows[j as int])
}

/// Calls `RowConverter::convert_columns` on columns of the types that the encoder was made for,
/// and copies the bytes of each row out; rows compare as their bytes do. There is one for each
/// position in the columns. Flat columns of the same length can always be encoded. The bytes
/// compare as the values do, column by column and nulls first; it is said of columns whose values
/// have names here, and of the nulls of any column. The bytes of a value tell where they end, so
/// that columns which tell two rows apart decide whatever columns follow.
#[verifier::external_body]
fn encode_rows(converter: &arrow_row::RowConverter, columns: &[Column]) -> (r: Result<
    Vec<Vec<u8>>,
    arrow_schema::ArrowError,
>)
    requires
        converter_types(*converter) == column_types(columns@),
    ensures
        match r {
            Ok(rows) => encoded_rows(columns@) == Some(row_bytes(rows@)) && rows@.len()
                == row_count(columns@),
            Err(_) => encoded_rows(columns@) is None,
        },
        same_lengths(columns@) && types_flat(column_types(columns@)) ==> r is Ok,
        r matches Ok(rows) ==> all_readable(columns@) ==> compare_alike(row_bytes(rows@), columns@),
        r matches Ok(rows) ==> leading_alike(row_bytes(rows@), columns@),
{
    let arrays: Vec<arrow_array::ArrayRef> = columns.iter().map(|c| c.array.clone()).collect();
    let rows = converter.convert_columns(&arrays)?;
    Ok(rows.iter().map(|row| row.data().to_vec()).collect())
}

/// The schema of a batch, as the library holds it.
pub fn schema_of(b: &Batch) -> (r: SchemaDef)
    ensures
        r@ == batch_schema(*b),
        field_notes(r.fields@) == batch_notes(*b),
        r@.fields.len() == batch_columns(*b).len(),
{
    let read: ArrowSchema = read_schema(b);
    let mut fields: Vec<FieldDef> = Vec::new();
    let mut i: usize = 0;
    while i < read.fields.len()
        invariant
            i <= read.fields@.len(),
            fields@.len() == i,
            forall|k: int|
                0 <= k < i ==> (#[trigger] fields@[k])@ == read.fields@[k]@
                    && fields@[k].dictionary == read.fields@[k].dictionary,
        decreases read.fields@.len() - i,
    {
        let f: &ArrowField = &read.fields[i];
        fields.push(
            FieldDef {
                name: f.name.clone(),
                data_type: ColumnType::from_arrow(&f.data_type),
                nullable: f.nullable,
                metadata: f.metadata.clone(),
                dictionary: f.dictionary,
            },
        );
        i += 1;
    }
    assert(field_views(fields@) =~= read@.fields);
    assert(field_notes(fields@) =~= read.notes());
    SchemaDef { fields, metadata: read.metadata.clone() }
}

fn to_arrow_schema(schema: &SchemaDef) -> (r: ArrowSchema)
    ensures
        r@ == schema@,
        r.notes() == field_notes(schema.fields@),
{
    let mut fields: Vec<ArrowField> = Vec::new();
    let mut i: usize = 0;
    while i < schema.fields.len()
        invariant
            i <= schema.fields@.len(),
            fields@.len() == i,
            forall|k: int|
                0 <= k < i ==> (#[trigger] fields@[k])@ == schema.fields@[k]@
                    && fields@[k].dictionary == schema.fields@[k].dictionary,
        decreases schema.fields@.len() - i,
    {
        let f: &FieldDef = &schema.fields[i];
        fields.push(
            ArrowField {
                name: f.name.clone(),
                data_type: f.data_type.to_arrow(),
                nullable: f.nullable,
                metadata: f.metadata.clone(),
                dictionary: f.dictionary,
            },
        );
        i += 1;
    }
    let r: ArrowSchema = ArrowSchema { fields, metadata: schema.metadata.clone() };
    assert(r@.fields =~= schema@.fields);
    assert(r.notes() =~= field_notes(schema.fields@));
    r
}

/// The type of a column.
pub fn type_of(c: &Column) -> (r: ColumnType)
    ensures
        r == column_type(*c),
{
    ColumnType::from_arrow(&read_type(c))
}

/// The number of rows of a batch.
pub fn rows_of(b: &Batch) -> (r: usize)
    ensures
        r == batch_rows(*b),
{
    count_rows(b)
}

proof fn first_named_bounds(fields: Seq<FieldView>, name: Seq<char>)
    ensures
        match first_named(fields, name) {
            Some(i) => 0 <= i < fields.len() && fields[i].name == name && forall|k: int|
                0 <= k < i ==> (#[trigger] fields[k]).name != name,
            None => forall|k: int| 0 <= k < fields.len() ==> (#[trigger] fields[k]).name != name,
        },
    decreases fields.len(),
{
    if fields.len() > 0 {
        let shorter = fields.drop_last();
        first_named_bounds(shorter, name);
        assert forall|k: int| 0 <= k < shorter.len() implies shorter[k] == fields[k] by {}
        if first_named(shorter, name) is None {
            assert forall|k: int| 0 <= k < fields.len() - 1 implies (#[trigger] fields[k]).name
                != name by {
                assert(shorter[k] == fields[k]);
            }
        } else {
            let i = first_named(shorter, name)->0;
            assert forall|k: int| 0 <= k < i implies (#[trigger] fields[k]).name != name by {
                assert(shorter[k] == fields[k]);
            }
        }
    }
}

/// The first column with a name is found: it has the name, and none before it has.
pub proof fn first_named_is_first(fields: Seq<FieldView>, name: Seq<char>, i: int)
    ensures
        first_named(fields, name) == Some(i) <==> 0 <= i < fields.len() && fields[i].name == name
            && forall|k: int| 0 <= k < i ==> (#[trigger] fields[k]).name != name,
{
    first_named_bounds(fields, name);
}

/// No column is found if and only if none has the name.
pub proof fn first_named_nowhere(fields: Seq<FieldView>, name: Seq<char>)
    ensures
        first_named(fields, name) is None <==> !has_field(fields, name),
{
    first_named_bounds(fields, name);
}

/// Finds the first column with a name.
pub fn position_of(fields: &Vec<FieldDef>, name: &str) -> (r: Option<usize>)
    ensures
        match r {
            Some(i) => first_named(field_views(fields@), name@) == Some(i as int) && i
                < fields@.len(),
            None => first_named(field_views(fields@), name@) is None,
        },
{
    let ghost all = field_views(fields@);
    let mut i: usize = 0;
    while i < fields.len()
        invariant
            all == field_views(fields@),
            i <= fields@.len(),
            forall|k: int| 0 <= k < i ==> (#[trigger] all[k]).name != name@,
        decreases fields@.len() - i,
    {
        assert(all[i as int].name == fields@[i as int].name@);
        if same_text(fields[i].name.as_str(), name) {
            proof {
                first_named_is_first(all, name@, i as int);
            }
            return Some(i);
        }
        i += 1;
    }
    proof {
        first_named_bounds(all, name@);
    }
    None
}

/// What the names in a slice stand for.
pub open spec fn name_views(names: Seq<&str>) -> Seq<Seq<char>> {
    names.map_values(|n: &str| n@)
}

/// The first of the names that is no column.
pub open spec fn first_missing(fields: Seq<FieldView>, names: Seq<Seq<char>>) -> Option<Seq<char>>
    decreases names.len(),
{
    if names.len() == 0 {
        None
    } else {
        match first_missing(fields, names.drop_last()) {
            Some(name) => Some(name),
            None => if first_named(fields, names.last()) is None {
                Some(names.last())
            } else {
                None
            },
        }
    }
}

/// Once a name is missing, names behind it make no difference.
proof fn missing_stays(fields: Seq<FieldView>, names: Seq<Seq<char>>, n: int)
    requires
        0 <= n <= names.len(),
        first_missing(fields, names.take(n)) is Some,
    ensures
        first_missing(fields, names) == first_missing(fields, names.take(n)),
    decreases names.len() - n,
{
    if n == names.len() {
        assert(names.take(n) =~= names);
    } else {
        assert(names.take(n + 1).drop_last() =~= names.take(n));
        missing_stays(fields, names, n + 1);
    }
}

/// A missing name ends the search where it is met first.
proof fn missing_at(fields: Seq<FieldView>, names: Seq<Seq<char>>, n: int)
    requires
        0 <= n < names.len(),
        first_missing(fields, names.take(n)) is None,
    ensures
        first_named(fields, names[n]) is None ==> first_missing(fields, names) == Some(names[n]),
        first_named(fields, names[n]) is Some ==> first_missing(fields, names.take(n + 1)) is None,
{
    assert(names.take(n + 1).drop_last() =~= names.take(n));
    assert(names.take(n + 1).last() == names[n]);
    if first_named(fields, names[n]) is None {
        missing_stays(fields, names, n + 1);
    }
}

/// The message of a column that is not there.
pub open spec fn not_found(name: Seq<char>) -> Seq<char> {
    "Column "@ + name + " not found"@
}

fn not_found_text(name: &str) -> (r: String)
    ensures
        r@ == not_found(name@),
{
    let mut m: String = "Column ".to_owned();
    m.append(name);
    m.append(" not found");
    m
}

/// Whether an error is a schema error with the given message.
pub open spec fn is_schema_error(e: CoreError, message: Seq<char>) -> bool {
    e matches CoreError::Schema(m) && m@ == message
}

/// Columns of a batch by name.
pub trait ColumnAsArray {
    /// The column with the given name.
    fn get_array(&self, column_name: &str) -> Result<Column, CoreError>;

    /// The column with the given name, which has to hold texts.
    fn get_string_array(&self, column_name: &str) -> Result<StringColumn, CoreError>;
}

/// The message of a column that does not hold texts.
pub open spec fn not_text(name: Seq<char>) -> Seq<char> {
    "Column "@ + name + " cannot be cast to StringArray."@
}

impl ColumnAsArray for Batch {
    fn get_array(&self, column_name: &str) -> (r: Result<Column, CoreError>)
        ensures
            match first_named(batch_schema(*self).fields, column_name@) {
                Some(i) => r == Ok::<_, CoreError>(batch_columns(*self)[i]),
                None => r == Err::<Column, _>(
                    CoreError::ArrowError(
                        missing_column_error(
                            column_names(batch_schema(*self).fields),
                            column_name@,
                        ),
                    ),
                ),
            },
    {
        match index_of(self, column_name) {
            Ok(i) => Ok(column_at(self, i)),
            Err(e) => Err(CoreError::ArrowError(e)),
        }
    }

    fn get_string_array(&self, column_name: &str) -> (r: Result<StringColumn, CoreError>)
        ensures
            match first_named(batch_schema(*self).fields, column_name@) {
                Some(i) => if column_type(batch_columns(*self)[i]) == ColumnType::Utf8 {
                    r matches Ok(s) && text_column(s) == batch_columns(*self)[i]
                } else {
                    r matches Err(CoreError::ArrowError(e)) && cast_error_message(e) == Some(
                        not_text(column_name@),
                    )
                },
                None => r == Err::<StringColumn, _>(
                    CoreError::ArrowError(
                        missing_column_error(
                            column_names(batch_schema(*self).fields),
                            column_name@,
                        ),
                    ),
                ),
            },
    {
        let column: Column = match self.get_array(column_name) {
            Ok(c) => c,
            Err(e) => {
                return Err(e);
            },
        };
        match as_texts(&column) {
            Some(texts) => Ok(texts),
            None => {
                let mut m: String = "Column ".to_owned();
                m.append(column_name);
                m.append(" cannot be cast to StringArray.");
                Err(CoreError::ArrowError(cast_error(m)))
            },
        }
    }
}

/// The columns of a batch with the given names, in the order of the names.
pub fn get_column_arrays(batch: &Batch, column_names: &[&str]) -> (r: Result<Vec<Column>, CoreError>)
    ensures
        match first_missing(batch_schema(*batch).fields, name_views(column_names@)) {
            Some(name) => r matches Err(e) && is_schema_error(e, not_found(name)),
            None => r matches Ok(columns) && columns@ == name_views(column_names@).map_values(
                |n: Seq<char>| batch_columns(*batch)[first_named(
                    batch_schema(*batch).fields,
                    n,
                )->0],
            ),
        },
{
    let ghost fields = batch_schema(*batch).fields;
    let ghost names = name_views(column_names@);
    let mut columns: Vec<Column> = Vec::new();
    let mut i: usize = 0;
    while i < column_names.len()
        invariant
            fields == batch_schema(*batch).fields,
            names == name_views(column_names@),
            i <= column_names@.len(),
            columns@.len() == i,
            first_missing(fields, names.take(i as int)) is None,
            forall|k: int|
                0 <= k < i ==> #[trigger] columns@[k] == batch_columns(*batch)[first_named(
                    fields,
                    names[k],
                )->0],
        decreases column_names@.len() - i,
    {
        proof {
            missing_at(fields, names, i as int);
        }
        match column_by_name(batch, column_names[i]) {
            Some(c) => {
                columns.push(c);
            },
            None => {
                return Err(CoreError::Schema(not_found_text(column_names[i])));
            },
        }
        i += 1;
    }
    assert(names.take(i as int) =~= names);
    Ok(columns)
}

/// The positions of the columns with the given names.
pub open spec fn positions(fields: Seq<FieldView>, names: Seq<Seq<char>>) -> Seq<usize> {
    names.map_values(|n: Seq<char>| first_named(fields, n)->0 as usize)
}

/// The message of a projection to a column that is not there.
pub open spec fn projection_failure(fields: Seq<FieldView>, name: Seq<char>) -> Seq<char> {
    "Projection column not found: "@ + arrow_error_text(
        missing_column_error(column_names(fields), name),
    )
}

/// What occurs in a text occurs in any text that ends in it.
proof fn behind_substring(before: Seq<char>, s: Seq<char>, pattern: Seq<char>)
    requires
        has_substring(s, pattern),
    ensures
        has_substring(before + s, pattern),
{
    let i = choose|i: int|
        0 <= i && i + pattern.len() <= s.len() && #[trigger] s.subrange(i, i + pattern.len())
            == pattern;
    let at = before.len() + i;
    assert((before + s).subrange(at, at + pattern.len()) =~= s.subrange(i, i + pattern.len()));
}

/// Projects a batch to the columns with the given names, in the order of the names; without a
/// projection the batch stays as it is. A name that is no column is an error.
pub fn project_batch_by_names(batch: Batch, projection: Option<&[String]>) -> (r: Result<
    Batch,
    CoreError,
>)
    ensures
        match projection {
            None => r == Ok::<_, CoreError>(batch),
            Some(names) => match first_missing(batch_schema(batch).fields, text_views(names@)) {
                Some(name) => {
                    let message = projection_failure(batch_schema(batch).fields, name);
                    &&& r matches Err(e) && is_schema_error(e, message)
                    &&& is_plain_name(name) ==> has_substring(message, name)
                },
                None => {
                    let at = positions(batch_schema(batch).fields, text_views(names@));
                    r matches Ok(p) && {
                        &&& batch_schema(p).fields == picked_fields(batch_schema(batch).fields, at)
                        &&& batch_notes(p) == picked_notes(batch_notes(batch), at)
                        &&& batch_schema(p).metadata == batch_schema(batch).metadata
                        &&& batch_columns(p) == picked_columns(batch_columns(batch), at)
                        &&& batch_rows(p) == batch_rows(batch)
                    }
                },
            },
        },
{
    let cols: &[String] = match projection {
        Some(cols) => cols,
        None => {
            return Ok(batch);
        },
    };
    let ghost fields = batch_schema(batch).fields;
    let ghost names = text_views(cols@);
    let mut at: Vec<usize> = Vec::new();
    let mut i: usize = 0;
    while i < cols.len()
        invariant
            fields == batch_schema(batch).fields,
            names == text_views(cols@),
            projection == Some(cols),
            i <= cols@.len(),
            at@.len() == i,
            first_missing(fields, names.take(i as int)) is None,
            forall|k: int|
                0 <= k < i ==> (#[trigger] at@[k]) as int == first_named(fields, names[k])->0
                    && at@[k] < batch_columns(batch).len(),
        decreases cols@.len() - i,
    {
        proof {
            missing_at(fields, names, i as int);
        }
        match index_of(&batch, cols[i].as_str()) {
            Ok(k) => {
                at.push(k);
            },
            Err(e) => {
                let mut m: String = "Projection column not found: ".to_owned();
                let cause: String = debug_text(&e);
                m.append(cause.as_str());
                proof {
                    if is_plain_name(names[i as int]) {
                        behind_substring(m@.take(m@.len() - cause@.len()), cause@, names[i as int]);
                        assert(m@ =~= m@.take(m@.len() - cause@.len()) + cause@);
                    }
                }
                return Err(CoreError::Schema(m));
            },
        }
        i += 1;
    }
    assert(names.take(i as int) =~= names);
    assert(at@ =~= positions(fields, names));
    match project(&batch, &at) {
        Ok(p) => Ok(p),
        Err(e) => Err(CoreError::ArrowError(e)),
    }
}

/// Projecting to all columns in their order, where each name occurs once, takes the fields and
/// columns as they are.
pub proof fn projection_to_all_is_whole(fields: Seq<FieldView>, columns: Seq<Column>)
    requires
        columns.len() == fields.len(),
        fields.len() <= usize::MAX,
        column_names(fields).no_duplicates(),
    ensures
        first_missing(fields, column_names(fields)) is None,
        picked_fields(fields, positions(fields, column_names(fields))) == fields,
        picked_columns(columns, positions(fields, column_names(fields))) == columns,
{
    let names = column_names(fields);
    assert forall|i: int| 0 <= i < fields.len() implies first_named(fields, #[trigger] names[i])
        == Some(i) by {
        assert forall|k: int| 0 <= k < i implies (#[trigger] fields[k]).name != names[i] by {
            assert(names[k] == fields[k].name);
        }
        first_named_is_first(fields, names[i], i);
    }
    none_missing(fields, names);
    let at = positions(fields, names);
    assert forall|i: int| 0 <= i < at.len() implies #[trigger] at[i] == i by {
        assert(first_named(fields, names[i]) == Some(i));
    }
    assert(picked_fields(fields, at) =~= fields);
    assert(picked_columns(columns, at) =~= columns);
}

proof fn none_missing(fields: Seq<FieldView>, names: Seq<Seq<char>>)
    requires
        forall|i: int| 0 <= i < names.len() ==> first_named(fields, #[trigger] names[i]) is Some,
    ensures
        first_missing(fields, names) is None,
    decreases names.len(),
{
    if names.len() > 0 {
        let shorter = names.drop_last();
        assert forall|i: int| 0 <= i < shorter.len() implies first_named(
            fields,
            #[trigger] shorter[i],
        ) is Some by {
            assert(shorter[i] == names[i]);
        }
        none_missing(fields, shorter);
        assert(names[names.len() - 1] == names.last());
    }
}

/// The types of the columns with the given names.
pub open spec fn named_types(fields: Seq<FieldView>, names: Seq<Seq<char>>) -> Seq<ColumnType> {
    names.map_values(|n: Seq<char>| fields[first_named(fields, n)->0].data_type)
}

/// Whether the types of the columns with the given names can be asked an encoder for.
pub open spec fn names_encodable(fields: Seq<FieldView>, names: Seq<Seq<char>>) -> bool {
    first_missing(fields, names) is None ==> types_encodable(named_types(fields, names))
}

/// Whether `r` is what comes of asking for an encoder of the columns with the given names.
pub open spec fn is_converter_for(
    fields: Seq<FieldView>,
    names: Seq<Seq<char>>,
    r: Result<arrow_row::RowConverter, CoreError>,
) -> bool {
    match first_missing(fields, names) {
        Some(name) => r matches Err(e) && is_schema_error(e, not_found(name)),
        None => {
            let types = named_types(fields, names);
            &&& types_flat(types) ==> r is Ok
            &&& match r {
                Ok(c) => rows_supported(types) && converter_types(c) == types,
                Err(e) => !rows_supported(types) && e is ArrowError,
            }
        },
    }
}

/// Makes a row encoder for the columns with the given names. A name that is no column is an
/// error.
pub fn create_row_converter(schema: &SchemaDef, column_names: &[&str]) -> (r: Result<
    arrow_row::RowConverter,
    CoreError,
>)
    requires
        names_encodable(schema@.fields, name_views(column_names@)),
    ensures
        is_converter_for(schema@.fields, name_views(column_names@), r),
{
    let ghost fields = schema@.fields;
    let ghost names = name_views(column_names@);
    let mut types: Vec<arrow_schema::DataType> = Vec::new();
    let mut i: usize = 0;
    while i < column_names.len()
        invariant
            fields == schema@.fields,
            names == name_views(column_names@),
            i <= column_names@.len(),
            types@.len() == i,
            first_missing(fields, names.take(i as int)) is None,
            forall|k: int|
                0 <= k < i ==> type_model(#[trigger] types@[k]) == fields[first_named(
                    fields,
                    names[k],
                )->0].data_type,
        decreases column_names@.len() - i,
    {
        proof {
            missing_at(fields, names, i as int);
        }
        match position_of(&schema.fields, column_names[i]) {
            Some(k) => {
                types.push(schema.fields[k].data_type.to_arrow());
            },
            None => {
                return Err(CoreError::Schema(not_found_text(column_names[i])));
            },
        }
        i += 1;
    }
    assert(names.take(i as int) =~= names);
    assert(type_models(types@) =~= named_types(fields, names));
    match new_converter(types) {
        Ok(c) => Ok(c),
        Err(e) => Err(CoreError::ArrowError(e)),
    }
}

/// As [`create_row_converter`], for types that may be malformed; `None` where the types of the
/// columns cannot be asked an encoder for.
pub fn create_row_converter_if_sound(schema: &SchemaDef, column_names: &[&str]) -> (r: Option<
    Result<arrow_row::RowConverter, CoreError>,
>)
    ensures
        match r {
            Some(made) => is_converter_for(schema@.fields, name_views(column_names@), made),
            None => !names_encodable(schema@.fields, name_views(column_names@)),
        },
{
    let ghost fields = schema@.fields;
    let ghost names = name_views(column_names@);
    let mut sound: bool = true;
    let mut i: usize = 0;
    while i < column_names.len()
        invariant
            fields == schema@.fields,
            names == name_views(column_names@),
            i <= column_names@.len(),
            first_missing(fields, names.take(i as int)) is None,
            sound == types_encodable(named_types(fields, names.take(i as int))),
        decreases column_names@.len() - i,
    {
        proof {
            missing_at(fields, names, i as int);
        }
        match position_of(&schema.fields, column_names[i]) {
            Some(k) => {
                let this: bool = can_encode(&schema.fields[k].data_type);
                proof {
                    let before = named_types(fields, names.take(i as int));
                    let after = named_types(fields, names.take(i + 1));
                    assert(after =~= before.push(fields[k as int].data_type));
                    encodable_next(before, fields[k as int].data_type);
                }
                sound = sound && this;
            },
            None => {
                return Some(Err(CoreError::Schema(not_found_text(column_names[i]))));
            },
        }
        i += 1;
    }
    assert(names.take(i as int) =~= names);
    if sound {
        Some(create_row_converter(schema, column_names))
    } else {
        None
    }
}

proof fn encodable_next(types: Seq<ColumnType>, t: ColumnType)
    ensures
        types_encodable(types.push(t)) == (types_encodable(types) && encodable(shape_of(t))),
{
    let more = types.push(t);
    if types_encodable(more) {
        assert forall|i: int| 0 <= i < types.len() implies encodable(
            shape_of(#[trigger] types[i]),
        ) by {
            assert(more[i] == types[i]);
        }
        assert(more[types.len() as int] == t);
    }
    if types_encodable(types) && encodable(shape_of(t)) {
        assert forall|i: int| 0 <= i < more.len() implies encodable(
            shape_of(#[trigger] more[i]),
        ) by {
            if i < types.len() {
                assert(more[i] == types[i]);
            }
        }
    }
}

/// Whether columns can be sorted by: their rows can be encoded.
pub open spec fn sortable(columns: Seq<Column>) -> bool {
    &&& types_encodable(column_types(columns))
    &&& rows_supported(column_types(columns))
    &&& encoded_rows(columns) is Some
}

/// Whether flat columns of the same length are given, which can always be sorted by.
pub open spec fn plainly_sortable(columns: Seq<Column>) -> bool {
    same_lengths(columns) && types_flat(column_types(columns))
}

/// Whether `indices` are the positions of the rows of the columns in ascending (or, with `desc`,
/// descending) order of the rows. Equal rows keep their order in both directions.
pub open spec fn are_sorted_indices(columns: Seq<Column>, desc: bool, indices: Seq<u32>) -> bool {
    exists|order: Seq<usize>|
        #[trigger] is_row_order(
            encoded_rows(columns)->0,
            desc,
            0,
            encoded_rows(columns)->0.len() as int,
            order,
        ) && indices == order.map_values(|i: usize| i as u32)
}

proof fn flat_is_encodable(types: Seq<ColumnType>)
    requires
        types_flat(types),
    ensures
        types_encodable(types),
{
    assert forall|i: int| 0 <= i < types.len() implies encodable(shape_of(#[trigger] types[i])) by {
        assert(is_flat(types[i]));
    }
}

fn sort_encodable(columns: &[Column], types: Vec<arrow_schema::DataType>, desc: bool) -> (r:
    Option<IndexArray>)
    requires
        type_models(types@) == column_types(columns@),
        types_encodable(column_types(columns@)),
    ensures
        r is Some <==> rows_supported(column_types(columns@)) && encoded_rows(columns@) is Some,
        plainly_sortable(columns@) ==> r is Some,
        r matches Some(indices) ==> are_sorted_indices(columns@, desc, index_values(indices))
            && index_values(indices).len() == row_count(columns@),
        r is Some && all_readable(columns@) ==> compare_alike(encoded_rows(columns@)->0, columns@),
        r is Some ==> leading_alike(encoded_rows(columns@)->0, columns@),
{
    let converter: arrow_row::RowConverter = match new_converter(types) {
        Ok(c) => c,
        Err(_) => {
            return None;
        },
    };
    let rows: Vec<Vec<u8>> = match encode_rows(&converter, columns) {
        Ok(rows) => rows,
        Err(_) => {
            return None;
        },
    };
    let order: Vec<usize> = row_order(&rows, desc);
    let mut indices: Vec<u32> = Vec::new();
    let mut i: usize = 0;
    while i < order.len()
        invariant
            i <= order@.len(),
            indices@.len() == i,
            forall|k: int| 0 <= k < i ==> #[trigger] indices@[k] == order@[k] as u32,
        decreases order@.len() - i,
    {
        indices.push(#[verifier::truncate] (order[i] as u32));
        i += 1;
    }
    assert(indices@ =~= order@.map_values(|i: usize| i as u32));
    assert(is_row_order(
        encoded_rows(columns@)->0,
        desc,
        0,
        encoded_rows(columns@)->0.len() as int,
        order@,
    ));
    Some(make_indices(indices))
}

fn arrow_types_of(columns: &[Column]) -> (r: Vec<arrow_schema::DataType>)
    ensures
        type_models(r@) == column_types(columns@),
{
    let mut types: Vec<arrow_schema::DataType> = Vec::new();
    let mut i: usize = 0;
    while i < columns.len()
        invariant
            i <= columns@.len(),
            types@.len() == i,
            forall|k: int|
                0 <= k < i ==> type_model(#[trigger] types@[k]) == column_type(columns@[k]),
        decreases columns@.len() - i,
    {
        types.push(read_type(&columns[i]));
        i += 1;
    }
    assert(type_models(types@) =~= column_types(columns@));
    types
}

/// The positions of the rows of columns in sorted order, by the first column, then the second
/// and so on.
pub fn lexsort_to_indices(columns: &[Column], desc: bool) -> (r: IndexArray)
    requires
        plainly_sortable(columns@) || sortable(columns@),
    ensures
        are_sorted_indices(columns@, desc, index_values(r)),
        index_values(r).len() == row_count(columns@),
        all_readable(columns@) ==> compare_alike(encoded_rows(columns@)->0, columns@),
        leading_alike(encoded_rows(columns@)->0, columns@),
{
    let types: Vec<arrow_schema::DataType> = arrow_types_of(columns);
    proof {
        if plainly_sortable(columns@) {
            flat_is_encodable(column_types(columns@));
        }
    }
    match sort_encodable(columns, types, desc) {
        Some(indices) => indices,
        None => unreached(),
    }
}

/// As [`lexsort_to_indices`], for any columns; `None` where they cannot be sorted by.
pub fn lexsort_to_indices_if_sortable(columns: &[Column], desc: bool) -> (r: Option<IndexArray>)
    ensures
        r is Some <==> sortable(columns@),
        plainly_sortable(columns@) ==> r is Some,
        r matches Some(indices) ==> are_sorted_indices(columns@, desc, index_values(indices))
            && index_values(indices).len() == row_count(columns@),
        r is Some && all_readable(columns@) ==> compare_alike(encoded_rows(columns@)->0, columns@),
        r is Some ==> leading_alike(encoded_rows(columns@)->0, columns@),
{
    let ghost types = column_types(columns@);
    proof {
        if plainly_sortable(columns@) {
            flat_is_encodable(types);
        }
    }
    let mut i: usize = 0;
    while i < columns.len()
        invariant
            types == column_types(columns@),
            i <= columns@.len(),
            forall|k: int| 0 <= k < i ==> encodable(shape_of(#[trigger] types[k])),
            plainly_sortable(columns@) ==> types_encodable(types),
        decreases columns@.len() - i,
    {
        assert(types[i as int] == column_type(columns@[i as int]));
        if !can_encode(&type_of(&columns[i])) {
            return None;
        }
        i += 1;
    }
    sort_encodable(columns, arrow_types_of(columns), desc)
}

/// Whether row `x` stands before row `y` in the sorted rows of columns: it comes first, or the
/// two are the same and it stood before.
pub open spec fn sorted_before(columns: Seq<Column>, desc: bool, x: nat, y: nat) -> bool {
    ||| if desc {
        row_less(columns, y, x)
    } else {
        row_less(columns, x, y)
    }
    ||| rows_agree(columns, columns.len() as int, x, y) && x < y
}

/// Sorted positions list every row once, by the first column, then the second and so on, and
/// rows that are the same in their order.
pub proof fn sorted_by_columns(columns: Seq<Column>, desc: bool, indices: Seq<u32>)
    requires
        are_sorted_indices(columns, desc, indices),
        compare_alike(encoded_rows(columns)->0, columns),
        encoded_rows(columns)->0.len() <= u32::MAX,
    ensures
        indices.len() == encoded_rows(columns)->0.len(),
        forall|x: u32| x < encoded_rows(columns)->0.len() ==> #[trigger] indices.contains(x),
        forall|i: int, j: int|
            0 <= i < j < indices.len() ==> sorted_before(
                columns,
                desc,
                #[trigger] indices[i] as nat,
                #[trigger] indices[j] as nat,
            ),
{
    let rows = encoded_rows(columns)->0;
    let n = rows.len() as int;
    let order = choose|order: Seq<usize>|
        #[trigger] is_row_order(rows, desc, 0, n, order) && indices == order.map_values(
            |i: usize| i as u32,
        );
    assert forall|x: u32| x < n implies #[trigger] indices.contains(x) by {
        assert(order.contains(x as usize));
        let k = choose|k: int| 0 <= k < order.len() && order[k] == x as usize;
        assert(indices[k] == x);
    }
    assert forall|i: int, j: int| 0 <= i < j < indices.len() implies sorted_before(
        columns,
        desc,
        #[trigger] indices[i] as nat,
        #[trigger] indices[j] as nat,
    ) by {
        let x = order[i] as int;
        let y = order[j] as int;
        assert(placed_before(rows, desc, x, y));
        assert(indices[i] == order[i] as u32 && indices[j] == order[j] as u32);
        assert(rows[x] == rows[x] && rows[y] == rows[y]);
    }
}

/// No row stands behind one that the first columns place after it, whatever columns follow.
pub proof fn sorted_by_leading_columns(
    columns: Seq<Column>,
    desc: bool,
    indices: Seq<u32>,
    k: int,
    p: int,
    q: int,
)
    requires
        are_sorted_indices(columns, desc, indices),
        leading_alike(encoded_rows(columns)->0, columns),
        encoded_rows(columns)->0.len() <= u32::MAX,
        first_readable(columns, k),
        0 <= p < q < indices.len(),
    ensures
        !desc && is_told_at(columns, k, indices[q] as nat, indices[p] as nat) ==> !differs_at(
            columns,
            k,
            indices[q] as nat,
            indices[p] as nat,
        ),
        desc && is_told_at(columns, k, indices[p] as nat, indices[q] as nat) ==> !differs_at(
            columns,
            k,
            indices[p] as nat,
            indices[q] as nat,
        ),
{
    let rows = encoded_rows(columns)->0;
    let order = choose|order: Seq<usize>|
        #[trigger] is_row_order(rows, desc, 0, rows.len() as int, order) && indices
            == order.map_values(|i: usize| i as u32);
    let x = order[p] as nat;
    let y = order[q] as nat;
    assert(indices[p] == order[p] as u32 && indices[q] == order[q] as u32);
    assert(placed_before(rows, desc, x as int, y as int));
    bytes_less_irreflexive(rows[x as int]);
    if bytes_less(rows[x as int], rows[y as int]) {
        bytes_less_asymmetric(rows[x as int], rows[y as int]);
    }
    if bytes_less(rows[y as int], rows[x as int]) {
        bytes_less_asymmetric(rows[y as int], rows[x as int]);
    }
}

/// The nulls of the first column come first in ascending order and last in descending order,
/// whatever its type is.
pub proof fn leading_nulls_stand_together(
    columns: Seq<Column>,
    desc: bool,
    indices: Seq<u32>,
    p: int,
    q: int,
)
    requires
        are_sorted_indices(columns, desc, indices),
        leading_alike(encoded_rows(columns)->0, columns),
        encoded_rows(columns)->0.len() <= u32::MAX,
        columns.len() > 0,
        tells_nulls(columns[0]),
        0 <= p < q < indices.len(),
    ensures
        !desc && null_at(columns[0], indices[q] as nat) ==> null_at(
            columns[0],
            indices[p] as nat,
        ),
        desc && null_at(columns[0], indices[p] as nat) ==> null_at(columns[0], indices[q] as nat),
{
    sorted_by_leading_columns(columns, desc, indices, 0, p, q);
    let x = indices[p] as nat;
    let y = indices[q] as nat;
    assert(rows_agree(columns, 0, x, y) && rows_agree(columns, 0, y, x));
}

/// Sorting in descending order gives the same rows as sorting in ascending order, from behind.
pub proof fn descending_sort_mirrors(columns: Seq<Column>, up: Seq<u32>, down: Seq<u32>, i: int)
    requires
        are_sorted_indices(columns, false, up),
        are_sorted_indices(columns, true, down),
        encoded_rows(columns)->0.len() <= u32::MAX,
        0 <= i < up.len(),
    ensures
        down.len() == up.len(),
        encoded_rows(columns)->0[down[i] as int] == encoded_rows(columns)->0[up[up.len() - 1
            - i] as int],
        compare_alike(encoded_rows(columns)->0, columns) ==> rows_agree(
            columns,
            columns.len() as int,
            down[i] as nat,
            up[up.len() - 1 - i] as nat,
        ),
{
    let rows = encoded_rows(columns)->0;
    let n = rows.len() as int;
    let a = choose|order: Seq<usize>|
        #[trigger] is_row_order(rows, false, 0, n, order) && up == order.map_values(
            |i: usize| i as u32,
        );
    let d = choose|order: Seq<usize>|
        #[trigger] is_row_order(rows, true, 0, n, order) && down == order.map_values(
            |i: usize| i as u32,
        );
    assert(down[i] == d[i] as u32 && up[n - 1 - i] == a[n - 1 - i] as u32);
    descending_mirrors(rows, a, d, i);
    assert(rows[d[i] as int] == rows[a[n - 1 - i] as int]);
}

/// How a column of the target comes out of a batch.
#[derive(Debug, Clone, Copy, PartialEq, Eq, Structural)]
pub enum ColumnStep {
    /// The column at this position is taken as it is.
    Keep(usize),
    /// The column at this position is cast.
    Cast(usize),
    /// The column is filled with nulls.
    Nulls,
}

/// How the column `f` of the target comes out of a batch with the given fields, whose columns
/// are of the given types.
pub open spec fn column_step(
    fields: Seq<FieldView>,
    types: Seq<ColumnType>,
    f: FieldView,
) -> ColumnStep {
    match first_named(fields, f.name) {
        Some(i) => if types[i] == f.data_type {
            ColumnStep::Keep(i as usize)
        } else {
            ColumnStep::Cast(i as usize)
        },
        None => ColumnStep::Nulls,
    }
}

/// Plans how one column of the target comes out of a batch.
pub fn plan_column(fields: &Vec<FieldDef>, types: &Vec<ColumnType>, f: &FieldDef) -> (r: ColumnStep)
    requires
        types@.len() == fields@.len(),
    ensures
        r == column_step(field_views(fields@), types@, f@),
        match r {
            ColumnStep::Keep(i) => is_first_column(field_views(fields@), f.name@, i as int)
                && types@[i as int] == f.data_type,
            ColumnStep::Cast(i) => is_first_column(field_views(fields@), f.name@, i as int)
                && types@[i as int] != f.data_type,
            ColumnStep::Nulls => has_no_column(field_views(fields@), f.name@),
        },
{
    proof {
        first_column_is_found(field_views(fields@), f.name@);
    }
    match position_of(fields, f.name.as_str()) {
        Some(i) => if types[i].same_as(&f.data_type) {
            ColumnStep::Keep(i)
        } else {
            ColumnStep::Cast(i)
        },
        None => ColumnStep::Nulls,
    }
}

/// Plans how the columns of the target come out of a batch: by name, cast where the type
/// differs, and as nulls where the batch lacks them.
pub fn plan_columns(
    fields: &Vec<FieldDef>,
    types: &Vec<ColumnType>,
    target: &Vec<FieldDef>,
) -> (r: Vec<ColumnStep>)
    requires
        types@.len() == fields@.len(),
    ensures
        r@ == field_views(target@).map_values(
            |f: FieldView| column_step(field_views(fields@), types@, f),
        ),
        forall|k: int|
            0 <= k < r@.len() ==> match #[trigger] r@[k] {
                ColumnStep::Keep(i) => i < fields@.len(),
                ColumnStep::Cast(i) => i < fields@.len(),
                ColumnStep::Nulls => true,
            },
{
    let mut steps: Vec<ColumnStep> = Vec::new();
    let mut k: usize = 0;
    while k < target.len()
        invariant
            types@.len() == fields@.len(),
            k <= target@.len(),
            steps@.len() == k,
            forall|l: int|
                0 <= l < k ==> #[trigger] steps@[l] == column_step(
                    field_views(fields@),
                    types@,
                    target@[l]@,
                ) && match steps@[l] {
                    ColumnStep::Keep(i) => i < fields@.len(),
                    ColumnStep::Cast(i) => i < fields@.len(),
                    ColumnStep::Nulls => true,
                },
        decreases target@.len() - k,
    {
        steps.push(plan_column(fields, types, &target[k]));
        k += 1;
    }
    assert(steps@ =~= field_views(target@).map_values(
        |f: FieldView| column_step(field_views(fields@), types@, f),
    ));
    steps
}

/// What comes of the column `f` of the target.
pub open spec fn step_outcome(b: Batch, f: FieldView) -> Result<Column, arrow_schema::ArrowError> {
    match column_step(batch_schema(b).fields, column_types(batch_columns(b)), f) {
        ColumnStep::Keep(i) => Ok(batch_columns(b)[i as int]),
        ColumnStep::Cast(i) => cast_outcome(batch_columns(b)[i as int], f.data_type),
        ColumnStep::Nulls => Ok(null_column(f.data_type, batch_rows(b))),
    }
}

/// Whether `c` holds what the column `f` of the target is to hold: the column of the batch where
/// it is of that type, its integers where they are cast to another integer type, with nulls for
/// those that do not fit, its integers, times, byte strings and texts where they are only held in
/// another way, and nulls where the batch lacks the column. Of other casts the values are not
/// said, but for the nulls of numbers that fit; nor is it said of types whose columns do not mark
/// their nulls that the values are nulls.
pub open spec fn holds_column(b: Batch, f: FieldView, c: Column) -> bool {
    match column_step(batch_schema(b).fields, column_types(batch_columns(b)), f) {
        ColumnStep::Keep(i) => c == batch_columns(b)[i as int],
        ColumnStep::Cast(i) => {
            let from = batch_columns(b)[i as int];
            &&& fits_into(column_type(from), f.data_type) ==> same_nulls(from, c)
            &&& is_integer(column_type(from)) && is_integer(f.data_type) ==> holds_integers(
                from,
                c,
                f.data_type,
            )
            &&& reads_as(column_type(from), f.data_type) ==> holds_same(from, c)
            &&& column_type(from) is Binary && is_text(f.data_type) ==> holds_texts(from, c)
            &&& column_type(from) is Binary ==> holds_fixed(from, c, f.data_type)
        },
        ColumnStep::Nulls => {
            &&& column_type(c) == f.data_type
            &&& column_len(c) == batch_rows(b)
            &&& marks_nulls(shape_of(f.data_type)) ==> column_nulls(c) == batch_rows(b) && all_null(
                c,
            )
        },
    }
}

/// Whether the columns of an adapted batch hold what they are to hold.
pub open spec fn holds_columns(b: Batch, target: Seq<FieldView>, adapted: Batch) -> bool {
    forall|k: int|
        0 <= k < target.len() ==> holds_column(
            b,
            #[trigger] target[k],
            batch_columns(adapted)[k],
        )
}

/// Whether the column `f` of the target is sure to come out: it is taken as it is, cast from
/// number to number, read as days, times, texts or byte strings, or filled with nulls. Values
/// that may not fit are cast only to columns that take nulls, and so are columns filled that do
/// not mark their nulls.
pub open spec fn comes_out(b: Batch, f: FieldView) -> bool {
    match column_step(batch_schema(b).fields, column_types(batch_columns(b)), f) {
        ColumnStep::Keep(_) => true,
        ColumnStep::Cast(i) => {
            let from = column_type(batch_columns(b)[i as int]);
            ||| is_numeric(from) && is_numeric(f.data_type) && (f.nullable || fits_into(
                from,
                f.data_type,
            ))
            ||| reads_as(from, f.data_type)
            ||| from is Binary && is_text(f.data_type) && f.nullable
        },
        ColumnStep::Nulls => marks_nulls(shape_of(f.data_type)) || f.nullable,
    }
}

/// Whether the column `f` of the target takes the nulls that there are.
pub open spec fn takes_nulls(b: Batch, f: FieldView) -> bool {
    f.nullable || match column_step(batch_schema(b).fields, column_types(batch_columns(b)), f) {
        ColumnStep::Keep(i) => column_nulls(batch_columns(b)[i as int]) == 0,
        ColumnStep::Cast(i) => column_nulls(batch_columns(b)[i as int]) == 0,
        ColumnStep::Nulls => batch_rows(b) == 0,
    }
}

/// Whether a batch is sure to be adapted: there are columns in the target, and all of them come
/// out and take the nulls that there are.
pub open spec fn plainly_adapts(b: Batch, target: Seq<FieldView>) -> bool {
    &&& target.len() > 0
    &&& forall|k: int|
        0 <= k < target.len() ==> comes_out(b, #[trigger] target[k]) && takes_nulls(b, target[k])
}

/// Whether `c` can stand in a batch of the given number of rows as the column `f`.
spec fn fits_field(f: FieldView, rows: nat, c: Column) -> bool {
    &&& column_type(c) == f.data_type
    &&& column_len(c) == rows
    &&& f.nullable || column_nulls(c) == 0
}

/// The first error among the columns of the target.
pub open spec fn first_failure(b: Batch, target: Seq<FieldView>) -> Option<arrow_schema::ArrowError>
    decreases target.len(),
{
    if target.len() == 0 {
        None
    } else {
        match first_failure(b, target.drop_last()) {
            Some(e) => Some(e),
            None => match step_outcome(b, target.last()) {
                Ok(_) => None,
                Err(e) => Some(e),
            },
        }
    }
}

/// The columns of the target, where all of them come out.
pub open spec fn adapted_columns(b: Batch, target: Seq<FieldView>) -> Seq<Column> {
    target.map_values(|f: FieldView| step_outcome(b, f)->Ok_0)
}

/// Whether what the column `f` of the target needs can be done: nulls of its type can be made
/// where it is cast or filled, and what is cast is within the bounds of the type.
pub open spec fn is_feasible(b: Batch, f: FieldView) -> bool {
    match column_step(batch_schema(b).fields, column_types(batch_columns(b)), f) {
        ColumnStep::Keep(_) => true,
        ColumnStep::Cast(i) => nulls_fit(shape_of(f.data_type), batch_rows(b)) && cast_fits(
            batch_columns(b)[i as int],
            f.data_type,
        ),
        ColumnStep::Nulls => nulls_fit(shape_of(f.data_type), batch_rows(b)),
    }
}

/// Whether a batch has the columns of the target already, or what they need can be done.
pub open spec fn is_adaptable(b: Batch, target: Seq<FieldView>) -> bool {
    batch_schema(b).fields == target || forall|k: int|
        0 <= k < target.len() ==> is_feasible(b, #[trigger] target[k])
}

/// Whether `r` is what comes of adapting a batch to a schema: the batch itself where its fields
/// are those of the schema; else a batch of that schema with the columns of the target, or the
/// error of the first column that cannot be cast, or of columns that make no batch.
pub open spec fn is_adaptation(b: Batch, target: SchemaView, r: Result<Batch, CoreError>) -> bool {
    if batch_schema(b).fields == target.fields {
        r == Ok::<_, CoreError>(b)
    } else {
        match first_failure(b, target.fields) {
            Some(e) => r == Err::<Batch, _>(CoreError::ArrowError(e)),
            None => {
                let columns = adapted_columns(b, target.fields);
                match r {
                    Ok(a) => {
                        &&& is_batch_of(target.fields, columns)
                        &&& batch_schema(a) == target
                        &&& batch_columns(a) == columns
                        &&& batch_rows(a) == column_len(columns[0])
                    },
                    Err(e) => !is_batch_of(target.fields, columns) && e is ArrowError,
                }
            },
        }
    }
}

/// Whether `r` is what comes of adapting a batch to a schema, and holds what it is to hold. It is
/// a batch where that is sure.
pub open spec fn is_adapted(b: Batch, target: SchemaView, r: Result<Batch, CoreError>) -> bool {
    &&& is_adaptation(b, target, r)
    &&& plainly_adapts(b, target.fields) ==> r is Ok
    &&& r matches Ok(a) ==> batch_schema(b).fields == target.fields || holds_columns(
        b,
        target.fields,
        a,
    )
}

proof fn failure_stays(b: Batch, target: Seq<FieldView>, n: int)
    requires
        0 <= n <= target.len(),
        first_failure(b, target.take(n)) is Some,
    ensures
        first_failure(b, target) == first_failure(b, target.take(n)),
    decreases target.len() - n,
{
    if n == target.len() {
        assert(target.take(n) =~= target);
    } else {
        assert(target.take(n + 1).drop_last() =~= target.take(n));
        failure_stays(b, target, n + 1);
    }
}

fn types_of(b: &Batch, n: usize) -> (r: Vec<ColumnType>)
    requires
        n == batch_columns(*b).len(),
    ensures
        r@ == column_types(batch_columns(*b)),
{
    let mut types: Vec<ColumnType> = Vec::new();
    let mut i: usize = 0;
    while i < n
        invariant
            n == batch_columns(*b).len(),
            i <= n,
            types@.len() == i,
            forall|k: int|
                0 <= k < i ==> #[trigger] types@[k] == column_type(batch_columns(*b)[k]),
        decreases n - i,
    {
        types.push(type_of(&column_at(b, i)));
        i += 1;
    }
    assert(types@ =~= column_types(batch_columns(*b)));
    types
}

/// Whether an adapted batch says of dictionaries what the schema says; one that stays as it is
/// says what it said.
pub open spec fn keeps_notes(b: Batch, target: SchemaDef, r: Result<Batch, CoreError>) -> bool {
    r matches Ok(adapted) ==> batch_notes(adapted) == if batch_schema(b).fields == target@.fields {
        batch_notes(b)
    } else {
        told_notes(target@.fields, field_notes(target.fields@))
    }
}

/// Adapts a batch to a schema: picks the columns of the schema by name, casts those whose type
/// differs, and fills those that the batch lacks with nulls. Other columns of the batch are
/// dropped. A batch whose fields are those of the schema stays as it is.
pub fn adapt_batch_to_schema(batch: &Batch, target: &SchemaDef) -> (r: Result<Batch, CoreError>)
    requires
        is_adaptable(*batch, target@.fields),
    ensures
        is_adapted(*batch, target@, r),
        keeps_notes(*batch, *target, r),
{
    let own: SchemaDef = schema_of(batch);
    if same_fields(&own.fields, &target.fields) {
        return Ok(clone_batch(batch));
    }
    let ghost fields = target@.fields;
    let types: Vec<ColumnType> = types_of(batch, own.fields.len());
    let steps: Vec<ColumnStep> = plan_columns(&own.fields, &types, &target.fields);
    let rows: usize = count_rows(batch);
    let mut columns: Vec<Column> = Vec::new();
    let mut k: usize = 0;
    assert(fields.take(0) =~= Seq::empty());
    while k < target.fields.len()
        invariant
            fields == target@.fields,
            fields.len() == target.fields@.len(),
            field_views(own.fields@) == batch_schema(*batch).fields,
            own.fields@.len() == batch_columns(*batch).len(),
            types@ == column_types(batch_columns(*batch)),
            batch_schema(*batch).fields != fields,
            is_adaptable(*batch, fields),
            rows == batch_rows(*batch),
            steps@ == fields.map_values(
                |f: FieldView| column_step(field_views(own.fields@), types@, f),
            ),
            forall|l: int|
                0 <= l < steps@.len() ==> match #[trigger] steps@[l] {
                    ColumnStep::Keep(i) => i < own.fields@.len(),
                    ColumnStep::Cast(i) => i < own.fields@.len(),
                    ColumnStep::Nulls => true,
                },
            k <= target.fields@.len(),
            columns@.len() == k,
            first_failure(*batch, fields.take(k as int)) is None,
            forall|l: int|
                0 <= l < k ==> step_outcome(*batch, #[trigger] fields[l]) == Ok::<
                    _,
                    arrow_schema::ArrowError,
                >(columns@[l]) && holds_column(*batch, fields[l], columns@[l]),
            plainly_adapts(*batch, fields) ==> forall|l: int|
                0 <= l < k ==> fits_field(
                    #[trigger] fields[l],
                    batch_rows(*batch),
                    columns@[l],
                ),
        decreases target.fields@.len() - k,
    {
        let ghost f = fields[k as int];
        proof {
            assert(fields.take(k + 1).drop_last() =~= fields.take(k as int));
            assert(fields.take(k + 1).last() == f);
            assert(target.fields@[k as int]@ == f);
        }
        let step: ColumnStep = steps[k];
        assert(step == column_step(field_views(own.fields@), types@, f));
        let outcome: Result<Column, arrow_schema::ArrowError> = match step {
            ColumnStep::Keep(i) => Ok(column_at(batch, i)),
            ColumnStep::Cast(i) => cast_column(
                &column_at(batch, i),
                &target.fields[k].data_type.to_arrow(),
            ),
            ColumnStep::Nulls => Ok(make_nulls(&target.fields[k].data_type.to_arrow(), rows)),
        };
        assert(outcome == step_outcome(*batch, f));
        assert(plainly_adapts(*batch, fields) ==> outcome is Ok && fits_field(
            f,
            batch_rows(*batch),
            outcome->Ok_0,
        )) by {
            first_named_bounds(field_views(own.fields@), f.name);
            if let Some(i) = first_named(field_views(own.fields@), f.name) {
                assert(i < own.fields.len());
                assert(types@[i] == column_type(batch_columns(*batch)[i]));
            }
        }
        match outcome {
            Ok(c) => {
                columns.push(c);
            },
            Err(e) => {
                proof {
                    failure_stays(*batch, fields, k + 1);
                }
                return Err(CoreError::ArrowError(e));
            },
        }
        k += 1;
    }
    assert(fields.take(k as int) =~= fields);
    assert(columns@ =~= adapted_columns(*batch, fields));
    match build_batch(to_arrow_schema(target), columns) {
        Ok(b) => Ok(b),
        Err(e) => Err(CoreError::ArrowError(e)),
    }
}

/// As [`adapt_batch_to_schema`], for any batch and schema; `None` where a column would have to be
/// cast to, or filled with nulls of, a type that nulls cannot be made of, or would run over the
/// bounds of the type it has to be cast to.
pub fn adapt_batch_if_sound(batch: &Batch, target: &SchemaDef) -> (r: Option<
    Result<Batch, CoreError>,
>)
    ensures
        match r {
            Some(adapted) => is_adapted(*batch, target@, adapted) && keeps_notes(
                *batch,
                *target,
                adapted,
            ),
            None => !is_adaptable(*batch, target@.fields),
        },
{
    let own: SchemaDef = schema_of(batch);
    if same_fields(&own.fields, &target.fields) {
        return Some(Ok(clone_batch(batch)));
    }
    let ghost fields = target@.fields;
    let types: Vec<ColumnType> = types_of(batch, own.fields.len());
    let rows: usize = count_rows(batch);
    let mut k: usize = 0;
    while k < target.fields.len()
        invariant
            fields == target@.fields,
            fields.len() == target.fields@.len(),
            field_views(own.fields@) == batch_schema(*batch).fields,
            own.fields@.len() == types@.len(),
            types@ == column_types(batch_columns(*batch)),
            batch_schema(*batch).fields != fields,
            rows == batch_rows(*batch),
            k <= target.fields@.len(),
            own.fields@.len() == batch_columns(*batch).len(),
            forall|l: int| 0 <= l < k ==> is_feasible(*batch, #[trigger] fields[l]),
        decreases target.fields@.len() - k,
    {
        assert(target.fields@[k as int]@ == fields[k as int]);
        let to: &ColumnType = &target.fields[k].data_type;
        let feasible: bool = match plan_column(&own.fields, &types, &target.fields[k]) {
            ColumnStep::Keep(_) => true,
            ColumnStep::Cast(i) => can_hold_nulls(to, rows) && can_cast(&column_at(batch, i), to),
            ColumnStep::Nulls => can_hold_nulls(to, rows),
        };
        assert(feasible == is_feasible(*batch, fields[k as int]));
        if !feasible {
            return None;
        }
        k += 1;
    }
    Some(adapt_batch_to_schema(batch, target))
}

/// Adapting a batch a second time to the same schema changes nothing.
pub proof fn adaptation_is_idempotent(
    b: Batch,
    target: SchemaView,
    once: Batch,
    twice: Result<Batch, CoreError>,
)
    requires
        is_adaptation(b, target, Ok(once)),
        is_adaptation(once, target, twice),
    ensures
        twice == Ok::<_, CoreError>(once),
{
}

/// An adapted batch has the fields of the schema, and only a batch that had them already keeps
/// metadata other than that of the schema.
pub proof fn adapted_batch_has_target_fields(b: Batch, target: SchemaView, adapted: Batch)
    requires
        is_adaptation(b, target, Ok(adapted)),
    ensures
        batch_schema(adapted).fields == target.fields,
        batch_schema(b).fields != target.fields ==> batch_schema(adapted) == target,
{
}

/// A column that the batch has in the type of the target comes out as it is, wherever it stands.
pub proof fn kept_columns_are_unchanged(
    b: Batch,
    target: SchemaView,
    adapted: Batch,
    k: int,
    i: int,
)
    requires
        is_adaptation(b, target, Ok(adapted)),
        batch_schema(b).fields != target.fields,
        0 <= k < target.fields.len(),
        first_named(batch_schema(b).fields, target.fields[k].name) == Some(i),
        0 <= i <= usize::MAX,
        i < batch_columns(b).len(),
        column_type(batch_columns(b)[i]) == target.fields[k].data_type,
    ensures
        batch_columns(adapted)[k] == batch_columns(b)[i],
{
}

/// A column that the batch lacks comes out as nulls.
pub proof fn lacking_columns_are_null(b: Batch, target: SchemaView, adapted: Batch, k: int)
    requires
        is_adaptation(b, target, Ok(adapted)),
        batch_schema(b).fields != target.fields,
        0 <= k < target.fields.len(),
        first_named(batch_schema(b).fields, target.fields[k].name) is None,
    ensures
        batch_columns(adapted)[k] == null_column(target.fields[k].data_type, batch_rows(b)),
{
}

/// An integer that the type of the target holds comes out as it was, and no null.
pub proof fn integers_keep_their_values(
    b: Batch,
    target: SchemaView,
    adapted: Batch,
    k: int,
    i: int,
    row: nat,
)
    requires
        is_adapted(b, target, Ok(adapted)),
        batch_schema(b).fields != target.fields,
        0 <= k < target.fields.len(),
        first_named(batch_schema(b).fields, target.fields[k].name) == Some(i),
        0 <= i <= usize::MAX,
        i < batch_columns(b).len(),
        is_integer(column_type(batch_columns(b)[i])),
        is_integer(target.fields[k].data_type),
        row < column_len(batch_columns(b)[i]),
        !null_at(batch_columns(b)[i], row),
        holds_integer(target.fields[k].data_type, integer_at(batch_columns(b)[i], row)),
    ensures
        !null_at(batch_columns(adapted)[k], row),
        integer_at(batch_columns(adapted)[k], row) == integer_at(batch_columns(b)[i], row),
{
    assert(holds_column(b, target.fields[k], batch_columns(adapted)[k]));
    assert(!null_at(batch_columns(adapted)[k], row));
}

/// The first column with a name is the one that is found; without such a column none is.
pub proof fn first_column_is_found(fields: Seq<FieldView>, name: Seq<char>)
    ensures
        forall|i: int| #[trigger]
            is_first_column(fields, name, i) <==> first_named(fields, name) == Some(i),
        has_no_column(fields, name) <==> first_named(fields, name) is None,
{
    first_named_bounds(fields, name);
    assert forall|i: int| #[trigger]
        is_first_column(fields, name, i) implies first_named(fields, name) == Some(i) by {
        first_named_is_first(fields, name, i);
    }
    if has_no_column(fields, name) {
        first_named_nowhere(fields, name);
    }
}

/// Whether `outcome` is what becomes of the columns of a batch for the column `f` of a target: the
/// first column of that name itself, where it is of the type of the target, else what it is cast
/// to; nulls where the batch has no column of that name.
pub open spec fn is_outcome(
    b: Batch,
    f: FieldView,
    outcome: Result<Column, arrow_schema::ArrowError>,
) -> bool {
    &&& forall|i: int| #[trigger]
        is_first_column(batch_schema(b).fields, f.name, i) ==> if column_type(batch_columns(b)[i])
            == f.data_type {
            outcome == Ok::<Column, arrow_schema::ArrowError>(batch_columns(b)[i])
        } else {
            outcome == cast_outcome(batch_columns(b)[i], f.data_type)
        }
    &&& has_no_column(batch_schema(b).fields, f.name) ==> outcome == Ok::<
        Column,
        arrow_schema::ArrowError,
    >(null_column(f.data_type, batch_rows(b)))
}

proof fn outcome_is_of_step(b: Batch, f: FieldView)
    requires
        batch_columns(b).len() == batch_schema(b).fields.len(),
        batch_schema(b).fields.len() <= usize::MAX,
    ensures
        is_outcome(b, f, step_outcome(b, f)),
        forall|outcome: Result<Column, arrow_schema::ArrowError>| #[trigger]
            is_outcome(b, f, outcome) ==> outcome == step_outcome(b, f),
{
    let fields = batch_schema(b).fields;
    first_column_is_found(fields, f.name);
    if let Some(i) = first_named(fields, f.name) {
        assert(is_first_column(fields, f.name, i));
        assert(column_types(batch_columns(b))[i] == column_type(batch_columns(b)[i]));
    } else {
        assert(has_no_column(fields, f.name));
    }
}

/// Where the fields of a batch are not those of the target, each column of the adapted batch is
/// found by its name, whatever the types are: it is the first column of the batch with that name
/// itself, where this has the type of the target, and else what that column is cast to. Only where
/// the batch has no column of that name is it one of nulls.
pub proof fn columns_are_found_by_name(b: Batch, target: SchemaView, adapted: Batch, k: int)
    requires
        is_adaptation(b, target, Ok(adapted)),
        batch_schema(b).fields != target.fields,
        batch_columns(b).len() == batch_schema(b).fields.len(),
        batch_schema(b).fields.len() <= usize::MAX,
        0 <= k < target.fields.len(),
    ensures
        batch_columns(adapted).len() == target.fields.len(),
        forall|i: int| #[trigger]
            is_first_column(batch_schema(b).fields, target.fields[k].name, i) && column_type(
                batch_columns(b)[i],
            ) == target.fields[k].data_type ==> batch_columns(adapted)[k] == batch_columns(b)[i],
        forall|i: int| #[trigger]
            is_first_column(batch_schema(b).fields, target.fields[k].name, i) && column_type(
                batch_columns(b)[i],
            ) != target.fields[k].data_type ==> cast_outcome(
                batch_columns(b)[i],
                target.fields[k].data_type,
            ) == Ok::<Column, arrow_schema::ArrowError>(batch_columns(adapted)[k]),
        has_no_column(batch_schema(b).fields, target.fields[k].name) ==> batch_columns(adapted)[k]
            == null_column(target.fields[k].data_type, batch_rows(b)),
{
    let f = target.fields[k];
    outcome_is_of_step(b, f);
    no_failure_at(b, target.fields, k);
    assert(adapted_columns(b, target.fields)[k] == step_outcome(b, f)->Ok_0);
}

proof fn no_failure_at(b: Batch, target: Seq<FieldView>, k: int)
    requires
        first_failure(b, target) is None,
        0 <= k < target.len(),
    ensures
        step_outcome(b, target[k]) is Ok,
    decreases target.len(),
{
    if k < target.len() - 1 {
        no_failure_at(b, target.drop_last(), k);
    }
}

/// Where the fields of a batch are not those of the target, the error is that of the first column
/// of the target that a column of the batch cannot be cast to.
pub proof fn first_failed_cast_is_the_error(
    b: Batch,
    target: SchemaView,
    r: Result<Batch, CoreError>,
    outcomes: Seq<Result<Column, arrow_schema::ArrowError>>,
    k: int,
)
    requires
        is_adaptation(b, target, r),
        batch_schema(b).fields != target.fields,
        batch_columns(b).len() == batch_schema(b).fields.len(),
        batch_schema(b).fields.len() <= usize::MAX,
        0 <= k < target.fields.len(),
        outcomes.len() == target.fields.len(),
        forall|l: int|
            0 <= l < outcomes.len() ==> is_outcome(b, target.fields[l], #[trigger] outcomes[l]),
        forall|l: int| 0 <= l < k ==> (#[trigger] outcomes[l]) is Ok,
        outcomes[k] is Err,
    ensures
        r == Err::<Batch, CoreError>(CoreError::ArrowError(outcomes[k]->Err_0)),
{
    let fields = target.fields;
    assert forall|l: int| 0 <= l <= k implies outcomes[l] == step_outcome(b, #[trigger] fields[l]) by {
        outcome_is_of_step(b, fields[l]);
    }
    no_failure_before(b, fields, outcomes, k);
    assert(fields.take(k + 1).drop_last() =~= fields.take(k));
    assert(fields.take(k + 1).last() == fields[k]);
    failure_stays(b, fields, k + 1);
}

proof fn no_failure_before(
    b: Batch,
    fields: Seq<FieldView>,
    outcomes: Seq<Result<Column, arrow_schema::ArrowError>>,
    k: int,
)
    requires
        0 <= k <= fields.len(),
        outcomes.len() == fields.len(),
        forall|l: int|
            0 <= l < k ==> outcomes[l] == step_outcome(b, #[trigger] fields[l]) && outcomes[l] is Ok,
    ensures
        first_failure(b, fields.take(k)) is None,
    decreases k,
{
    if k > 0 {
        no_failure_before(b, fields, outcomes, k - 1);
        assert(fields.take(k).drop_last() =~= fields.take(k - 1));
        assert(fields.take(k).last() == fields[k - 1]);
    }
}

/// Where the fields of a batch are not those of the target and all columns come out, there is an
/// adapted batch if and only if the target has columns, they came out in the types of the target
/// and of the same length, and only nullable ones hold nulls. It then has these columns and the
/// schema of the target.
pub proof fn columns_make_the_batch(
    b: Batch,
    target: SchemaView,
    r: Result<Batch, CoreError>,
    columns: Seq<Column>,
)
    requires
        is_adaptation(b, target, r),
        batch_schema(b).fields != target.fields,
        batch_columns(b).len() == batch_schema(b).fields.len(),
        batch_schema(b).fields.len() <= usize::MAX,
        columns.len() == target.fields.len(),
        forall|l: int|
            0 <= l < columns.len() ==> is_outcome(b, target.fields[l], Ok(#[trigger] columns[l])),
    ensures
        r is Ok <==> columns.len() > 0 && forall|l: int|
            0 <= l < columns.len() ==> column_type(#[trigger] columns[l])
                == target.fields[l].data_type && column_len(columns[l]) == column_len(columns[0])
                && (column_nulls(columns[l]) == 0 || target.fields[l].nullable),
        r matches Ok(a) ==> batch_columns(a) == columns && batch_schema(a) == target && batch_rows(
            a,
        ) == column_len(columns[0]),
        r matches Err(e) ==> e is ArrowError,
{
    let fields = target.fields;
    let outcomes = columns.map_values(
        |c: Column| Ok::<Column, arrow_schema::ArrowError>(c),
    );
    assert forall|l: int| 0 <= l < fields.len() implies outcomes[l] == step_outcome(
        b,
        #[trigger] fields[l],
    ) && outcomes[l] is Ok by {
        assert(is_outcome(b, fields[l], Ok(columns[l])));
        outcome_is_of_step(b, fields[l]);
    }
    no_failure_before(b, fields, outcomes, fields.len() as int);
    assert(fields.take(fields.len() as int) =~= fields);
    assert(adapted_columns(b, fields) =~= columns);
}

/// A batch with the fields of the target stays as it is.
pub proof fn adapted_batch_is_kept(b: Batch, target: SchemaView, r: Result<Batch, CoreError>)
    requires
        is_adaptation(b, target, r),
        batch_schema(b).fields == target.fields,
    ensures
        r == Ok::<Batch, CoreError>(b),
{
}

/// A batch can be adapted unless a column of the target that it has under the same name is of
/// another type and cannot be cast within bounds, or nulls cannot be made of the type of one that
/// is cast or that it lacks. A column that it has in the type of the target is no obstacle.
pub proof fn only_casts_and_nulls_stand_in_the_way(b: Batch, target: Seq<FieldView>)
    requires
        batch_schema(b).fields != target,
        batch_columns(b).len() == batch_schema(b).fields.len(),
        batch_schema(b).fields.len() <= usize::MAX,
    ensures
        is_adaptable(b, target) <==> forall|k: int, i: int|
            #![trigger is_first_column(batch_schema(b).fields, target[k].name, i)]
            0 <= k < target.len() ==> {
                &&& is_first_column(batch_schema(b).fields, target[k].name, i) && column_type(
                    batch_columns(b)[i],
                ) != target[k].data_type ==> nulls_fit(
                    shape_of(target[k].data_type),
                    batch_rows(b),
                ) && cast_fits(batch_columns(b)[i], target[k].data_type)
                &&& has_no_column(batch_schema(b).fields, target[k].name) ==> nulls_fit(
                    shape_of(target[k].data_type),
                    batch_rows(b),
                )
            },
{
    let own = batch_schema(b).fields;
    assert forall|k: int, i: int|
        #![trigger is_first_column(own, target[k].name, i)]
        0 <= k < target.len() && is_adaptable(b, target) implies {
        &&& is_first_column(own, target[k].name, i) && column_type(batch_columns(b)[i])
            != target[k].data_type ==> nulls_fit(shape_of(target[k].data_type), batch_rows(b))
            && cast_fits(batch_columns(b)[i], target[k].data_type)
        &&& has_no_column(own, target[k].name) ==> nulls_fit(
            shape_of(target[k].data_type),
            batch_rows(b),
        )
    } by {
        assert(is_feasible(b, target[k]));
        first_column_is_found(own, target[k].name);
        if is_first_column(own, target[k].name, i) {
            assert(column_types(batch_columns(b))[i] == column_type(batch_columns(b)[i]));
        }
    }
    if !is_adaptable(b, target) {
        let k = choose|k: int| 0 <= k < target.len() && !is_feasible(b, #[trigger] target[k]);
        first_column_is_found(own, target[k].name);
        let i: int = match first_named(own, target[k].name) {
            Some(i) => i,
            None => 0,
        };
        assert(is_first_column(own, target[k].name, i) || has_no_column(own, target[k].name));
        if is_first_column(own, target[k].name, i) {
            assert(column_types(batch_columns(b))[i] == column_type(batch_columns(b)[i]));
        }
    }
}

/// Of several names, the first that no column has is the missing one, and none is missing if and
/// only if there is a column for each.
pub proof fn first_name_without_a_column_is_missing(
    fields: Seq<FieldView>,
    names: Seq<Seq<char>>,
    n: int,
)
    ensures
        0 <= n < names.len() && has_no_column(fields, names[n]) && (forall|l: int|
            0 <= l < n ==> !has_no_column(fields, #[trigger] names[l])) ==> first_missing(
            fields,
            names,
        ) == Some(names[n]),
        first_missing(fields, names) is None <==> forall|l: int|
            0 <= l < names.len() ==> !has_no_column(fields, #[trigger] names[l]),
    decreases names.len(),
{
    if names.len() > 0 {
        let shorter = names.drop_last();
        first_name_without_a_column_is_missing(fields, shorter, n);
        first_column_is_found(fields, names.last());
        assert(names[names.len() - 1] == names.last());
        assert forall|l: int| 0 <= l < shorter.len() implies #[trigger] shorter[l] == names[l] by {}
        if forall|l: int| 0 <= l < names.len() ==> !has_no_column(fields, #[trigger] names[l]) {
            assert forall|l: int| 0 <= l < shorter.len() implies !has_no_column(
                fields,
                #[trigger] shorter[l],
            ) by {
                assert(shorter[l] == names[l]);
            }
        }
        if first_missing(fields, names) is None {
            assert forall|l: int| 0 <= l < names.len() implies !has_no_column(
                fields,
                #[trigger] names[l],
            ) by {
                if l < shorter.len() {
                    assert(shorter[l] == names[l]);
                }
            }
        }
        if 0 <= n < shorter.len() {
            assert(shorter[n] == names[n]);
        }
    }
}

/// A projection has as many columns as names, in their order: each is the first column that has
/// the name, with its field. The same column can come more than once.
pub proof fn projection_goes_by_name(
    fields: Seq<FieldView>,
    columns: Seq<Column>,
    names: Seq<Seq<char>>,
    n: int,
    i: int,
)
    requires
        columns.len() == fields.len(),
        fields.len() <= usize::MAX,
        0 <= n < names.len(),
        is_first_column(fields, names[n], i),
    ensures
        picked_columns(columns, positions(fields, names)).len() == names.len(),
        picked_fields(fields, positions(fields, names)).len() == names.len(),
        picked_columns(columns, positions(fields, names))[n] == columns[i],
        picked_fields(fields, positions(fields, names))[n] == fields[i],
        named_types(fields, names).len() == names.len(),
        named_types(fields, names)[n] == fields[i].data_type,
{
    first_column_is_found(fields, names[n]);
}

/// The messages about a column name it.
pub proof fn messages_name_the_column(name: Seq<char>)
    ensures
        has_substring(not_found(name), name),
        has_substring(not_text(name), name),
{
    let a = "Column "@;
    let n = a.len() as int;
    assert(not_found(name).subrange(n, n + name.len()) =~= name);
    assert(not_text(name).subrange(n, n + name.len()) =~= name);
}

/// Values of a column come in one order: of two that are no nulls and not the same, one comes
/// before the other, and nulls come before all others.
pub proof fn cells_are_ordered(c: Column, i: nat, j: nat)
    requires
        is_readable(c),
    ensures
        null_at(c, i) && !null_at(c, j) ==> cell_less(c, i, j) && !cell_less(c, j, i),
        null_at(c, i) && null_at(c, j) ==> cell_same(c, i, j),
        cell_less(c, i, j) ==> !cell_less(c, j, i) && !cell_same(c, i, j),
        cell_less(c, i, j) || cell_less(c, j, i) || cell_same(c, i, j),
        !null_at(c, i) && !null_at(c, j) && is_integer(column_type(c)) ==> (cell_less(c, i, j)
            <==> integer_at(c, i) < integer_at(c, j)),
        !null_at(c, i) && !null_at(c, j) && column_type(c) is Boolean ==> (cell_less(c, i, j)
            <==> !boolean_at(c, i) && boolean_at(c, j)),
        !null_at(c, i) && !null_at(c, j) && is_text(column_type(c)) ==> (cell_less(c, i, j)
            <==> text_less(text_at(c, i), text_at(c, j))),
{
    if is_text(column_type(c)) {
        let x = encode_utf8(text_at(c, i));
        let y = encode_utf8(text_at(c, j));
        bytes_less_total(x, y);
        bytes_less_irreflexive(x);
        if bytes_less(x, y) {
            bytes_less_asymmetric(x, y);
        }
        if x == y {
            same_encoding(text_at(c, i), text_at(c, j));
        }
    } else if holds_bytes(column_type(c)) {
        let x = bytes_at(c, i);
        let y = bytes_at(c, j);
        bytes_less_total(x, y);
        bytes_less_irreflexive(x);
        if bytes_less(x, y) {
            bytes_less_asymmetric(x, y);
        }
    }
}

/// Rows that are sorted by one column of integers without nulls ascend or, with `desc`, descend,
/// and rows with the same integer keep their order.
pub proof fn integers_are_sorted(
    c: Column,
    desc: bool,
    indices: Seq<u32>,
    i: int,
    j: int,
)
    requires
        are_sorted_indices(seq![c], desc, indices),
        compare_alike(encoded_rows(seq![c])->0, seq![c]),
        encoded_rows(seq![c])->0.len() <= u32::MAX,
        is_integer(column_type(c)),
        0 <= i < j < indices.len(),
        !null_at(c, indices[i] as nat),
        !null_at(c, indices[j] as nat),
    ensures
        !desc ==> integer_at(c, indices[i] as nat) <= integer_at(c, indices[j] as nat),
        desc ==> integer_at(c, indices[i] as nat) >= integer_at(c, indices[j] as nat),
        integer_at(c, indices[i] as nat) == integer_at(c, indices[j] as nat) ==> indices[i]
            < indices[j],
{
    let columns = seq![c];
    sorted_by_columns(columns, desc, indices);
    let x = indices[i] as nat;
    let y = indices[j] as nat;
    assert(sorted_before(columns, desc, x, y));
    assert(columns[0] == c);
    if row_less(columns, x, y) {
        let k = choose|k: int| differs_at(columns, k, x, y);
        assert(k == 0);
    }
    if row_less(columns, y, x) {
        let k = choose|k: int| differs_at(columns, k, y, x);
        assert(k == 0);
    }
    if rows_agree(columns, 1, x, y) {
        assert(cell_same(columns[0], x, y));
    }
}

/// An adapted batch says of the dictionary of a column what the target says of it, and nothing of
/// a column without a dictionary.
pub proof fn adapted_notes_are_of_the_target(
    b: Batch,
    target: SchemaDef,
    adapted: Batch,
    k: int,
)
    requires
        keeps_notes(b, target, Ok(adapted)),
        batch_schema(b).fields != target@.fields,
        0 <= k < target.fields@.len(),
    ensures
        batch_notes(adapted).len() == target.fields@.len(),
        batch_notes(adapted)[k] == if shape_of(target.fields@[k].data_type) is Coded {
            target.fields@[k].dictionary
        } else {
            DictionaryNote { id: 0, is_ordered: false }
        },
{
}

/// An encoder is made for the types of the first columns with the names, in their order. A name
/// that no column has is the error, the first one where there are several.
pub proof fn encoder_goes_by_name(
    fields: Seq<FieldView>,
    names: Seq<Seq<char>>,
    r: Result<arrow_row::RowConverter, CoreError>,
    n: int,
    i: int,
)
    requires
        is_converter_for(fields, names, r),
        0 <= n < names.len(),
    ensures
        has_no_column(fields, names[n]) && (forall|l: int|
            0 <= l < n ==> !has_no_column(fields, #[trigger] names[l])) ==> (r matches Err(
            CoreError::Schema(m),
        ) && has_substring(m@, names[n])),
        r matches Ok(c) ==> converter_types(c).len() == names.len() && !has_no_column(
            fields,
            names[n],
        ),
        r is Ok && is_first_column(fields, names[n], i) ==> converter_types(r->Ok_0)[n]
            == fields[i].data_type,
        (forall|l: int| 0 <= l < names.len() ==> !has_no_column(fields, #[trigger] names[l])) && (
        forall|l: int| 0 <= l < fields.len() ==> is_flat((#[trigger] fields[l]).data_type)) ==> r
            is Ok,
{
    first_name_without_a_column_is_missing(fields, names, n);
    first_column_is_found(fields, names[n]);
    messages_name_the_column(names[n]);
    if (forall|l: int| 0 <= l < names.len() ==> !has_no_column(fields, #[trigger] names[l])) && (
    forall|l: int| 0 <= l < fields.len() ==> is_flat((#[trigger] fields[l]).data_type)) {
        let types = named_types(fields, names);
        assert forall|l: int| 0 <= l < types.len() implies is_flat(#[trigger] types[l]) by {
            assert(!has_no_column(fields, names[l]));
            first_column_is_found(fields, names[l]);
            let at = first_named(fields, names[l])->0;
            assert(is_first_column(fields, names[l], at));
            assert(types[l] == fields[at].data_type);
        }
    }
}

/// A batch is sure to be adapted where every column of the target is in the batch in its type, or
/// as another number, or is lacking, and every column that can come to hold nulls is nullable.
pub proof fn nullable_numbers_are_adapted(b: Batch, target: SchemaView, r: Result<Batch, CoreError>)
    requires
        is_adapted(b, target, r),
        is_whole(b),
        batch_schema(b).fields.len() <= usize::MAX,
        target.fields.len() > 0,
        forall|k: int, i: int|
            #![trigger is_first_column(batch_schema(b).fields, target.fields[k].name, i)]
            0 <= k < target.fields.len() && is_first_column(
                batch_schema(b).fields,
                target.fields[k].name,
                i,
            ) ==> {
                let from = column_type(batch_columns(b)[i]);
                let to = target.fields[k];
                ||| from == to.data_type && (to.nullable || !batch_schema(b).fields[i].nullable)
                ||| is_numeric(from) && is_numeric(to.data_type) && to.nullable
            },
        forall|k: int|
            0 <= k < target.fields.len() && has_no_column(
                batch_schema(b).fields,
                (#[trigger] target.fields[k]).name,
            ) ==> target.fields[k].nullable,
    ensures
        r is Ok,
{
    let own = batch_schema(b).fields;
    let fields = target.fields;
    assert forall|k: int| 0 <= k < fields.len() implies comes_out(b, #[trigger] fields[k])
        && takes_nulls(b, fields[k]) by {
        first_column_is_found(own, fields[k].name);
        match first_named(own, fields[k].name) {
            Some(i) => {
                assert(is_first_column(own, fields[k].name, i));
                assert(column_types(batch_columns(b))[i] == column_type(batch_columns(b)[i]));
                assert(own[i].nullable || column_nulls(batch_columns(b)[i]) == 0);
            },
            None => {
                assert(has_no_column(own, fields[k].name));
            },
        }
    }
    assert(plainly_adapts(b, fields));
}

} // verus!
