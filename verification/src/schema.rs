//! Schemas by name, type and nullability, and their reconciliation for schema-on-read.

use arrow_schema::DataType;
use vstd::prelude::*;
use vstd::std_specs::cmp::PartialEqSpecImpl;
use crate::text::same_text;

verus! {

/// An Arrow data type.
#[verifier::external_type_specification]
#[verifier::external_body]
pub struct ExArrowDataType(arrow_schema::DataType);

/// The key-value metadata of an Arrow field or schema.
#[verifier::external_type_specification]
#[verifier::external_body]
pub struct ExMetadata(arrow_schema::Metadata);

/// What an Arrow metadata map holds.
pub uninterp spec fn metadata_entries(m: arrow_schema::Metadata) -> Map<Seq<char>, Seq<char>>;

/// A metadata map without entries.
pub open spec fn no_metadata() -> Map<Seq<char>, Seq<char>> {
    Map::empty()
}

/// `Metadata::new` makes an empty map.
pub assume_specification[ arrow_schema::Metadata::new ]() -> (r: arrow_schema::Metadata)
    ensures
        metadata_entries(r) == no_metadata(),
;

/// `Metadata` derives `Clone`: the clone holds the same entries.
pub assume_specification[ <arrow_schema::Metadata as Clone>::clone ](
    m: &arrow_schema::Metadata,
) -> (r: arrow_schema::Metadata)
    ensures
        metadata_entries(r) == metadata_entries(*m),
;

/// `Metadata` derives `PartialEq`: two maps are equal if they hold the same entries.
pub assume_specification[ <arrow_schema::Metadata as PartialEq>::eq ](
    a: &arrow_schema::Metadata,
    b: &arrow_schema::Metadata,
) -> (r: bool)
    ensures
        r == (metadata_entries(*a) == metadata_entries(*b)),
;

/// The library's own account of an Arrow data type.
pub uninterp spec fn type_model(t: arrow_schema::DataType) -> ColumnType;

/// The library's own account of an Arrow data type that is no number.
pub uninterp spec fn other_model(t: arrow_schema::DataType) -> ColumnType;

/// An Arrow data type that has no variant of its own in [`ColumnType`].
#[derive(Debug, PartialEq, Eq)]
pub struct ArrowType {
    inner: arrow_schema::DataType,
}

impl ArrowType {
    #[verifier::type_invariant]
    spec fn has_no_variant(self) -> bool {
        type_model(self.inner) == ColumnType::Other(self)
    }
}

/// A column type: the numeric types, decimals, booleans, text and bytes by name, any other as
/// Arrow has it.
#[derive(Debug, PartialEq, Eq)]
pub enum ColumnType {
    Boolean,
    Int8,
    Int16,
    Int32,
    Int64,
    UInt8,
    UInt16,
    UInt32,
    UInt64,
    Float16,
    Float32,
    Float64,
    Utf8,
    LargeUtf8,
    Utf8View,
    Binary,
    LargeBinary,
    BinaryView,
    /// A decimal in 32 bits, by precision and scale.
    Decimal32(u8, i8),
    /// A decimal in 64 bits, by precision and scale.
    Decimal64(u8, i8),
    /// A decimal in 128 bits, by precision and scale.
    Decimal128(u8, i8),
    /// A decimal in 256 bits, by precision and scale.
    Decimal256(u8, i8),
    Other(ArrowType),
}

/// `arrow_schema::DataType` derives `Clone`: the clone is the same type.
pub assume_specification[ <arrow_schema::DataType as Clone>::clone ](
    t: &arrow_schema::DataType,
) -> (r: arrow_schema::DataType)
    ensures
        r == *t,
;

/// `arrow_schema::DataType` derives `PartialEq`: it compares the types structurally, the fields of
/// a nested type by `Field::eq`. That one compares name, type, nullability and metadata. The
/// dictionary id and the flag that a dictionary is ordered are no part of it, and so no part of
/// what a type is here.
pub assume_specification[ <arrow_schema::DataType as PartialEq>::eq ](
    a: &arrow_schema::DataType,
    b: &arrow_schema::DataType,
) -> (r: bool)
    ensures
        r == (*a == *b),
;

impl Clone for ArrowType {
    fn clone(&self) -> (r: Self)
        ensures
            r == *self,
    {
        proof {
            use_type_invariant(self);
        }
        ArrowType { inner: self.inner.clone() }
    }
}

/// Tells the numbers among the variants of `arrow_schema::DataType` apart.
#[verifier::external_body]
fn classify_number(t: &arrow_schema::DataType) -> (r: Option<ColumnType>)
    ensures
        match r {
            Some(number) => type_model(*t) == number && is_numeric(number),
            None => type_model(*t) == other_model(*t) && !is_numeric(other_model(*t)),
        },
{
    match t {
        DataType::Int8 => Some(ColumnType::Int8),
        DataType::Int16 => Some(ColumnType::Int16),
        DataType::Int32 => Some(ColumnType::Int32),
        DataType::Int64 => Some(ColumnType::Int64),
        DataType::UInt8 => Some(ColumnType::UInt8),
        DataType::UInt16 => Some(ColumnType::UInt16),
        DataType::UInt32 => Some(ColumnType::UInt32),
        DataType::UInt64 => Some(ColumnType::UInt64),
        DataType::Float16 => Some(ColumnType::Float16),
        DataType::Float32 => Some(ColumnType::Float32),
        DataType::Float64 => Some(ColumnType::Float64),
        _ => None,
    }
}

/// Tells the booleans, texts, byte strings and decimals among the variants of
/// `arrow_schema::DataType` apart; another type that is no number is kept as it is.
#[verifier::external_body]
fn classify_other(t: &arrow_schema::DataType) -> (r: ColumnType)
    requires
        type_model(*t) == other_model(*t),
    ensures
        r == other_model(*t),
{
    match t {
        DataType::Boolean => ColumnType::Boolean,
        DataType::Utf8 => ColumnType::Utf8,
        DataType::LargeUtf8 => ColumnType::LargeUtf8,
        DataType::Utf8View => ColumnType::Utf8View,
        DataType::Binary => ColumnType::Binary,
        DataType::LargeBinary => ColumnType::LargeBinary,
        DataType::BinaryView => ColumnType::BinaryView,
        DataType::Decimal32(p, s) => ColumnType::Decimal32(*p, *s),
        DataType::Decimal64(p, s) => ColumnType::Decimal64(*p, *s),
        DataType::Decimal128(p, s) => ColumnType::Decimal128(*p, *s),
        DataType::Decimal256(p, s) => ColumnType::Decimal256(*p, *s),
        other => ColumnType::Other(ArrowType { inner: other.clone() }),
    }
}

/// Writes a numeric type as the variant of `arrow_schema::DataType` that it stands for.
#[verifier::external_body]
fn unclassify_number(t: &ColumnType) -> (r: arrow_schema::DataType)
    requires
        is_numeric(*t),
    ensures
        type_model(r) == *t,
{
    match t {
        ColumnType::Int8 => DataType::Int8,
        ColumnType::Int16 => DataType::Int16,
        ColumnType::Int32 => DataType::Int32,
        ColumnType::Int64 => DataType::Int64,
        ColumnType::UInt8 => DataType::UInt8,
        ColumnType::UInt16 => DataType::UInt16,
        ColumnType::UInt32 => DataType::UInt32,
        ColumnType::UInt64 => DataType::UInt64,
        ColumnType::Float16 => DataType::Float16,
        ColumnType::Float32 => DataType::Float32,
        _ => DataType::Float64,
    }
}

/// Writes a boolean, text, bytes or decimal type as the variant of `arrow_schema::DataType` that
/// it stands for.
#[verifier::external_body]
fn unclassify_other(t: &ColumnType) -> (r: arrow_schema::DataType)
    requires
        !is_numeric(*t),
        *t !is Other,
    ensures
        type_model(r) == *t,
{
    match t {
        ColumnType::Utf8 => DataType::Utf8,
        ColumnType::LargeUtf8 => DataType::LargeUtf8,
        ColumnType::Utf8View => DataType::Utf8View,
        ColumnType::Binary => DataType::Binary,
        ColumnType::LargeBinary => DataType::LargeBinary,
        ColumnType::BinaryView => DataType::BinaryView,
        ColumnType::Decimal32(p, s) => DataType::Decimal32(*p, *s),
        ColumnType::Decimal64(p, s) => DataType::Decimal64(*p, *s),
        ColumnType::Decimal128(p, s) => DataType::Decimal128(*p, *s),
        ColumnType::Decimal256(p, s) => DataType::Decimal256(*p, *s),
        _ => DataType::Boolean,
    }
}

impl ColumnType {
    /// The column type of an Arrow data type.
    pub fn from_arrow(t: &arrow_schema::DataType) -> (r: ColumnType)
        ensures
            r == type_model(*t),
    {
        match classify_number(t) {
            Some(number) => number,
            None => classify_other(t),
        }
    }

    /// The Arrow data type of a column type.
    pub fn to_arrow(&self) -> (r: arrow_schema::DataType)
        ensures
            type_model(r) == *self,
            *self is Other ==> r == self.arrow_type(),
    {
        match self {
            ColumnType::Other(other) => {
                proof {
                    use_type_invariant(other);
                }
                other.inner.clone()
            },
            _ => if is_integer_type(self) || is_float_type(self) {
                unclassify_number(self)
            } else {
                unclassify_other(self)
            },
        }
    }

    /// The Arrow data type of a column type that has no variant of its own.
    pub closed spec fn arrow_type(&self) -> arrow_schema::DataType
        recommends
            self is Other,
    {
        self->Other_0.inner
    }

    /// Whether two column types are the same.
    pub fn same_as(&self, other: &ColumnType) -> (r: bool)
        ensures
            r == (*self == *other),
    {
        match (self, other) {
            (ColumnType::Boolean, ColumnType::Boolean) => true,
            (ColumnType::Int8, ColumnType::Int8) => true,
            (ColumnType::Int16, ColumnType::Int16) => true,
            (ColumnType::Int32, ColumnType::Int32) => true,
            (ColumnType::Int64, ColumnType::Int64) => true,
            (ColumnType::UInt8, ColumnType::UInt8) => true,
            (ColumnType::UInt16, ColumnType::UInt16) => true,
            (ColumnType::UInt32, ColumnType::UInt32) => true,
            (ColumnType::UInt64, ColumnType::UInt64) => true,
            (ColumnType::Float16, ColumnType::Float16) => true,
            (ColumnType::Float32, ColumnType::Float32) => true,
            (ColumnType::Float64, ColumnType::Float64) => true,
            (ColumnType::Utf8, ColumnType::Utf8) => true,
            (ColumnType::LargeUtf8, ColumnType::LargeUtf8) => true,
            (ColumnType::Utf8View, ColumnType::Utf8View) => true,
            (ColumnType::Binary, ColumnType::Binary) => true,
            (ColumnType::LargeBinary, ColumnType::LargeBinary) => true,
            (ColumnType::BinaryView, ColumnType::BinaryView) => true,
            (ColumnType::Decimal32(p, s), ColumnType::Decimal32(q, t)) => *p == *q && *s == *t,
            (ColumnType::Decimal64(p, s), ColumnType::Decimal64(q, t)) => *p == *q && *s == *t,
            (ColumnType::Decimal128(p, s), ColumnType::Decimal128(q, t)) => *p == *q && *s == *t,
            (ColumnType::Decimal256(p, s), ColumnType::Decimal256(q, t)) => *p == *q && *s == *t,
            (ColumnType::Other(a), ColumnType::Other(b)) => a.inner == b.inner,
            _ => false,
        }
    }
}

impl Clone for ColumnType {
    fn clone(&self) -> (r: Self)
        ensures
            r == *self,
    {
        match self {
            ColumnType::Boolean => ColumnType::Boolean,
            ColumnType::Int8 => ColumnType::Int8,
            ColumnType::Int16 => ColumnType::Int16,
            ColumnType::Int32 => ColumnType::Int32,
            ColumnType::Int64 => ColumnType::Int64,
            ColumnType::UInt8 => ColumnType::UInt8,
            ColumnType::UInt16 => ColumnType::UInt16,
            ColumnType::UInt32 => ColumnType::UInt32,
            ColumnType::UInt64 => ColumnType::UInt64,
            ColumnType::Float16 => ColumnType::Float16,
            ColumnType::Float32 => ColumnType::Float32,
            ColumnType::Float64 => ColumnType::Float64,
            ColumnType::Utf8 => ColumnType::Utf8,
            ColumnType::LargeUtf8 => ColumnType::LargeUtf8,
            ColumnType::Utf8View => ColumnType::Utf8View,
            ColumnType::Binary => ColumnType::Binary,
            ColumnType::LargeBinary => ColumnType::LargeBinary,
            ColumnType::BinaryView => ColumnType::BinaryView,
            ColumnType::Decimal32(p, s) => ColumnType::Decimal32(*p, *s),
            ColumnType::Decimal64(p, s) => ColumnType::Decimal64(*p, *s),
            ColumnType::Decimal128(p, s) => ColumnType::Decimal128(*p, *s),
            ColumnType::Decimal256(p, s) => ColumnType::Decimal256(*p, *s),
            ColumnType::Other(a) => ColumnType::Other(a.clone()),
        }
    }
}

/// The signed and unsigned integer types.
pub open spec fn is_integer(t: ColumnType) -> bool {
    match t {
        ColumnType::Int8 => true,
        ColumnType::Int16 => true,
        ColumnType::Int32 => true,
        ColumnType::Int64 => true,
        ColumnType::UInt8 => true,
        ColumnType::UInt16 => true,
        ColumnType::UInt32 => true,
        ColumnType::UInt64 => true,
        _ => false,
    }
}

/// The floating point types.
pub open spec fn is_float(t: ColumnType) -> bool {
    match t {
        ColumnType::Float16 => true,
        ColumnType::Float32 => true,
        ColumnType::Float64 => true,
        _ => false,
    }
}

/// The integer and floating point types.
pub open spec fn is_numeric(t: ColumnType) -> bool {
    is_integer(t) || is_float(t)
}

/// The types that hold decimals.
pub open spec fn is_decimal(t: ColumnType) -> bool {
    match t {
        ColumnType::Decimal32(_, _) => true,
        ColumnType::Decimal64(_, _) => true,
        ColumnType::Decimal128(_, _) => true,
        ColumnType::Decimal256(_, _) => true,
        _ => false,
    }
}

/// The types that hold texts.
pub open spec fn is_text(t: ColumnType) -> bool {
    t is Utf8 || t is LargeUtf8 || t is Utf8View
}

/// The types that hold byte strings of any length.
pub open spec fn is_bytes(t: ColumnType) -> bool {
    t is Binary || t is LargeBinary || t is BinaryView
}

/// Whether an integer type holds a number.
pub open spec fn holds_integer(t: ColumnType, n: int) -> bool {
    match t {
        ColumnType::Int8 => i8::MIN <= n <= i8::MAX,
        ColumnType::Int16 => i16::MIN <= n <= i16::MAX,
        ColumnType::Int32 => i32::MIN <= n <= i32::MAX,
        ColumnType::Int64 => i64::MIN <= n <= i64::MAX,
        ColumnType::UInt8 => 0 <= n <= u8::MAX,
        ColumnType::UInt16 => 0 <= n <= u16::MAX,
        ColumnType::UInt32 => 0 <= n <= u32::MAX,
        ColumnType::UInt64 => 0 <= n <= u64::MAX,
        _ => false,
    }
}

/// The common type of a column that has type `a` in an older and `b` in a newer schema.
pub open spec fn widened(a: ColumnType, b: ColumnType) -> ColumnType {
    if a == b || !(is_numeric(a) && is_numeric(b)) {
        b
    } else if is_float(a) || is_float(b) {
        ColumnType::Float64
    } else {
        ColumnType::Int64
    }
}

pub fn is_integer_type(t: &ColumnType) -> (r: bool)
    ensures
        r == is_integer(*t),
{
    match t {
        ColumnType::Int8 => true,
        ColumnType::Int16 => true,
        ColumnType::Int32 => true,
        ColumnType::Int64 => true,
        ColumnType::UInt8 => true,
        ColumnType::UInt16 => true,
        ColumnType::UInt32 => true,
        ColumnType::UInt64 => true,
        _ => false,
    }
}

pub fn is_float_type(t: &ColumnType) -> (r: bool)
    ensures
        r == is_float(*t),
{
    match t {
        ColumnType::Float16 => true,
        ColumnType::Float32 => true,
        ColumnType::Float64 => true,
        _ => false,
    }
}

/// Whether a type holds decimals.
pub fn is_decimal_type(t: &ColumnType) -> (r: bool)
    ensures
        r == is_decimal(*t),
{
    match t {
        ColumnType::Decimal32(_, _) => true,
        ColumnType::Decimal64(_, _) => true,
        ColumnType::Decimal128(_, _) => true,
        ColumnType::Decimal256(_, _) => true,
        _ => false,
    }
}

/// Whether a type holds texts.
pub fn is_text_type(t: &ColumnType) -> (r: bool)
    ensures
        r == is_text(*t),
{
    match t {
        ColumnType::Utf8 => true,
        ColumnType::LargeUtf8 => true,
        ColumnType::Utf8View => true,
        _ => false,
    }
}

/// Whether a type holds byte strings of any length.
pub fn is_bytes_type(t: &ColumnType) -> (r: bool)
    ensures
        r == is_bytes(*t),
{
    match t {
        ColumnType::Binary => true,
        ColumnType::LargeBinary => true,
        ColumnType::BinaryView => true,
        _ => false,
    }
}

/// Whether an integer type holds a number of 64 bits.
pub fn can_hold_integer(t: &ColumnType, n: i64) -> (r: bool)
    ensures
        r == holds_integer(*t, n as int),
{
    match t {
        ColumnType::Int8 => i8::MIN as i64 <= n && n <= i8::MAX as i64,
        ColumnType::Int16 => i16::MIN as i64 <= n && n <= i16::MAX as i64,
        ColumnType::Int32 => i32::MIN as i64 <= n && n <= i32::MAX as i64,
        ColumnType::Int64 => true,
        ColumnType::UInt8 => 0 <= n && n <= u8::MAX as i64,
        ColumnType::UInt16 => 0 <= n && n <= u16::MAX as i64,
        ColumnType::UInt32 => 0 <= n && n <= u32::MAX as i64,
        ColumnType::UInt64 => 0 <= n,
        _ => false,
    }
}

/// Chooses a common type for a column that appears with two types.
///
/// Two different numeric types are widened, to `Int64` when both are integers and to `Float64`
/// when any is floating. For any other mismatch the newer type `b` is chosen.
pub fn widen_types(a: &ColumnType, b: &ColumnType) -> (r: ColumnType)
    ensures
        r == widened(*a, *b),
        *a == *b ==> r == *b,
        !(is_numeric(*a) && is_numeric(*b)) ==> r == *b,
        *a != *b && is_integer(*a) && is_integer(*b) ==> r == ColumnType::Int64,
        *a != *b && (is_float(*a) && is_numeric(*b) || is_numeric(*a) && is_float(*b)) ==> r
            == ColumnType::Float64,
{
    if a.same_as(b) {
        return a.clone();
    }
    let a_num: bool = is_integer_type(a) || is_float_type(a);
    let b_num: bool = is_integer_type(b) || is_float_type(b);
    if a_num && b_num {
        if is_float_type(a) || is_float_type(b) {
            ColumnType::Float64
        } else {
            ColumnType::Int64
        }
    } else {
        b.clone()
    }
}

/// A type widens to itself.
pub proof fn widened_same(a: ColumnType)
    ensures
        widened(a, a) == a,
{
}

/// Which of two numeric types is the newer makes no difference.
pub proof fn widened_numeric_symmetric(a: ColumnType, b: ColumnType)
    requires
        is_numeric(a),
        is_numeric(b),
    ensures
        widened(a, b) == widened(b, a),
{
}

/// Seeing the newer type once more changes nothing.
pub proof fn widened_settles(a: ColumnType, b: ColumnType)
    ensures
        widened(widened(a, b), b) == widened(a, b),
{
}

/// The integer types are those that hold zero, and the largest of them take in all that the
/// smaller ones hold.
pub proof fn integer_types_hold_integers(t: ColumnType, n: int)
    ensures
        is_integer(t) <==> holds_integer(t, 0),
        is_integer(t) <==> holds_integer(t, 0x7f),
        holds_integer(t, n) ==> holds_integer(ColumnType::Int64, n) || holds_integer(
            ColumnType::UInt64,
            n,
        ),
        is_numeric(t) && !holds_integer(t, 0) <==> t is Float16 || t is Float32 || t is Float64,
{
}

/// What a column says of its dictionary, if its values are held in one: its number, and whether
/// the order of its values means something.
#[derive(Debug, Clone, Copy, PartialEq, Eq, Structural)]
pub struct DictionaryNote {
    pub id: i64,
    pub is_ordered: bool,
}

/// A column: its name, its type, whether it may hold nulls, its metadata, and what it says of its
/// dictionary, which is no part of what columns are compared by.
#[derive(Debug)]
pub struct FieldDef {
    pub name: String,
    pub data_type: ColumnType,
    pub nullable: bool,
    pub metadata: arrow_schema::Metadata,
    pub dictionary: DictionaryNote,
}

/// What a [`FieldDef`] stands for, but for what it says of its dictionary.
pub struct FieldView {
    pub name: Seq<char>,
    pub data_type: ColumnType,
    pub nullable: bool,
    pub metadata: Map<Seq<char>, Seq<char>>,
}

impl FieldDef {
    pub open spec fn view(&self) -> FieldView {
        FieldView {
            name: self.name@,
            data_type: self.data_type,
            nullable: self.nullable,
            metadata: metadata_entries(self.metadata),
        }
    }

    /// A column without metadata.
    pub fn new(name: &str, data_type: ColumnType, nullable: bool) -> (r: FieldDef)
        ensures
            r@ == plain_field(name@, data_type, nullable),
            r.dictionary == no_note(),
    {
        FieldDef {
            name: name.to_owned(),
            data_type,
            nullable,
            metadata: arrow_schema::Metadata::new(),
            dictionary: DictionaryNote { id: 0, is_ordered: false },
        }
    }

    /// Whether two columns agree in name, type, nullability and metadata.
    pub fn same_as(&self, other: &FieldDef) -> (r: bool)
        ensures
            r == (self@ == other@),
    {
        same_text(self.name.as_str(), other.name.as_str()) && self.data_type.same_as(
            &other.data_type,
        ) && self.nullable == other.nullable && self.metadata == other.metadata
    }
}

impl PartialEq for FieldDef {
    fn eq(&self, other: &Self) -> (r: bool) {
        self.same_as(other)
    }
}

impl PartialEqSpecImpl for FieldDef {
    open spec fn obeys_eq_spec() -> bool {
        true
    }

    open spec fn eq_spec(&self, other: &Self) -> bool {
        self@ == other@
    }
}

impl Clone for FieldDef {
    fn clone(&self) -> (r: Self)
        ensures
            r@ == self@,
            r.dictionary == self.dictionary,
    {
        FieldDef {
            name: self.name.clone(),
            data_type: self.data_type.clone(),
            nullable: self.nullable,
            metadata: self.metadata.clone(),
            dictionary: self.dictionary,
        }
    }
}

/// What a column says that has nothing to say of a dictionary.
pub open spec fn no_note() -> DictionaryNote {
    DictionaryNote { id: 0, is_ordered: false }
}

/// What columns say of their dictionaries.
pub open spec fn field_notes(fields: Seq<FieldDef>) -> Seq<DictionaryNote> {
    fields.map_values(|f: FieldDef| f.dictionary)
}

/// A column without metadata.
pub open spec fn plain_field(name: Seq<char>, data_type: ColumnType, nullable: bool) -> FieldView {
    FieldView { name, data_type, nullable, metadata: no_metadata() }
}

/// The columns of a table or batch, in order, and the metadata of the whole.
#[derive(Debug, PartialEq)]
pub struct SchemaDef {
    pub fields: Vec<FieldDef>,
    pub metadata: arrow_schema::Metadata,
}

/// What a [`SchemaDef`] stands for.
pub struct SchemaView {
    pub fields: Seq<FieldView>,
    pub metadata: Map<Seq<char>, Seq<char>>,
}

/// What a list of columns stands for.
pub open spec fn field_views(fields: Seq<FieldDef>) -> Seq<FieldView> {
    fields.map_values(|f: FieldDef| f@)
}

impl SchemaDef {
    pub open spec fn view(&self) -> SchemaView {
        SchemaView { fields: field_views(self.fields@), metadata: metadata_entries(self.metadata) }
    }

    /// A schema without metadata.
    pub fn new(fields: Vec<FieldDef>) -> (r: SchemaDef)
        ensures
            r.fields == fields,
            r@.fields == field_views(fields@),
            r@.metadata == no_metadata(),
    {
        SchemaDef { fields, metadata: arrow_schema::Metadata::new() }
    }
}

impl Clone for SchemaDef {
    fn clone(&self) -> (r: Self)
        ensures
            r@ == self@,
            field_notes(r.fields@) == field_notes(self.fields@),
    {
        let mut fields: Vec<FieldDef> = Vec::new();
        let mut i: usize = 0;
        while i < self.fields.len()
            invariant
                i <= self.fields@.len(),
                fields@.len() == i,
                forall|k: int|
                    0 <= k < i ==> (#[trigger] fields@[k])@ == self.fields@[k]@
                        && fields@[k].dictionary == self.fields@[k].dictionary,
            decreases self.fields@.len() - i,
        {
            fields.push(self.fields[i].clone());
            i += 1;
        }
        assert(field_views(fields@) =~= field_views(self.fields@));
        assert(field_notes(fields@) =~= field_notes(self.fields@));
        SchemaDef { fields, metadata: self.metadata.clone() }
    }
}

/// Whether two lists of columns agree column by column.
pub fn same_fields(a: &Vec<FieldDef>, b: &Vec<FieldDef>) -> (r: bool)
    ensures
        r == (field_views(a@) == field_views(b@)),
{
    if a.len() != b.len() {
        assert(field_views(a@).len() != field_views(b@).len());
        return false;
    }
    let mut i: usize = 0;
    while i < a.len()
        invariant
            i <= a@.len(),
            a@.len() == b@.len(),
            forall|k: int| 0 <= k < i ==> (#[trigger] a@[k])@ == b@[k]@,
        decreases a@.len() - i,
    {
        if !a[i].same_as(&b[i]) {
            assert(field_views(a@)[i as int] != field_views(b@)[i as int]);
            return false;
        }
        i += 1;
    }
    assert(field_views(a@) =~= field_views(b@));
    true
}

/// Whether `name` is a column of `fields`.
pub open spec fn has_field(fields: Seq<FieldView>, name: Seq<char>) -> bool {
    exists|i: int| 0 <= i < fields.len() && (#[trigger] fields[i]).name == name
}

/// The columns of all schemas, one schema after the other.
pub open spec fn all_fields(schemas: Seq<SchemaView>) -> Seq<FieldView>
    decreases schemas.len(),
{
    if schemas.len() == 0 {
        Seq::empty()
    } else {
        all_fields(schemas.drop_last()) + schemas.last().fields
    }
}

/// The names of the columns in the order of their first appearance.
pub open spec fn first_names(fields: Seq<FieldView>) -> Seq<Seq<char>>
    decreases fields.len(),
{
    if fields.len() == 0 {
        Seq::empty()
    } else {
        let before = first_names(fields.drop_last());
        if before.contains(fields.last().name) {
            before
        } else {
            before.push(fields.last().name)
        }
    }
}

/// The type of the column `name`, widened over its appearances from the oldest to the newest.
pub open spec fn common_type(fields: Seq<FieldView>, name: Seq<char>) -> Option<ColumnType>
    decreases fields.len(),
{
    if fields.len() == 0 {
        None
    } else {
        let before = common_type(fields.drop_last(), name);
        if fields.last().name != name {
            before
        } else {
            match before {
                Some(t) => Some(widened(t, fields.last().data_type)),
                None => Some(fields.last().data_type),
            }
        }
    }
}

/// Whether some appearance of the column `name` may hold nulls.
pub open spec fn nullable_somewhere(fields: Seq<FieldView>, name: Seq<char>) -> bool {
    exists|i: int| 0 <= i < fields.len() && (#[trigger] fields[i]).name == name && fields[i].nullable
}

/// Whether some schema lacks the column `name`.
pub open spec fn absent_somewhere(schemas: Seq<SchemaView>, name: Seq<char>) -> bool {
    exists|i: int| 0 <= i < schemas.len() && !has_field((#[trigger] schemas[i]).fields, name)
}

/// The column `name` of the reconciled schema.
pub open spec fn reconciled_field(schemas: Seq<SchemaView>, name: Seq<char>) -> FieldView {
    plain_field(
        name,
        common_type(all_fields(schemas), name)->0,
        nullable_somewhere(all_fields(schemas), name) || absent_somewhere(schemas, name),
    )
}

/// Whether all schemas have the columns of the first.
pub open spec fn same_columns(schemas: Seq<SchemaView>) -> bool {
    forall|i: int| 0 <= i < schemas.len() ==> (#[trigger] schemas[i]).fields == schemas[0].fields
}

/// The schema that rows of all the given schemas are read with.
pub open spec fn reconciled(schemas: Seq<SchemaView>) -> SchemaView {
    if schemas.len() == 0 {
        SchemaView { fields: Seq::empty(), metadata: no_metadata() }
    } else if same_columns(schemas) {
        schemas[0]
    } else {
        SchemaView {
            fields: first_names(all_fields(schemas)).map_values(
                |name: Seq<char>| reconciled_field(schemas, name),
            ),
            metadata: no_metadata(),
        }
    }
}

/// What a list of schemas stands for.
pub open spec fn schema_views(schemas: Seq<SchemaDef>) -> Seq<SchemaView> {
    schemas.map_values(|s: SchemaDef| s@)
}

/// What is known of a column after some of its appearances.
struct Seen {
    name: String,
    data_type: ColumnType,
    nullable: bool,
}

/// `seen` sums the columns `fields` up.
spec fn sums_up(seen: Seq<Seen>, fields: Seq<FieldView>) -> bool {
    &&& seen.len() == first_names(fields).len()
    &&& forall|k: int|
        0 <= k < seen.len() ==> {
            let name = (#[trigger] seen[k]).name@;
            &&& name == first_names(fields)[k]
            &&& common_type(fields, name) == Some(seen[k].data_type)
            &&& seen[k].nullable == nullable_somewhere(fields, name)
        }
}

/// A column has a common type if and only if it appears, and then it is among the first names.
pub proof fn field_appears(fields: Seq<FieldView>, name: Seq<char>)
    ensures
        first_names(fields).contains(name) <==> has_field(fields, name),
        common_type(fields, name) is Some <==> has_field(fields, name),
    decreases fields.len(),
{
    if fields.len() > 0 {
        let before = fields.drop_last();
        field_appears(before, name);
        let names = first_names(before);
        if has_field(before, name) {
            let i = choose|i: int| 0 <= i < before.len() && (#[trigger] before[i]).name == name;
            assert(fields[i].name == name);
        }
        if has_field(fields, name) && fields.last().name != name {
            let i = choose|i: int| 0 <= i < fields.len() && (#[trigger] fields[i]).name == name;
            assert(before[i].name == name);
        }
        if fields.last().name == name {
            assert(fields[fields.len() - 1].name == name);
        }
        let last = fields.last().name;
        if !names.contains(last) {
            assert(names.push(last)[names.len() as int] == last);
            if names.contains(name) {
                let i = choose|i: int| 0 <= i < names.len() && names[i] == name;
                assert(names.push(last)[i] == name);
            }
            if names.push(last).contains(name) && name != last {
                let i = choose|i: int|
                    0 <= i < names.push(last).len() && names.push(last)[i] == name;
                assert(names[i] == name);
            }
        }
    }
}

/// No name comes first twice.
pub proof fn first_names_distinct(fields: Seq<FieldView>)
    ensures
        first_names(fields).no_duplicates(),
    decreases fields.len(),
{
    if fields.len() > 0 {
        first_names_distinct(fields.drop_last());
    }
}

/// What one more column does to the nullability of the column `name`.
proof fn lemma_nullable_step(fields: Seq<FieldView>, f: FieldView, name: Seq<char>)
    ensures
        nullable_somewhere(fields.push(f), name) <==> nullable_somewhere(fields, name) || (f.name
            == name && f.nullable),
{
    let more = fields.push(f);
    if nullable_somewhere(fields, name) {
        let i = choose|i: int|
            0 <= i < fields.len() && (#[trigger] fields[i]).name == name && fields[i].nullable;
        assert(more[i].name == name && more[i].nullable);
    }
    if f.name == name && f.nullable {
        assert(more[fields.len() as int].name == name);
    }
    if nullable_somewhere(more, name) {
        let i = choose|i: int|
            0 <= i < more.len() && (#[trigger] more[i]).name == name && more[i].nullable;
        if i < fields.len() {
            assert(fields[i].name == name);
        }
    }
}

/// Takes one more column into account.
fn see_field(seen: &mut Vec<Seen>, field: &FieldDef, Ghost(fields): Ghost<Seq<FieldView>>)
    requires
        sums_up(old(seen)@, fields),
    ensures
        sums_up(final(seen)@, fields.push(field@)),
{
    let ghost more = fields.push(field@);
    let ghost name = field@.name;
    proof {
        assert(more.drop_last() =~= fields);
        field_appears(fields, name);
        first_names_distinct(fields);
        assert forall|n: Seq<char>|
            #[trigger] nullable_somewhere(more, n) <==> nullable_somewhere(fields, n) || (name == n
                && field.nullable) by {
            lemma_nullable_step(fields, field@, n);
        }
    }
    let mut k: usize = 0;
    while k < seen.len()
        invariant
            k <= seen@.len(),
            seen@ == old(seen)@,
            sums_up(seen@, fields),
            forall|j: int| 0 <= j < k ==> (#[trigger] seen@[j]).name@ != name,
            name == field@.name,
            more == fields.push(field@),
            more.drop_last() == fields,
            first_names(fields).no_duplicates(),
            forall|n: Seq<char>|
                #[trigger] nullable_somewhere(more, n) <==> nullable_somewhere(fields, n) || (name
                    == n && field.nullable),
        decreases seen@.len() - k,
    {
        if same_text(seen[k].name.as_str(), field.name.as_str()) {
            let data_type: ColumnType = widen_types(&seen[k].data_type, &field.data_type);
            let nullable: bool = seen[k].nullable || field.nullable;
            let same_name: String = seen[k].name.clone();
            assert(first_names(fields)[k as int] == name);
            assert(first_names(more) == first_names(fields));
            seen.set(k, Seen { name: same_name, data_type, nullable });
            assert forall|j: int| 0 <= j < seen@.len() implies {
                let n = (#[trigger] seen@[j]).name@;
                &&& n == first_names(more)[j]
                &&& common_type(more, n) == Some(seen@[j].data_type)
                &&& seen@[j].nullable == nullable_somewhere(more, n)
            } by {
                if j != k {
                    assert(seen@[j] == old(seen)@[j]);
                    assert(first_names(fields)[j] != first_names(fields)[k as int]);
                }
            }
            return;
        }
        k += 1;
    }
    proof {
        if first_names(fields).contains(name) {
            let j = choose|j: int|
                0 <= j < first_names(fields).len() && first_names(fields)[j] == name;
            assert(seen@[j].name@ == name);
        }
        field_appears(fields, name);
        if nullable_somewhere(fields, name) {
            assert(has_field(fields, name));
        }
    }
    seen.push(
        Seen {
            name: field.name.clone(),
            data_type: field.data_type.clone(),
            nullable: field.nullable,
        },
    );
    assert forall|j: int| 0 <= j < seen@.len() implies {
        let n = (#[trigger] seen@[j]).name@;
        &&& n == first_names(more)[j]
        &&& common_type(more, n) == Some(seen@[j].data_type)
        &&& seen@[j].nullable == nullable_somewhere(more, n)
    } by {
        if j < old(seen)@.len() {
            assert(seen@[j] == old(seen)@[j]);
            assert(first_names(fields).contains(first_names(fields)[j]));
        }
    }
}

/// Whether `name` is a column of the schema.
pub fn contains_field(fields: &Vec<FieldDef>, name: &str) -> (r: bool)
    ensures
        r == has_field(field_views(fields@), name@),
{
    let ghost views = field_views(fields@);
    let mut i: usize = 0;
    while i < fields.len()
        invariant
            views == field_views(fields@),
            i <= fields@.len(),
            forall|k: int| 0 <= k < i ==> (#[trigger] views[k]).name != name@,
        decreases fields@.len() - i,
    {
        if same_text(fields[i].name.as_str(), name) {
            assert(views[i as int].name == name@);
            return true;
        }
        i += 1;
    }
    false
}

/// Whether some schema lacks the column `name`.
fn lacks_field(schemas: &[SchemaDef], name: &str) -> (r: bool)
    ensures
        r == absent_somewhere(schema_views(schemas@), name@),
{
    let ghost views = schema_views(schemas@);
    let mut i: usize = 0;
    while i < schemas.len()
        invariant
            views == schema_views(schemas@),
            i <= schemas@.len(),
            forall|k: int| 0 <= k < i ==> has_field((#[trigger] views[k]).fields, name@),
        decreases schemas@.len() - i,
    {
        if !contains_field(&schemas[i].fields, name) {
            assert(!has_field(views[i as int].fields, name@));
            return true;
        }
        i += 1;
    }
    false
}

/// Reconciles a set of (possibly evolved) schemas into a single target schema for
/// schema-on-read by column name.
///
/// Columns are united in the order of their first appearance. A column's type is widened across
/// the schemas it appears in. It is nullable if it is absent from any of the schemas or nullable
/// in any of them, so that missing columns can be filled with nulls. When all schemas have the
/// same columns, the first is returned unchanged.
pub fn reconcile_schemas(schemas: &[SchemaDef]) -> (r: SchemaDef)
    ensures
        r@ == reconciled(schema_views(schemas@)),
        schemas@.len() > 0 && same_columns(schema_views(schemas@)) ==> field_notes(r.fields@)
            == field_notes(schemas@[0].fields@),
        !same_columns(schema_views(schemas@)) ==> forall|k: int|
            0 <= k < r.fields@.len() ==> (#[trigger] r.fields@[k]).dictionary == no_note(),
{
    let ghost views = schema_views(schemas@);
    if schemas.len() == 0 {
        let r: SchemaDef = SchemaDef::new(Vec::new());
        assert(r@.fields =~= Seq::empty());
        return r;
    }
    let mut same: bool = true;
    let mut i: usize = 0;
    while i < schemas.len() && same
        invariant
            views == schema_views(schemas@),
            schemas@.len() > 0,
            i <= schemas@.len(),
            same ==> forall|k: int|
                0 <= k < i ==> (#[trigger] views[k]).fields == views[0].fields,
            !same ==> !same_columns(views),
        decreases schemas@.len() - i,
    {
        same = same_fields(&schemas[i].fields, &schemas[0].fields);
        assert(same == (views[i as int].fields == views[0].fields));
        i += 1;
    }
    if same {
        return schemas[0].clone();
    }
    let mut seen: Vec<Seen> = Vec::new();
    let ghost mut done: Seq<FieldView> = Seq::empty();
    let mut s: usize = 0;
    assert(all_fields(views.take(0)) =~= Seq::empty());
    while s < schemas.len()
        invariant
            views == schema_views(schemas@),
            s <= schemas@.len(),
            done == all_fields(views.take(s as int)),
            sums_up(seen@, done),
        decreases schemas@.len() - s,
    {
        let ghost start = done;
        let ghost here = views[s as int].fields;
        let mut f: usize = 0;
        assert(start + here.take(0) =~= start);
        while f < schemas[s].fields.len()
            invariant
                views == schema_views(schemas@),
                s < schemas@.len(),
                here == views[s as int].fields,
                f <= schemas@[s as int].fields@.len(),
                done == start + here.take(f as int),
                sums_up(seen@, done),
            decreases schemas@[s as int].fields@.len() - f,
        {
            see_field(&mut seen, &schemas[s].fields[f], Ghost(done));
            proof {
                let next = done.push(schemas@[s as int].fields@[f as int]@);
                assert(here[f as int] == schemas@[s as int].fields@[f as int]@);
                assert(next =~= start + here.take(f + 1));
                done = next;
            }
            f += 1;
        }
        proof {
            assert(here.take(f as int) =~= here);
            assert(views.take(s + 1).drop_last() =~= views.take(s as int));
            assert(views.take(s + 1).last() == views[s as int]);
        }
        s += 1;
    }
    assert(views.take(s as int) =~= views);
    let mut fields: Vec<FieldDef> = Vec::new();
    let mut k: usize = 0;
    while k < seen.len()
        invariant
            views == schema_views(schemas@),
            done == all_fields(views),
            sums_up(seen@, done),
            k <= seen@.len(),
            fields@.len() == k,
            forall|j: int|
                0 <= j < k ==> (#[trigger] fields@[j])@ == reconciled_field(
                    views,
                    first_names(done)[j],
                ) && fields@[j].dictionary == no_note(),
        decreases seen@.len() - k,
    {
        let name: &str = seen[k].name.as_str();
        let nullable: bool = seen[k].nullable || lacks_field(schemas, name);
        let data_type: ColumnType = seen[k].data_type.clone();
        fields.push(FieldDef::new(name, data_type, nullable));
        k += 1;
    }
    let r: SchemaDef = SchemaDef::new(fields);
    assert(r@.fields =~= reconciled(views).fields);
    r
}

} // verus!
