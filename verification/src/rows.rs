//! The rows of batches as texts, for looking at what was read.

use std::collections::HashMap;
use vstd::pervasive::unreached;
use vstd::prelude::*;
use vstd::string::*;
use crate::batch::{
    batch_columns, batch_rows, batch_schema, column_at, column_len, column_type,
    first_column_is_found, first_named, has_no_column, integer_at, is_first_column, null_at,
    position_of, rows_of, schema_of, text_at, type_of, Batch, Column,
};
use crate::json::{last_named, last_named_at, last_named_nowhere};
use crate::named::NamedMap;
use crate::numeral::{decimal, decimal_text};
use crate::schema::{ColumnType, SchemaDef};

verus! {

/// The column of a struct column that holds the field with the given name.
pub uninterp spec fn struct_field(c: Column, name: Seq<char>) -> Option<Column>;

/// Calls `Array::is_null`, which panics behind the last row.
#[verifier::external_body]
pub(crate) fn is_null(c: &Column, row: usize) -> (r: bool)
    requires
        row < column_len(*c),
    ensures
        r == null_at(*c, row as nat),
{
    arrow_array::Array::is_null(&c.array, row)
}

/// Calls `downcast_ref` for an `Int64Array`, which is what holds a column of type `Int64`, and
/// `value` on it, which panics behind the last row.
#[verifier::external_body]
pub(crate) fn read_int64(c: &Column, row: usize) -> (r: Option<i64>)
    requires
        row < column_len(*c),
    ensures
        r is Some <==> column_type(*c) == ColumnType::Int64,
        r matches Some(n) ==> n == integer_at(*c, row as nat),
{
    c.array.as_any().downcast_ref::<arrow_array::Int64Array>().map(|a| a.value(row))
}

/// Calls `downcast_ref` for an `Int32Array`, which is what holds a column of type `Int32`, and
/// `value` on it, which panics behind the last row.
#[verifier::external_body]
pub(crate) fn read_int32(c: &Column, row: usize) -> (r: Option<i32>)
    requires
        row < column_len(*c),
    ensures
        r is Some <==> column_type(*c) == ColumnType::Int32,
        r matches Some(n) ==> n == integer_at(*c, row as nat),
{
    c.array.as_any().downcast_ref::<arrow_array::Int32Array>().map(|a| a.value(row))
}

/// Calls `downcast_ref` for a `StringArray`, which is what holds a column of type `Utf8`, and
/// `value` on it, which panics behind the last row.
#[verifier::external_body]
fn read_text(c: &Column, row: usize) -> (r: Option<String>)
    requires
        row < column_len(*c),
    ensures
        r is Some <==> column_type(*c) == ColumnType::Utf8,
        r matches Some(s) ==> s@ == text_at(*c, row as nat),
{
    c.array.as_any().downcast_ref::<arrow_array::StringArray>().map(|a| a.value(row).to_string())
}

/// Calls `downcast_ref` for a `StructArray` and `column_by_name` on it, and clones the column it
/// refers to, which is as long as the struct column.
#[verifier::external_body]
fn read_field(c: &Column, name: &str) -> (r: Option<Column>)
    ensures
        r == struct_field(*c, name@),
        r matches Some(f) ==> column_len(f) == column_len(*c),
{
    let structs = c.array.as_any().downcast_ref::<arrow_array::StructArray>()?;
    structs.column_by_name(name).map(|array| Column { array: array.clone() })
}

/// The value of a column in a row as text: integers as numerals, nulls as nothing.
pub open spec fn cell_text(c: Column, row: nat) -> Option<Seq<char>> {
    if null_at(c, row) {
        None
    } else {
        match column_type(c) {
            ColumnType::Int64 => Some(decimal(integer_at(c, row))),
            ColumnType::Int32 => Some(decimal(integer_at(c, row))),
            ColumnType::Utf8 => Some(text_at(c, row)),
            _ => Some("<other>"@),
        }
    }
}

/// What an optional text stands for.
pub open spec fn optional_text(t: Option<String>) -> Option<Seq<char>> {
    match t {
        Some(t) => Some(t@),
        None => None,
    }
}

/// The value of a column in a row as text.
pub fn read_cell(c: &Column, row: usize) -> (r: Option<String>)
    requires
        row < column_len(*c),
    ensures
        optional_text(r) == cell_text(*c, row as nat),
{
    if is_null(c, row) {
        None
    } else if let Some(n) = read_int64(c, row) {
        Some(decimal_text(n))
    } else if let Some(n) = read_int32(c, row) {
        Some(decimal_text(n as i64))
    } else if let Some(s) = read_text(c, row) {
        Some(s)
    } else {
        Some("<other>".to_owned())
    }
}

/// The columns of a row, by name.
pub open spec fn row_entries(b: Batch, row: nat) -> Seq<(Seq<char>, Option<Seq<char>>)> {
    Seq::new(
        batch_columns(b).len(),
        |c: int| (batch_schema(b).fields[c].name, cell_text(batch_columns(b)[c], row)),
    )
}

/// Whether a map holds the columns of a row; of several with the same name the last one counts.
pub open spec fn holds_row(m: Map<Seq<char>, Option<String>>, b: Batch, row: nat) -> bool {
    forall|name: Seq<char>|
        match #[trigger] last_named(row_entries(b, row), name) {
            Some(t) => m.contains_key(name) && optional_text(m[name]) == t,
            None => !m.contains_key(name),
        }
}

/// Whether a batch has a column `id` of 32-bit integers.
pub open spec fn has_ids(b: Batch) -> bool {
    first_named(batch_schema(b).fields, "id"@) matches Some(i) && column_type(batch_columns(b)[i])
        == ColumnType::Int32
}

/// The `id` of a row.
pub open spec fn id_of(b: Batch, row: nat) -> i32 {
    integer_at(batch_columns(b)[first_named(batch_schema(b).fields, "id"@)->0], row) as i32
}

/// The last of the first `n` rows of a batch with the given `id`.
pub open spec fn last_row(b: Batch, id: i32, n: nat) -> Option<nat>
    decreases n,
{
    if n == 0 {
        None
    } else if id_of(b, (n - 1) as nat) == id {
        Some((n - 1) as nat)
    } else {
        last_row(b, id, (n - 1) as nat)
    }
}

/// The last row with the given `id`, over all batches.
pub open spec fn found_row(batches: Seq<Batch>, id: i32) -> Option<(Batch, nat)>
    decreases batches.len(),
{
    if batches.len() == 0 {
        None
    } else {
        match last_row(batches.last(), id, batch_rows(batches.last())) {
            Some(row) => Some((batches.last(), row)),
            None => found_row(batches.drop_last(), id),
        }
    }
}

/// Whether a map holds a row for each `id` that occurs.
pub open spec fn holds_rows(
    rows: Map<i32, NamedMap<Option<String>>>,
    found: spec_fn(i32) -> Option<(Batch, nat)>,
) -> bool {
    forall|id: i32|
        match #[trigger] found(id) {
            Some((b, row)) => rows.contains_key(id) && holds_row(rows[id]@, b, row),
            None => !rows.contains_key(id),
        }
}

/// Whether a batch has a column `id` of 32-bit integers.
pub fn is_keyed(b: &Batch) -> (r: bool)
    ensures
        r == has_ids(*b),
{
    match id_column(b) {
        Some(c) => match type_of(&c) {
            ColumnType::Int32 => true,
            _ => false,
        },
        None => false,
    }
}

fn id_column(b: &Batch) -> (r: Option<Column>)
    ensures
        match first_named(batch_schema(*b).fields, "id"@) {
            Some(i) => r matches Some(c) && c == batch_columns(*b)[i] && column_len(c)
                == batch_rows(*b),
            None => r is None,
        },
{
    let schema: SchemaDef = schema_of(b);
    match position_of(&schema.fields, "id") {
        Some(i) => Some(column_at(b, i)),
        None => None,
    }
}

fn read_row(b: &Batch, schema: &SchemaDef, row: usize) -> (r: NamedMap<Option<String>>)
    requires
        schema@ == batch_schema(*b),
        schema@.fields.len() == batch_columns(*b).len(),
        row < batch_rows(*b),
    ensures
        holds_row(r@, *b, row as nat),
{
    let ghost entries = row_entries(*b, row as nat);
    let mut cells: NamedMap<Option<String>> = NamedMap::new();
    let mut c: usize = 0;
    while c < schema.fields.len()
        invariant
            schema@ == batch_schema(*b),
            schema@.fields.len() == batch_columns(*b).len(),
            schema@.fields.len() == schema.fields@.len(),
            row < batch_rows(*b),
            entries == row_entries(*b, row as nat),
            c <= schema.fields@.len(),
            forall|name: Seq<char>|
                match #[trigger] last_named(entries.take(c as int), name) {
                    Some(t) => cells@.contains_key(name) && optional_text(cells@[name]) == t,
                    None => !cells@.contains_key(name),
                },
        decreases schema.fields@.len() - c,
    {
        let ghost before = cells@;
        let column: Column = column_at(b, c);
        let value: Option<String> = read_cell(&column, row);
        let ghost text = optional_text(value);
        assert(schema@.fields[c as int] == schema.fields@[c as int]@);
        assert(entries[c as int] == (schema.fields@[c as int].name@, text));
        assert(entries.take(c + 1).drop_last() =~= entries.take(c as int));
        assert(entries.take(c + 1).last() == entries[c as int]);
        cells.insert(schema.fields[c].name.clone(), value);
        assert forall|name: Seq<char>|
            match #[trigger] last_named(entries.take(c + 1), name) {
                Some(t) => cells@.contains_key(name) && optional_text(cells@[name]) == t,
                None => !cells@.contains_key(name),
            } by {
            assert(match last_named(entries.take(c as int), name) {
                Some(t) => before.contains_key(name) && optional_text(before[name]) == t,
                None => !before.contains_key(name),
            });
        }
        c += 1;
    }
    assert(entries.take(c as int) =~= entries);
    cells
}

/// The rows seen so far: those of whole batches, then the first rows of one more.
spec fn seen(batches: Seq<Batch>, b: Batch, n: nat, id: i32) -> Option<(Batch, nat)> {
    match last_row(b, id, n) {
        Some(row) => Some((b, row)),
        None => found_row(batches, id),
    }
}

fn read_rows(
    rows: &mut HashMap<i32, NamedMap<Option<String>>>,
    b: &Batch,
    Ghost(earlier): Ghost<Seq<Batch>>,
)
    requires
        has_ids(*b),
        holds_rows(old(rows)@, |id: i32| found_row(earlier, id)),
    ensures
        holds_rows(final(rows)@, |id: i32| found_row(earlier.push(*b), id)),
{
    let schema: SchemaDef = schema_of(b);
    let total: usize = rows_of(b);
    let ids: Column = match id_column(b) {
        Some(c) => c,
        None => {
            return ;
        },
    };
    let mut row: usize = 0;
    assert forall|id: i32|
        match #[trigger] seen(earlier, *b, 0, id) {
            Some((d, k)) => rows@.contains_key(id) && holds_row(rows@[id]@, d, k),
            None => !rows@.contains_key(id),
        } by {
        let found = |id: i32| found_row(earlier, id);
        assert(found(id) == seen(earlier, *b, 0, id));
    }
    while row < total
        invariant
            schema@ == batch_schema(*b),
            schema@.fields.len() == batch_columns(*b).len(),
            total == batch_rows(*b),
            has_ids(*b),
            ids == batch_columns(*b)[first_named(batch_schema(*b).fields, "id"@)->0],
            column_len(ids) == batch_rows(*b),
            row <= total,
            forall|id: i32|
                match #[trigger] seen(earlier, *b, row as nat, id) {
                    Some((d, k)) => rows@.contains_key(id) && holds_row(rows@[id]@, d, k),
                    None => !rows@.contains_key(id),
                },
        decreases total - row,
    {
        let ghost before = rows@;
        let cells: NamedMap<Option<String>> = read_row(b, &schema, row);
        if let Some(id) = read_int32(&ids, row) {
            rows.insert(id, cells);
            assert forall|other: i32|
                match #[trigger] seen(earlier, *b, (row + 1) as nat, other) {
                    Some((d, k)) => rows@.contains_key(other) && holds_row(rows@[other]@, d, k),
                    None => !rows@.contains_key(other),
                } by {
                assert(match seen(earlier, *b, row as nat, other) {
                    Some((d, k)) => before.contains_key(other) && holds_row(before[other]@, d, k),
                    None => !before.contains_key(other),
                });
            }
        }
        row += 1;
    }
    proof {
        let more = earlier.push(*b);
        assert(more.drop_last() =~= earlier);
        let found = |id: i32| found_row(more, id);
        assert forall|id: i32|
            match #[trigger] found(id) {
                Some((d, k)) => rows@.contains_key(id) && holds_row(rows@[id]@, d, k),
                None => !rows@.contains_key(id),
            } by {
            assert(found(id) == seen(earlier, *b, total as nat, id));
        }
    }
}

/// The rows of batches by their `id`, each as texts by column name; of several rows with the
/// same `id` the last one counts.
pub fn rows_by_id(batches: &Vec<Batch>) -> (r: HashMap<i32, NamedMap<Option<String>>>)
    requires
        forall|k: int| 0 <= k < batches@.len() ==> has_ids(#[trigger] batches@[k]),
    ensures
        holds_rows(r@, |id: i32| found_row(batches@, id)),
{
    let mut rows: HashMap<i32, NamedMap<Option<String>>> = HashMap::new();
    let mut k: usize = 0;
    while k < batches.len()
        invariant
            forall|l: int| 0 <= l < batches@.len() ==> has_ids(#[trigger] batches@[l]),
            k <= batches@.len(),
            holds_rows(rows@, |id: i32| found_row(batches@.take(k as int), id)),
        decreases batches@.len() - k,
    {
        read_rows(&mut rows, &batches[k], Ghost(batches@.take(k as int)));
        assert(batches@.take(k as int).push(batches@[k as int]) =~= batches@.take(k + 1));
        k += 1;
    }
    assert(batches@.take(k as int) =~= batches@);
    rows
}

/// As [`rows_by_id`]; `None` where a batch has no column `id` of 32-bit integers.
pub fn rows_by_id_if_keyed(batches: &Vec<Batch>) -> (r: Option<
    HashMap<i32, NamedMap<Option<String>>>,
>)
    ensures
        match r {
            Some(rows) => holds_rows(rows@, |id: i32| found_row(batches@, id)),
            None => exists|k: int| 0 <= k < batches@.len() && !has_ids(#[trigger] batches@[k]),
        },
{
    let mut k: usize = 0;
    while k < batches.len()
        invariant
            k <= batches@.len(),
            forall|l: int| 0 <= l < k ==> has_ids(#[trigger] batches@[l]),
        decreases batches@.len() - k,
    {
        if !is_keyed(&batches[k]) {
            assert(!has_ids(batches@[k as int]));
            return None;
        }
        k += 1;
    }
    Some(rows_by_id(batches))
}

/// Whether the field of a struct column can be read as a 64-bit integer in a row: the batch has
/// the column and the row, and where the struct is not null, it has a field of that type.
pub open spec fn has_struct_int(
    b: Batch,
    struct_col: Seq<char>,
    field: Seq<char>,
    row: nat,
) -> bool {
    &&& row < batch_rows(b)
    &&& first_named(batch_schema(b).fields, struct_col) matches Some(i) && {
        ||| null_at(batch_columns(b)[i], row)
        ||| struct_field(batch_columns(b)[i], field) matches Some(f) && column_type(f)
            == ColumnType::Int64
    }
}

/// The 64-bit integer in a field of a struct column: `Some` where the struct is not null.
pub open spec fn struct_int(
    b: Batch,
    struct_col: Seq<char>,
    field: Seq<char>,
    row: nat,
) -> Option<i64> {
    let c = batch_columns(b)[first_named(batch_schema(b).fields, struct_col)->0];
    if null_at(c, row) {
        None
    } else {
        Some(integer_at(struct_field(c, field)->0, row) as i64)
    }
}

/// As [`struct_i64`]; the outer `None` stands for a batch without such a column, row or field.
pub fn struct_i64_if_present(batch: &Batch, struct_col: &str, field: &str, row: usize) -> (r: Option<
    Option<i64>,
>)
    ensures
        match r {
            Some(value) => has_struct_int(*batch, struct_col@, field@, row as nat) && value
                == struct_int(*batch, struct_col@, field@, row as nat),
            None => !has_struct_int(*batch, struct_col@, field@, row as nat),
        },
{
    let schema: SchemaDef = schema_of(batch);
    if row >= rows_of(batch) {
        return None;
    }
    let column: Column = match position_of(&schema.fields, struct_col) {
        Some(i) => column_at(batch, i),
        None => {
            return None;
        },
    };
    if is_null(&column, row) {
        return Some(None);
    }
    match read_field(&column, field) {
        Some(f) => match read_int64(&f, row) {
            Some(n) => Some(Some(n)),
            None => None,
        },
        None => None,
    }
}

/// Reads a 64-bit integer out of a struct column; `None` where the struct is null.
pub fn struct_i64(batch: &Batch, struct_col: &str, field: &str, row: usize) -> (r: Option<i64>)
    requires
        has_struct_int(*batch, struct_col@, field@, row as nat),
    ensures
        r == struct_int(*batch, struct_col@, field@, row as nat),
{
    match struct_i64_if_present(batch, struct_col, field, row) {
        Some(value) => value,
        None => unreached(),
    }
}

/// A null shows as nothing, an integer as its numeral and a text as itself.
pub proof fn cells_show_their_values(c: Column, row: nat)
    ensures
        cell_text(c, row) is None <==> null_at(c, row),
        !null_at(c, row) && (column_type(c) is Int64 || column_type(c) is Int32) ==> cell_text(
            c,
            row,
        ) == Some(decimal(integer_at(c, row))),
        !null_at(c, row) && column_type(c) is Utf8 ==> cell_text(c, row) == Some(text_at(c, row)),
        !null_at(c, row) && !(column_type(c) is Int64 || column_type(c) is Int32 || column_type(
            c,
        ) is Utf8) ==> cell_text(c, row) == Some("<other>"@),
{
}

/// A row has a value under the name of each column, that of the last column with the name, and
/// none under any other name.
pub proof fn row_goes_by_column_names(
    m: Map<Seq<char>, Option<String>>,
    b: Batch,
    row: nat,
    name: Seq<char>,
    c: int,
)
    requires
        holds_row(m, b, row),
        batch_schema(b).fields.len() == batch_columns(b).len(),
    ensures
        0 <= c < batch_columns(b).len() && batch_schema(b).fields[c].name == name && (forall|d: int|
            c < d < batch_columns(b).len() ==> (#[trigger] batch_schema(b).fields[d]).name != name)
            ==> m.contains_key(name) && optional_text(m[name]) == cell_text(
            batch_columns(b)[c],
            row,
        ),
        has_no_column(batch_schema(b).fields, name) ==> !m.contains_key(name),
{
    let entries = row_entries(b, row);
    let fields = batch_schema(b).fields;
    if 0 <= c < batch_columns(b).len() && fields[c].name == name && (forall|d: int|
        c < d < batch_columns(b).len() ==> (#[trigger] fields[d]).name != name) {
        assert forall|d: int| c < d < entries.len() implies (#[trigger] entries[d]).0 != name by {
            assert(fields[d].name != name);
        }
        last_named_at(entries, name, c);
    }
    if has_no_column(fields, name) {
        assert forall|d: int| 0 <= d < entries.len() implies (#[trigger] entries[d]).0 != name by {
            assert(fields[d].name != name);
        }
        last_named_nowhere(entries, name);
    }
    let found = last_named(entries, name);
}

/// The `id` of a row is what the first column of that name holds in it.
pub proof fn id_is_in_the_id_column(b: Batch, row: nat, c: int)
    requires
        is_first_column(batch_schema(b).fields, "id"@, c),
        column_type(batch_columns(b)[c]) == ColumnType::Int32,
        i32::MIN <= integer_at(batch_columns(b)[c], row) <= i32::MAX,
    ensures
        has_ids(b),
        id_of(b, row) == integer_at(batch_columns(b)[c], row),
{
    first_column_is_found(batch_schema(b).fields, "id"@);
}

/// A batch without a column `id`, or whose first one is of another type, has no ids.
pub proof fn no_id_column_no_ids(b: Batch, c: int)
    requires
        has_no_column(batch_schema(b).fields, "id"@) || (is_first_column(
            batch_schema(b).fields,
            "id"@,
            c,
        ) && column_type(batch_columns(b)[c]) != ColumnType::Int32),
    ensures
        !has_ids(b),
{
    first_column_is_found(batch_schema(b).fields, "id"@);
}

/// The row that is found for an `id` is the last one that has it: the last such row of the last
/// batch that has any. Nothing is found if and only if no row has it.
pub proof fn last_row_with_an_id_is_found(batches: Seq<Batch>, id: i32, k: int, row: nat)
    ensures
        0 <= k < batches.len() && row < batch_rows(batches[k]) && id_of(batches[k], row) == id && (
        forall|l: int, other: nat|
            #![trigger id_of(batches[l], other)]
            k <= l < batches.len() && other < batch_rows(batches[l]) && (l > k || other > row)
                ==> id_of(batches[l], other) != id) ==> found_row(batches, id) == Some(
            (batches[k], row),
        ),
        (forall|l: int, other: nat|
            #![trigger id_of(batches[l], other)]
            0 <= l < batches.len() && other < batch_rows(batches[l]) ==> id_of(batches[l], other)
                != id) <==> found_row(batches, id) is None,
    decreases batches.len(),
{
    if batches.len() > 0 {
        let shorter = batches.drop_last();
        let last = batches.last();
        let n = batches.len() - 1;
        assert(batches[n] == last);
        last_row_with_an_id_is_found(shorter, id, k, row);
        last_row_is_last(last, id, batch_rows(last), row);
        assert forall|l: int| 0 <= l < n implies #[trigger] shorter[l] == batches[l] by {}
        if found_row(batches, id) is None {
            assert forall|l: int, other: nat|
                #![trigger id_of(batches[l], other)]
                0 <= l < batches.len() && other < batch_rows(batches[l]) implies id_of(
                batches[l],
                other,
            ) != id by {
                if l < n {
                    assert(id_of(shorter[l], other) != id);
                }
            }
        }
        if forall|l: int, other: nat|
            #![trigger id_of(batches[l], other)]
            0 <= l < batches.len() && other < batch_rows(batches[l]) ==> id_of(batches[l], other)
                != id {
            assert forall|other: nat| other < batch_rows(last) implies #[trigger] id_of(last, other)
                != id by {
                assert(id_of(batches[n], other) != id);
            }
            assert forall|l: int, other: nat|
                #![trigger id_of(shorter[l], other)]
                0 <= l < shorter.len() && other < batch_rows(shorter[l]) implies id_of(
                shorter[l],
                other,
            ) != id by {
                assert(id_of(batches[l], other) != id);
            }
        }
        if 0 <= k < batches.len() && row < batch_rows(batches[k]) && id_of(batches[k], row) == id
            && (forall|l: int, other: nat|
            #![trigger id_of(batches[l], other)]
            k <= l < batches.len() && other < batch_rows(batches[l]) && (l > k || other > row)
                ==> id_of(batches[l], other) != id) {
            if k == n {
                assert forall|other: nat| row < other < batch_rows(last) implies #[trigger] id_of(
                    last,
                    other,
                ) != id by {
                    assert(id_of(batches[n], other) != id);
                }
            } else {
                assert forall|other: nat| other < batch_rows(last) implies #[trigger] id_of(
                    last,
                    other,
                ) != id by {
                    assert(id_of(batches[n], other) != id);
                }
                assert(shorter[k] == batches[k]);
                assert forall|l: int, other: nat|
                    #![trigger id_of(shorter[l], other)]
                    k <= l < shorter.len() && other < batch_rows(shorter[l]) && (l > k || other
                        > row) implies id_of(shorter[l], other) != id by {
                    assert(id_of(batches[l], other) != id);
                }
            }
        }
    }
}

proof fn last_row_is_last(b: Batch, id: i32, n: nat, row: nat)
    ensures
        row < n && id_of(b, row) == id && (forall|other: nat|
            row < other < n ==> #[trigger] id_of(b, other) != id) ==> last_row(b, id, n) == Some(row),
        (forall|other: nat| other < n ==> #[trigger] id_of(b, other) != id) <==> last_row(
            b,
            id,
            n,
        ) is None,
    decreases n,
{
    if n > 0 {
        last_row_is_last(b, id, (n - 1) as nat, row);
        if last_row(b, id, n) is Some && id_of(b, (n - 1) as nat) == id {
            assert(id_of(b, (n - 1) as nat) == id);
        }
        if last_row(b, id, n) is None {
            assert forall|other: nat| other < n implies #[trigger] id_of(b, other) != id by {
                if other == n - 1 {
                    assert(id_of(b, (n - 1) as nat) != id);
                }
            }
        }
    }
}

/// The integer of a struct column is that of the field with the name in the row, of the first
/// column with the name; it is none if and only if the struct is null.
pub proof fn struct_int_is_in_its_field(
    b: Batch,
    struct_col: Seq<char>,
    field: Seq<char>,
    row: nat,
    c: int,
    f: Column,
)
    requires
        row < batch_rows(b),
        is_first_column(batch_schema(b).fields, struct_col, c),
        struct_field(batch_columns(b)[c], field) == Some(f),
        column_type(f) == ColumnType::Int64,
        i64::MIN <= integer_at(f, row) <= i64::MAX,
    ensures
        has_struct_int(b, struct_col, field, row),
        struct_int(b, struct_col, field, row) is None <==> null_at(batch_columns(b)[c], row),
        struct_int(b, struct_col, field, row) matches Some(n) ==> n == integer_at(f, row),
{
    first_column_is_found(batch_schema(b).fields, struct_col);
}

/// Rows by `id` show, for each `id` that occurs, the last row that has it: under the name of each
/// column the value of the last column with the name, and under no other name anything. There are
/// no other rows.
pub proof fn last_rows_are_shown(
    rows: Map<i32, NamedMap<Option<String>>>,
    batches: Seq<Batch>,
    k: int,
    row: nat,
    c: int,
)
    requires
        holds_rows(rows, |id: i32| found_row(batches, id)),
        0 <= k < batches.len(),
        row < batch_rows(batches[k]),
        forall|l: int, other: nat|
            #![trigger id_of(batches[l], other)]
            k <= l < batches.len() && other < batch_rows(batches[l]) && (l > k || other > row)
                ==> id_of(batches[l], other) != id_of(batches[k], row),
        batch_schema(batches[k]).fields.len() == batch_columns(batches[k]).len(),
        0 <= c < batch_columns(batches[k]).len(),
        forall|d: int|
            c < d < batch_columns(batches[k]).len() ==> (#[trigger] batch_schema(
                batches[k],
            ).fields[d]).name != batch_schema(batches[k]).fields[c].name,
    ensures
        ({
            let id = id_of(batches[k], row);
            let name = batch_schema(batches[k]).fields[c].name;
            &&& rows.contains_key(id)
            &&& rows[id]@.contains_key(name)
            &&& optional_text(rows[id]@[name]) == cell_text(batch_columns(batches[k])[c], row)
        }),
{
    let id = id_of(batches[k], row);
    let found = |id: i32| found_row(batches, id);
    last_row_with_an_id_is_found(batches, id, k, row);
    assert(found(id) == Some((batches[k], row)));
    row_goes_by_column_names(
        rows[id]@,
        batches[k],
        row,
        batch_schema(batches[k]).fields[c].name,
        c,
    );
}

/// There is no row for an `id` that does not occur.
pub proof fn no_other_rows_are_shown(
    rows: Map<i32, NamedMap<Option<String>>>,
    batches: Seq<Batch>,
    id: i32,
)
    requires
        holds_rows(rows, |id: i32| found_row(batches, id)),
        forall|l: int, other: nat|
            #![trigger id_of(batches[l], other)]
            0 <= l < batches.len() && other < batch_rows(batches[l]) ==> id_of(batches[l], other)
                != id,
    ensures
        !rows.contains_key(id),
{
    let found = |id: i32| found_row(batches, id);
    last_row_with_an_id_is_found(batches, id, 0, 0);
    assert(found(id) is None);
}

} // verus!
