//! What holds of reconciled schemas, and of batches that are read with them.

use vstd::prelude::*;
use crate::batch::{
    all_null, batch_columns, batch_rows, batch_schema, column_len, column_nulls, column_step, column_type,
    column_types, comes_out, first_named, first_named_is_first, first_named_nowhere, fits_into,
    holds_column, is_adapted, is_whole, plainly_adapts, takes_nulls, Batch, ColumnStep,
};
use crate::error::CoreError;
use crate::schema::{
    absent_somewhere, all_fields, common_type, field_appears, first_names, first_names_distinct,
    has_field, is_float, is_integer, is_numeric, nullable_somewhere, reconciled,
    reconciled_field, same_columns, widened, ColumnType, FieldView, SchemaView,
};
use crate::type_shape::{marks_nulls, shape_of};

verus! {

/// Whether some schema has the column `name`.
pub open spec fn present_somewhere(schemas: Seq<SchemaView>, name: Seq<char>) -> bool {
    exists|s: int| 0 <= s < schemas.len() && has_field((#[trigger] schemas[s]).fields, name)
}

proof fn all_fields_has(schemas: Seq<SchemaView>, name: Seq<char>)
    ensures
        has_field(all_fields(schemas), name) <==> present_somewhere(schemas, name),
    decreases schemas.len(),
{
    if schemas.len() > 0 {
        let shorter = schemas.drop_last();
        let before = all_fields(shorter);
        let last = schemas.last().fields;
        let all = all_fields(schemas);
        all_fields_has(shorter, name);
        if has_field(all, name) {
            let i = choose|i: int| 0 <= i < all.len() && (#[trigger] all[i]).name == name;
            if i < before.len() {
                assert(before[i].name == name);
                let s = choose|s: int|
                    0 <= s < shorter.len() && has_field((#[trigger] shorter[s]).fields, name);
                assert(schemas[s] == shorter[s]);
            } else {
                assert(last[i - before.len()].name == name);
                assert(has_field(schemas[schemas.len() - 1].fields, name));
            }
        }
        if present_somewhere(schemas, name) {
            let s = choose|s: int|
                0 <= s < schemas.len() && has_field((#[trigger] schemas[s]).fields, name);
            if s < shorter.len() {
                assert(shorter[s] == schemas[s]);
                assert(has_field(before, name));
                let i = choose|i: int| 0 <= i < before.len() && (#[trigger] before[i]).name == name;
                assert(all[i].name == name);
            } else {
                let i = choose|i: int| 0 <= i < last.len() && (#[trigger] last[i]).name == name;
                assert(all[before.len() + i].name == name);
            }
        }
    }
}

/// Reconciling loses no column and makes none up.
pub proof fn reconciled_has_all_columns(schemas: Seq<SchemaView>, name: Seq<char>)
    ensures
        has_field(reconciled(schemas).fields, name) <==> present_somewhere(schemas, name),
{
    if schemas.len() > 0 {
        if same_columns(schemas) {
            if has_field(schemas[0].fields, name) {
                assert(present_somewhere(schemas, name));
            }
            if present_somewhere(schemas, name) {
                let s = choose|s: int|
                    0 <= s < schemas.len() && has_field((#[trigger] schemas[s]).fields, name);
                assert(schemas[s].fields == schemas[0].fields);
            }
        } else {
            let all = all_fields(schemas);
            let names = first_names(all);
            let fields = reconciled(schemas).fields;
            all_fields_has(schemas, name);
            field_appears(all, name);
            if names.contains(name) {
                let i = choose|i: int| 0 <= i < names.len() && names[i] == name;
                assert(fields[i].name == name);
            }
            if has_field(fields, name) {
                let i = choose|i: int| 0 <= i < fields.len() && (#[trigger] fields[i]).name == name;
                assert(names[i] == name);
            }
        }
    } else {
        if has_field(reconciled(schemas).fields, name) {
            let i = choose|i: int|
                0 <= i < reconciled(schemas).fields.len() && (#[trigger] reconciled(
                    schemas,
                ).fields[i]).name == name;
        }
    }
}

/// Where the schemas differ, the reconciled schema has each column once.
pub proof fn reconciled_columns_are_distinct(schemas: Seq<SchemaView>, i: int, j: int)
    requires
        !same_columns(schemas),
        0 <= i < j < reconciled(schemas).fields.len(),
    ensures
        reconciled(schemas).fields[i].name != reconciled(schemas).fields[j].name,
{
    first_names_distinct(all_fields(schemas));
    let names = first_names(all_fields(schemas));
    assert(names[i] != names[j]);
}

/// Where the schemas differ, a column is nullable if and only if it may hold nulls in some schema
/// or is missing from one.
pub proof fn reconciled_nullability(schemas: Seq<SchemaView>, i: int)
    requires
        !same_columns(schemas),
        0 <= i < reconciled(schemas).fields.len(),
    ensures
        ({
            let f = reconciled(schemas).fields[i];
            f.nullable <==> nullable_somewhere(all_fields(schemas), f.name) || absent_somewhere(
                schemas,
                f.name,
            )
        }),
{
}

/// A column that one of the schemas lacks is nullable in the reconciled schema, so that rows of
/// that schema can be filled with nulls.
pub proof fn lacking_column_is_nullable(schemas: Seq<SchemaView>, s: int, i: int)
    requires
        0 <= s < schemas.len(),
        0 <= i < reconciled(schemas).fields.len(),
        !has_field(schemas[s].fields, reconciled(schemas).fields[i].name),
    ensures
        reconciled(schemas).fields[i].nullable,
{
    if same_columns(schemas) {
        assert(schemas[s].fields == schemas[0].fields);
        assert(schemas[0].fields[i].name == reconciled(schemas).fields[i].name);
    } else {
        assert(absent_somewhere(schemas, reconciled(schemas).fields[i].name));
    }
}

/// Schemas with the same columns are reconciled to the first of them, unchanged.
pub proof fn same_columns_are_kept(schemas: Seq<SchemaView>)
    requires
        schemas.len() > 0,
        same_columns(schemas),
    ensures
        reconciled(schemas) == schemas[0],
{
}

proof fn reconciled_again_in(schemas: Seq<SchemaView>, n: int, name: Seq<char>)
    requires
        schemas.len() > 0,
        !same_columns(schemas),
        0 <= n <= reconciled(schemas).fields.len(),
    ensures
        ({
            let all = all_fields(schemas);
            let more = all + reconciled(schemas).fields.take(n);
            &&& first_names(more) == first_names(all)
            &&& common_type(more, name) == common_type(all, name)
        }),
    decreases n,
{
    let all = all_fields(schemas);
    let fields = reconciled(schemas).fields;
    let names = first_names(all);
    if n == 0 {
        assert(all + fields.take(0) =~= all);
    } else {
        reconciled_again_in(schemas, n - 1, name);
        assert((all + fields.take(n)).drop_last() =~= all + fields.take(n - 1));
        let last = fields[n - 1];
        assert((all + fields.take(n)).last() == last);
        assert(last.name == names[n - 1]);
        assert(names.contains(last.name));
        field_appears(all, last.name);
    }
}

/// Reconciling schemas once more, together with what they were reconciled to, changes nothing.
pub proof fn reconciled_is_settled(schemas: Seq<SchemaView>)
    ensures
        reconciled(schemas.push(reconciled(schemas))) == reconciled(schemas),
{
    let again = schemas.push(reconciled(schemas));
    if schemas.len() == 0 {
        assert(same_columns(again));
    } else if same_columns(schemas) {
        assert forall|i: int| 0 <= i < again.len() implies (#[trigger] again[i]).fields
            == again[0].fields by {
            if i < schemas.len() {
                assert(again[i] == schemas[i]);
            }
        }
    } else {
        let i = choose|i: int|
            0 <= i < schemas.len() && (#[trigger] schemas[i]).fields != schemas[0].fields;
        assert(again[i] == schemas[i] && again[0] == schemas[0]);
        assert(!same_columns(again));
        let all = all_fields(schemas);
        let fields = reconciled(schemas).fields;
        let names = first_names(all);
        assert(again.drop_last() =~= schemas);
        assert(fields.take(fields.len() as int) =~= fields);
        let more = all_fields(again);
        assert(more == all + fields);
        reconciled_again_in(schemas, fields.len() as int, Seq::empty());
        assert forall|k: int| 0 <= k < names.len() implies reconciled_field(
            again,
            #[trigger] names[k],
        ) == fields[k] by {
            let name = names[k];
            reconciled_again_in(schemas, fields.len() as int, name);
            assert(fields[k].name == name);
            if nullable_somewhere(more, name) {
                let m = choose|m: int|
                    0 <= m < more.len() && (#[trigger] more[m]).name == name && more[m].nullable;
                if m < all.len() {
                    assert(all[m] == more[m]);
                } else {
                    assert(fields[m - all.len()] == more[m]);
                    assert(names[m - all.len()] == name);
                }
            }
            if nullable_somewhere(all, name) {
                let m = choose|m: int|
                    0 <= m < all.len() && (#[trigger] all[m]).name == name && all[m].nullable;
                assert(more[m] == all[m]);
            }
            assert(has_field(fields, name));
            if absent_somewhere(again, name) {
                let m = choose|m: int|
                    0 <= m < again.len() && !has_field((#[trigger] again[m]).fields, name);
                assert(again[m] == schemas[m]);
            }
            if absent_somewhere(schemas, name) {
                let m = choose|m: int|
                    0 <= m < schemas.len() && !has_field((#[trigger] schemas[m]).fields, name);
                assert(again[m] == schemas[m]);
            }
        }
        assert(reconciled(again).fields =~= fields);
    }
}

/// The columns of the first schema come first, in their order, if it has each of them once.
pub proof fn first_schema_leads(schemas: Seq<SchemaView>, i: int)
    requires
        schemas.len() > 0,
        forall|a: int, b: int|
            0 <= a < b < schemas[0].fields.len() ==> (#[trigger] schemas[0].fields[a]).name != (
            #[trigger] schemas[0].fields[b]).name,
        0 <= i < schemas[0].fields.len(),
    ensures
        i < reconciled(schemas).fields.len(),
        reconciled(schemas).fields[i].name == schemas[0].fields[i].name,
{
    if !same_columns(schemas) {
        leading_names(schemas);
    }
}

spec fn names_are_prefix(fields: Seq<FieldView>, names: Seq<Seq<char>>) -> bool {
    &&& fields.len() <= names.len()
    &&& forall|i: int| 0 <= i < fields.len() ==> names[i] == (#[trigger] fields[i]).name
}

proof fn leading_names(schemas: Seq<SchemaView>)
    requires
        schemas.len() > 0,
        forall|a: int, b: int|
            0 <= a < b < schemas[0].fields.len() ==> (#[trigger] schemas[0].fields[a]).name != (
            #[trigger] schemas[0].fields[b]).name,
    ensures
        names_are_prefix(schemas[0].fields, first_names(all_fields(schemas))),
    decreases schemas.len(),
{
    let first = schemas[0].fields;
    if schemas.len() == 1 {
        assert(all_fields(schemas.drop_last()) =~= Seq::empty());
        assert(all_fields(schemas) =~= first);
        distinct_names(first);
    } else {
        let shorter = schemas.drop_last();
        assert(shorter[0] == schemas[0]);
        leading_names(shorter);
        names_grow(all_fields(shorter), schemas.last().fields);
        let before = first_names(all_fields(shorter));
        let after = first_names(all_fields(schemas));
        assert forall|i: int| 0 <= i < first.len() implies after[i] == (#[trigger] first[i]).name by {
            assert(after.take(before.len() as int)[i] == before[i]);
        }
    }
}

proof fn distinct_names(fields: Seq<FieldView>)
    requires
        forall|a: int, b: int|
            0 <= a < b < fields.len() ==> (#[trigger] fields[a]).name != (#[trigger] fields[b]).name,
    ensures
        names_are_prefix(fields, first_names(fields)),
        first_names(fields).len() == fields.len(),
    decreases fields.len(),
{
    if fields.len() > 0 {
        let shorter = fields.drop_last();
        assert forall|a: int, b: int| 0 <= a < b < shorter.len() implies (
        #[trigger] shorter[a]).name != (#[trigger] shorter[b]).name by {
            assert(fields[a].name != fields[b].name);
        }
        distinct_names(shorter);
        let before = first_names(shorter);
        let last = fields.last().name;
        if before.contains(last) {
            let k = choose|k: int| 0 <= k < before.len() && before[k] == last;
            assert(shorter[k].name == before[k]);
            assert(fields[k].name != fields[fields.len() - 1].name);
        }
        let after = first_names(fields);
        assert forall|i: int| 0 <= i < fields.len() implies after[i] == (#[trigger] fields[i]).name by {
            if i < shorter.len() {
                assert(shorter[i] == fields[i]);
            }
        }
    }
}

proof fn names_grow(fields: Seq<FieldView>, more: Seq<FieldView>)
    ensures
        first_names(fields + more).len() >= first_names(fields).len(),
        first_names(fields + more).take(first_names(fields).len() as int) == first_names(fields),
    decreases more.len(),
{
    let names = first_names(fields);
    if more.len() == 0 {
        assert(fields + more =~= fields);
        assert(names.take(names.len() as int) =~= names);
    } else {
        names_grow(fields, more.drop_last());
        assert((fields + more).drop_last() =~= fields + more.drop_last());
        let before = first_names(fields + more.drop_last());
        let after = first_names(fields + more);
        assert(after.take(names.len() as int) =~= before.take(names.len() as int));
    }
}

/// Whether every appearance of the column `name` satisfies a condition on its type.
pub open spec fn always(
    fields: Seq<FieldView>,
    name: Seq<char>,
    holds: spec_fn(ColumnType) -> bool,
) -> bool {
    forall|i: int|
        0 <= i < fields.len() && (#[trigger] fields[i]).name == name ==> holds(fields[i].data_type)
}

/// A column that is of one type everywhere keeps it.
pub proof fn agreed_type_is_kept(fields: Seq<FieldView>, name: Seq<char>, t: ColumnType)
    requires
        has_field(fields, name),
        always(fields, name, |u: ColumnType| u == t),
    ensures
        common_type(fields, name) == Some(t),
    decreases fields.len(),
{
    field_appears(fields, name);
    let shorter = fields.drop_last();
    assert forall|i: int| 0 <= i < shorter.len() && (#[trigger] shorter[i]).name == name implies
        shorter[i].data_type == t by {
        assert(fields[i] == shorter[i]);
    }
    field_appears(shorter, name);
    if has_field(shorter, name) {
        agreed_type_is_kept(shorter, name, t);
    }
    if fields.last().name == name {
        assert(fields[fields.len() - 1].data_type == t);
    }
}

/// A column that is an integer everywhere stays one: its own type where all agree, a 64-bit
/// integer where they do not.
pub proof fn integers_stay_integers(fields: Seq<FieldView>, name: Seq<char>)
    requires
        has_field(fields, name),
        always(fields, name, |t: ColumnType| is_integer(t)),
    ensures
        common_type(fields, name) matches Some(t) && is_integer(t),
        common_type(fields, name) == Some(ColumnType::Int64) || always(
            fields,
            name,
            |t: ColumnType| common_type(fields, name) == Some(t),
        ),
    decreases fields.len(),
{
    field_appears(fields, name);
    let shorter = fields.drop_last();
    assert forall|i: int| 0 <= i < shorter.len() && (#[trigger] shorter[i]).name == name implies
        is_integer(shorter[i].data_type) by {
        assert(fields[i] == shorter[i]);
    }
    field_appears(shorter, name);
    let last = fields[fields.len() - 1];
    assert(last == fields.last());
    if has_field(shorter, name) {
        integers_stay_integers(shorter, name);
        let before = common_type(shorter, name);
        if common_type(fields, name) != Some(ColumnType::Int64) {
            assert forall|i: int| 0 <= i < fields.len() && (#[trigger] fields[i]).name
                == name implies common_type(fields, name) == Some(fields[i].data_type) by {
                if i < shorter.len() {
                    assert(shorter[i] == fields[i]);
                    assert(before == Some(shorter[i].data_type));
                }
            }
        }
    } else {
        assert forall|i: int| 0 <= i < fields.len() && (#[trigger] fields[i]).name
            == name implies common_type(fields, name) == Some(fields[i].data_type) by {
            if i < shorter.len() {
                assert(shorter[i] == fields[i]);
            }
        }
    }
}

/// A column that is a number everywhere and a floating point number somewhere is read as a
/// floating point number.
pub proof fn floats_stay_floats(fields: Seq<FieldView>, name: Seq<char>, i: int)
    requires
        0 <= i < fields.len(),
        fields[i].name == name,
        is_float(fields[i].data_type),
        always(fields, name, |t: ColumnType| is_numeric(t)),
    ensures
        common_type(fields, name) matches Some(t) && is_float(t),
    decreases fields.len(),
{
    field_appears(fields, name);
    assert(has_field(fields, name));
    let shorter = fields.drop_last();
    assert forall|k: int| 0 <= k < shorter.len() && (#[trigger] shorter[k]).name == name implies
        is_numeric(shorter[k].data_type) by {
        assert(fields[k] == shorter[k]);
    }
    let last = fields[fields.len() - 1];
    assert(last == fields.last());
    if i < shorter.len() {
        assert(shorter[i] == fields[i]);
        floats_stay_floats(shorter, name, i);
    } else {
        numbers_stay_numbers(shorter, name);
    }
}

/// A column that is a number everywhere stays one.
pub proof fn numbers_stay_numbers(fields: Seq<FieldView>, name: Seq<char>)
    requires
        always(fields, name, |t: ColumnType| is_numeric(t)),
    ensures
        common_type(fields, name) matches Some(t) ==> is_numeric(t),
    decreases fields.len(),
{
    if fields.len() > 0 {
        let shorter = fields.drop_last();
        assert forall|k: int| 0 <= k < shorter.len() && (#[trigger] shorter[k]).name == name implies
            is_numeric(shorter[k].data_type) by {
            assert(fields[k] == shorter[k]);
        }
        numbers_stay_numbers(shorter, name);
        assert(fields[fields.len() - 1] == fields.last());
    }
}

/// Whether a column is a number that a 64-bit integer or float can always be read from.
pub open spec fn is_plain_number(t: ColumnType) -> bool {
    is_numeric(t) && t !is UInt64
}

/// A column that is a plain number everywhere is read as a type that each of its appearances
/// has or fits into.
pub proof fn plain_numbers_fit(fields: Seq<FieldView>, name: Seq<char>)
    requires
        has_field(fields, name),
        always(fields, name, |t: ColumnType| is_plain_number(t)),
    ensures
        always(
            fields,
            name,
            |t: ColumnType|
                common_type(fields, name) == Some(t) || fits_into(
                    t,
                    common_type(fields, name)->0,
                ),
        ),
    decreases fields.len(),
{
    field_appears(fields, name);
    let shorter = fields.drop_last();
    assert forall|i: int| 0 <= i < shorter.len() && (#[trigger] shorter[i]).name == name implies
        is_plain_number(shorter[i].data_type) by {
        assert(fields[i] == shorter[i]);
    }
    assert forall|i: int| 0 <= i < shorter.len() && (#[trigger] shorter[i]).name == name implies
        is_numeric(shorter[i].data_type) by {
        assert(is_plain_number(shorter[i].data_type));
    }
    field_appears(shorter, name);
    numbers_stay_numbers(shorter, name);
    let last = fields[fields.len() - 1];
    assert(last == fields.last());
    let before = common_type(shorter, name);
    let after = common_type(fields, name);
    if has_field(shorter, name) {
        plain_numbers_fit(shorter, name);
    }
    assert forall|i: int| 0 <= i < fields.len() && (#[trigger] fields[i]).name == name implies after
        == Some(fields[i].data_type) || fits_into(fields[i].data_type, after->0) by {
        if i < shorter.len() {
            assert(shorter[i] == fields[i]);
            let t = shorter[i].data_type;
            assert(before == Some(t) || fits_into(t, before->0));
        }
    }
}

/// Whether the column `f` was of one type all along, or always a plain number.
pub open spec fn evolved_plainly(schemas: Seq<SchemaView>, f: FieldView) -> bool {
    ||| always(all_fields(schemas), f.name, |t: ColumnType| t == f.data_type)
    ||| always(all_fields(schemas), f.name, |t: ColumnType| is_plain_number(t))
}

proof fn all_fields_at(schemas: Seq<SchemaView>, s: int, i: int) -> (k: int)
    requires
        0 <= s < schemas.len(),
        0 <= i < schemas[s].fields.len(),
    ensures
        0 <= k < all_fields(schemas).len(),
        all_fields(schemas)[k] == schemas[s].fields[i],
    decreases schemas.len(),
{
    let shorter = schemas.drop_last();
    if s == schemas.len() - 1 {
        all_fields(shorter).len() + i
    } else {
        assert(shorter[s] == schemas[s]);
        all_fields_at(shorter, s, i)
    }
}

/// A batch of one of several schemas can be adapted to what they are reconciled to, if their
/// columns only changed from one plain number to another.
pub proof fn evolved_batch_adapts(schemas: Seq<SchemaView>, s: int, b: Batch)
    requires
        0 <= s < schemas.len(),
        schemas[s].fields.len() <= usize::MAX,
        batch_schema(b).fields == schemas[s].fields,
        is_whole(b),
        forall|k: int|
            0 <= k < reconciled(schemas).fields.len() ==> evolved_plainly(
                schemas,
                #[trigger] reconciled(schemas).fields[k],
            ),
    ensures
        batch_schema(b).fields == reconciled(schemas).fields || plainly_adapts(
            b,
            reconciled(schemas).fields,
        ),
{
    let own = schemas[s].fields;
    let target = reconciled(schemas).fields;
    let all = all_fields(schemas);
    let types = column_types(batch_columns(b));
    if same_columns(schemas) {
        assert(schemas[s].fields == schemas[0].fields);
    } else {
        if own.len() > 0 {
            assert(has_field(own, own[0].name));
            assert(present_somewhere(schemas, own[0].name));
            reconciled_has_all_columns(schemas, own[0].name);
        } else if target.len() == 0 {
            assert(own =~= target);
        }
        assert forall|k: int| 0 <= k < target.len() implies comes_out(b, #[trigger] target[k])
            && takes_nulls(b, target[k]) by {
            let f = target[k];
            match first_named(own, f.name) {
                Some(i) => {
                    first_named_is_first(own, f.name, i);
                    assert(types[i] == column_type(batch_columns(b)[i]));
                    let n = all_fields_at(schemas, s, i);
                    assert(has_field(all, f.name));
                    field_appears(all, f.name);
                    if always(all, f.name, |t: ColumnType| is_plain_number(t)) {
                        plain_numbers_fit(all, f.name);
                        assert forall|m: int| 0 <= m < all.len() && (#[trigger] all[m]).name
                            == f.name implies is_numeric(all[m].data_type) by {
                            assert(is_plain_number(all[m].data_type));
                        }
                        numbers_stay_numbers(all, f.name);
                    }
                    assert(own[i].nullable ==> nullable_somewhere(all, f.name));
                },
                None => {
                    first_named_nowhere(own, f.name);
                    lacking_column_is_nullable(schemas, s, k);
                },
            }
        }
    }
}

/// Whether no two columns have the same name.
pub open spec fn names_differ(fields: Seq<FieldView>) -> bool {
    forall|i: int, j: int|
        0 <= i < j < fields.len() ==> (#[trigger] fields[i]).name != (#[trigger] fields[j]).name
}

/// Whether columns of the same name are of the same type, whichever schema they are of.
pub open spec fn types_agree(schemas: Seq<SchemaView>) -> bool {
    forall|i: int, j: int|
        #![trigger all_fields(schemas)[i], all_fields(schemas)[j]]
        0 <= i < all_fields(schemas).len() && 0 <= j < all_fields(schemas).len() && all_fields(
            schemas,
        )[i].name == all_fields(schemas)[j].name ==> all_fields(schemas)[i].data_type == all_fields(
            schemas,
        )[j].data_type
}

/// A batch of one of several schemas that agree in their types is adapted to what they are
/// reconciled to: the outcome has the columns of the target and the rows of the batch, each
/// column of the batch stands in it as it was, and the others are of nulls.
pub proof fn agreed_batch_is_kept(
    schemas: Seq<SchemaView>,
    s: int,
    b: Batch,
    r: Result<Batch, CoreError>,
)
    requires
        0 <= s < schemas.len(),
        schemas[s].fields.len() <= usize::MAX,
        forall|k: int| 0 <= k < schemas.len() ==> names_differ((#[trigger] schemas[k]).fields),
        types_agree(schemas),
        batch_schema(b).fields == schemas[s].fields,
        is_whole(b),
        is_adapted(b, reconciled(schemas), r),
    ensures
        r is Ok,
        batch_schema(r->Ok_0).fields == reconciled(schemas).fields,
        batch_rows(r->Ok_0) == batch_rows(b),
        forall|k: int, i: int|
            0 <= k < reconciled(schemas).fields.len() && 0 <= i < schemas[s].fields.len()
                && (#[trigger] reconciled(schemas).fields[k]).name == (
            #[trigger] schemas[s].fields[i]).name ==> batch_columns(r->Ok_0)[k] == batch_columns(
                b,
            )[i],
        forall|k: int|
            0 <= k < reconciled(schemas).fields.len() && !has_field(
                schemas[s].fields,
                (#[trigger] reconciled(schemas).fields[k]).name,
            ) ==> {
                let c = batch_columns(r->Ok_0)[k];
                &&& column_type(c) == reconciled(schemas).fields[k].data_type
                &&& column_len(c) == batch_rows(b)
                &&& marks_nulls(shape_of(column_type(c))) ==> column_nulls(c) == batch_rows(b)
                    && all_null(c)
            },
{
    let own = schemas[s].fields;
    let target = reconciled(schemas).fields;
    let all = all_fields(schemas);
    if same_columns(schemas) {
        assert(schemas[s].fields == schemas[0].fields);
    }
    if own == target {
        assert forall|k: int, i: int|
            0 <= k < target.len() && 0 <= i < own.len() && (#[trigger] target[k]).name == (
            #[trigger] own[i]).name implies k == i by {
            assert(names_differ(schemas[s].fields));
            assert(own[k].name == own[i].name);
        }
        assert forall|k: int| 0 <= k < target.len() implies has_field(
            own,
            (#[trigger] target[k]).name,
        ) by {
            assert(own[k].name == target[k].name);
        }
    } else {
        assert forall|k: int| 0 <= k < target.len() implies evolved_plainly(
            schemas,
            #[trigger] target[k],
        ) by {
            let f = target[k];
            assert(first_names(all)[k] == f.name);
            assert(first_names(all).contains(f.name));
            field_appears(all, f.name);
            let m = choose|m: int| 0 <= m < all.len() && (#[trigger] all[m]).name == f.name;
            let t = all[m].data_type;
            assert(always(all, f.name, |u: ColumnType| u == t));
            agreed_type_is_kept(all, f.name, t);
            assert(always(all, f.name, |u: ColumnType| u == f.data_type));
        }
        evolved_batch_adapts(schemas, s, b);
        let a = r->Ok_0;
        assert forall|k: int, i: int|
            0 <= k < target.len() && 0 <= i < own.len() && (#[trigger] target[k]).name == (
            #[trigger] own[i]).name implies batch_columns(a)[k] == batch_columns(b)[i] by {
            kept_column(schemas, s, b, k, i);
            assert(holds_column(b, target[k], batch_columns(a)[k]));
        }
        assert forall|k: int|
            0 <= k < target.len() && !has_field(own, (#[trigger] target[k]).name) implies ({
            let c = batch_columns(a)[k];
            &&& column_type(c) == target[k].data_type
            &&& column_len(c) == batch_rows(b)
            &&& marks_nulls(shape_of(column_type(c))) ==> column_nulls(c) == batch_rows(b)
                && all_null(c)
        }) by {
            first_named_nowhere(own, target[k].name);
            assert(holds_column(b, target[k], batch_columns(a)[k]));
        }
        if has_field(own, target[0].name) {
            let i = choose|i: int|
                0 <= i < own.len() && (#[trigger] own[i]).name == target[0].name;
            assert(batch_columns(a)[0] == batch_columns(b)[i]);
            assert(column_len(batch_columns(b)[i]) == batch_rows(b));
        }
    }
}

/// A column that the batch has under the name and in the type of the target is kept.
proof fn kept_column(schemas: Seq<SchemaView>, s: int, b: Batch, k: int, i: int)
    requires
        0 <= s < schemas.len(),
        !same_columns(schemas),
        schemas[s].fields.len() <= usize::MAX,
        names_differ(schemas[s].fields),
        types_agree(schemas),
        batch_schema(b).fields == schemas[s].fields,
        is_whole(b),
        0 <= k < reconciled(schemas).fields.len(),
        0 <= i < schemas[s].fields.len(),
        reconciled(schemas).fields[k].name == schemas[s].fields[i].name,
    ensures
        column_step(
            batch_schema(b).fields,
            column_types(batch_columns(b)),
            reconciled(schemas).fields[k],
        ) == ColumnStep::Keep(i as usize),
{
    let own = schemas[s].fields;
    let f = reconciled(schemas).fields[k];
    let all = all_fields(schemas);
    assert forall|m: int| 0 <= m < i implies (#[trigger] own[m]).name != f.name by {
        assert(own[m].name != own[i].name);
    }
    first_named_is_first(own, f.name, i);
    let n = all_fields_at(schemas, s, i);
    let t = own[i].data_type;
    assert forall|m: int| 0 <= m < all.len() && (#[trigger] all[m]).name == f.name implies
        all[m].data_type == t by {
        assert(all[n].name == all[m].name);
    }
    assert(has_field(all, f.name));
    assert(always(all, f.name, |u: ColumnType| u == t));
    agreed_type_is_kept(all, f.name, t);
    assert(column_types(batch_columns(b))[i] == column_type(batch_columns(b)[i]));
}

/// Whether the column at place `i` of the schema at place `s` is called `name`.
pub open spec fn appears_at(schemas: Seq<SchemaView>, s: int, i: int, name: Seq<char>) -> bool {
    0 <= s < schemas.len() && 0 <= i < schemas[s].fields.len() && schemas[s].fields[i].name == name
}

/// Whether one place of a column is older than another: in an earlier schema, or earlier in the
/// same one.
pub open spec fn is_older(s: int, i: int, t: int, j: int) -> bool {
    s < t || (s == t && i < j)
}

/// Whether the newest appearance of the column `name` is at the given place.
pub open spec fn is_newest(schemas: Seq<SchemaView>, s: int, i: int, name: Seq<char>) -> bool {
    &&& appears_at(schemas, s, i, name)
    &&& forall|t: int, j: int|
        is_older(s, i, t, j) ==> !#[trigger] appears_at(schemas, t, j, name)
}

/// Whether the column `name` does not appear in the schema at place `s`.
pub open spec fn is_lacked(schemas: Seq<SchemaView>, s: int, name: Seq<char>) -> bool {
    0 <= s < schemas.len() && forall|i: int| !#[trigger] appears_at(schemas, s, i, name)
}

/// Whether the schemas differ in their columns, or have each column once.
pub open spec fn tell_columns_apart(schemas: Seq<SchemaView>) -> bool {
    ||| exists|p: int|
        0 <= p < schemas.len() && (#[trigger] schemas[p]).fields != schemas[0].fields
    ||| schemas.len() > 0 && names_differ(schemas[0].fields)
}

/// The place of a column among the columns of all schemas.
spec fn flat_place(schemas: Seq<SchemaView>, s: int, i: int) -> int {
    all_fields(schemas.take(s)).len() + i
}

proof fn flat_place_is_right(schemas: Seq<SchemaView>, s: int, i: int)
    requires
        0 <= s < schemas.len(),
        0 <= i < schemas[s].fields.len(),
    ensures
        0 <= flat_place(schemas, s, i) < all_fields(schemas.take(s + 1)).len(),
        all_fields(schemas.take(s + 1)).len() <= all_fields(schemas).len(),
        all_fields(schemas)[flat_place(schemas, s, i)] == schemas[s].fields[i],
    decreases schemas.len(),
{
    let shorter = schemas.drop_last();
    assert(schemas.take(s + 1).drop_last() =~= schemas.take(s));
    if s == schemas.len() - 1 {
        assert(schemas.take(s) =~= shorter);
        assert(schemas.take(s + 1) =~= schemas);
    } else {
        assert(shorter[s] == schemas[s]);
        flat_place_is_right(shorter, s, i);
        assert(shorter.take(s) =~= schemas.take(s));
        assert(shorter.take(s + 1) =~= schemas.take(s + 1));
    }
}

proof fn flat_places_grow(schemas: Seq<SchemaView>, s: int, t: int)
    requires
        0 <= s <= t <= schemas.len(),
    ensures
        all_fields(schemas.take(s)).len() <= all_fields(schemas.take(t)).len(),
    decreases t,
{
    if s < t {
        flat_places_grow(schemas, s, t - 1);
        assert(schemas.take(t).drop_last() =~= schemas.take(t - 1));
    }
}

proof fn flat_places_are_ordered(schemas: Seq<SchemaView>, s: int, i: int, t: int, j: int)
    requires
        0 <= s < schemas.len(),
        0 <= i < schemas[s].fields.len(),
        0 <= t < schemas.len(),
        0 <= j < schemas[t].fields.len(),
    ensures
        is_older(s, i, t, j) <==> flat_place(schemas, s, i) < flat_place(schemas, t, j),
{
    flat_place_is_right(schemas, s, i);
    flat_place_is_right(schemas, t, j);
    if s < t {
        flat_places_grow(schemas, s + 1, t);
    }
    if t < s {
        flat_places_grow(schemas, t + 1, s);
    }
}

proof fn flat_place_of(schemas: Seq<SchemaView>, m: int) -> (r: (int, int))
    requires
        0 <= m < all_fields(schemas).len(),
    ensures
        0 <= r.0 < schemas.len(),
        0 <= r.1 < schemas[r.0].fields.len(),
        flat_place(schemas, r.0, r.1) == m,
    decreases schemas.len(),
{
    let shorter = schemas.drop_last();
    if m < all_fields(shorter).len() {
        let (s, i) = flat_place_of(shorter, m);
        assert(shorter[s] == schemas[s]);
        assert(shorter.take(s) =~= schemas.take(s));
        (s, i)
    } else {
        let s = schemas.len() - 1;
        assert(schemas.take(s) =~= shorter);
        (s, m - all_fields(shorter).len())
    }
}

/// Columns with other names make no difference to a common type.
proof fn common_type_stays(fields: Seq<FieldView>, name: Seq<char>, m: int)
    requires
        0 <= m <= fields.len(),
        forall|k: int| m <= k < fields.len() ==> (#[trigger] fields[k]).name != name,
    ensures
        common_type(fields, name) == common_type(fields.take(m), name),
    decreases fields.len(),
{
    if m == fields.len() {
        assert(fields.take(m) =~= fields);
    } else {
        let shorter = fields.drop_last();
        assert(fields[fields.len() - 1].name != name);
        assert forall|k: int| m <= k < shorter.len() implies (#[trigger] shorter[k]).name != name by {
            assert(shorter[k] == fields[k]);
        }
        common_type_stays(shorter, name, m);
        assert(shorter.take(m) =~= fields.take(m));
    }
}

proof fn common_type_steps(fields: Seq<FieldView>, name: Seq<char>, m: int)
    requires
        0 <= m < fields.len(),
        fields[m].name == name,
    ensures
        common_type(fields.take(m + 1), name) == match common_type(fields.take(m), name) {
            Some(t) => Some(widened(t, fields[m].data_type)),
            None => Some(fields[m].data_type),
        },
{
    assert(fields.take(m + 1).drop_last() =~= fields.take(m));
}

/// The column of a reconciled schema is of the common type of its appearances.
proof fn reconciled_type(schemas: Seq<SchemaView>, k: int)
    requires
        !same_columns(schemas),
        0 <= k < reconciled(schemas).fields.len(),
    ensures
        common_type(all_fields(schemas), reconciled(schemas).fields[k].name) == Some(
            reconciled(schemas).fields[k].data_type,
        ),
{
    let all = all_fields(schemas);
    let name = reconciled(schemas).fields[k].name;
    assert(first_names(all)[k] == name);
    assert(first_names(all).contains(name));
    field_appears(all, name);
}

/// The type of a column whose newest appearance is no number is that of its newest appearance,
/// whatever types it had before.
pub proof fn newest_type_is_chosen(schemas: Seq<SchemaView>, k: int, s: int, i: int)
    requires
        tell_columns_apart(schemas),
        0 <= k < reconciled(schemas).fields.len(),
        is_newest(schemas, s, i, reconciled(schemas).fields[k].name),
        !is_numeric(schemas[s].fields[i].data_type),
    ensures
        reconciled(schemas).fields[k].data_type == schemas[s].fields[i].data_type,
{
    let name = reconciled(schemas).fields[k].name;
    if same_columns(schemas) {
        assert(schemas[s].fields == schemas[0].fields);
        assert(schemas[0].fields[i].name == schemas[0].fields[k].name);
    } else {
        reconciled_type(schemas, k);
        newest_is_last(schemas, s, i, name);
    }
}

/// The type of a column that was no number before its newest appearance is that of its newest
/// appearance; so is that of a column that appears once.
pub proof fn newest_type_replaces(schemas: Seq<SchemaView>, k: int, s: int, i: int, t: int, j: int)
    requires
        tell_columns_apart(schemas),
        0 <= k < reconciled(schemas).fields.len(),
        is_newest(schemas, s, i, reconciled(schemas).fields[k].name),
        // No appearance stands between the two.
        forall|u: int, l: int|
            is_older(t, j, u, l) && is_older(u, l, s, i) ==> !#[trigger] appears_at(
                schemas,
                u,
                l,
                reconciled(schemas).fields[k].name,
            ),
        // The one before the newest is no number, or there is none.
        (appears_at(schemas, t, j, reconciled(schemas).fields[k].name) && is_older(t, j, s, i)
            && !is_numeric(schemas[t].fields[j].data_type)) || (t == -1 && j == 0),
    ensures
        reconciled(schemas).fields[k].data_type == schemas[s].fields[i].data_type,
{
    let name = reconciled(schemas).fields[k].name;
    if same_columns(schemas) {
        assert(schemas[s].fields == schemas[0].fields);
        assert(schemas[0].fields[i].name == schemas[0].fields[k].name);
    } else {
        let all = all_fields(schemas);
        reconciled_type(schemas, k);
        newest_is_last(schemas, s, i, name);
        flat_place_is_right(schemas, s, i);
        let m = flat_place(schemas, s, i);
        let before = all.take(m);
        let from: int = if t == -1 {
            0
        } else {
            flat_place_is_right(schemas, t, j);
            flat_places_are_ordered(schemas, t, j, s, i);
            flat_place(schemas, t, j) + 1
        };
        assert forall|n: int| from <= n < before.len() implies (#[trigger] before[n]).name != name by {
            let (u, l) = flat_place_of(schemas, n);
            flat_place_is_right(schemas, u, l);
            flat_places_are_ordered(schemas, u, l, s, i);
            if t != -1 {
                flat_places_are_ordered(schemas, t, j, u, l);
            }
            assert(!appears_at(schemas, u, l, name));
        }
        common_type_stays(before, name, from);
        assert(before.take(from) =~= all.take(from));
        if t != -1 {
            common_type_steps(all, name, from - 1);
        } else {
            assert(all.take(0) =~= Seq::empty());
        }
    }
}

proof fn newest_is_last(schemas: Seq<SchemaView>, s: int, i: int, name: Seq<char>)
    requires
        is_newest(schemas, s, i, name),
    ensures
        common_type(all_fields(schemas), name) == match common_type(
            all_fields(schemas).take(flat_place(schemas, s, i)),
            name,
        ) {
            Some(t) => Some(widened(t, schemas[s].fields[i].data_type)),
            None => Some(schemas[s].fields[i].data_type),
        },
{
    let all = all_fields(schemas);
    flat_place_is_right(schemas, s, i);
    let m = flat_place(schemas, s, i);
    assert forall|n: int| m + 1 <= n < all.len() implies (#[trigger] all[n]).name != name by {
        let (u, l) = flat_place_of(schemas, n);
        flat_place_is_right(schemas, u, l);
        flat_places_are_ordered(schemas, s, i, u, l);
        assert(!appears_at(schemas, u, l, name));
    }
    common_type_stays(all, name, m + 1);
    common_type_steps(all, name, m);
}

/// Whether the appearances of a column from the given place on are all of type `t`.
pub open spec fn all_of_type(
    schemas: Seq<SchemaView>,
    name: Seq<char>,
    s: int,
    i: int,
    t: ColumnType,
) -> bool {
    forall|u: int, l: int| #[trigger]
        appears_at(schemas, u, l, name) && !is_older(u, l, s, i) ==> schemas[u].fields[l].data_type
            == t
}

/// A column is of the type that its numbers widen to, counted from where it became a number for
/// good: their own type if they are all of the same, else a 64-bit float if any of them is
/// floating, else a 64-bit integer.
pub proof fn numbers_widen(schemas: Seq<SchemaView>, k: int, s: int, i: int, t: int, j: int)
    requires
        tell_columns_apart(schemas),
        0 <= k < reconciled(schemas).fields.len(),
        appears_at(schemas, s, i, reconciled(schemas).fields[k].name),
        // From this appearance on the column is a number.
        forall|u: int, l: int| #[trigger]
            appears_at(schemas, u, l, reconciled(schemas).fields[k].name) && !is_older(u, l, s, i)
                ==> is_numeric(schemas[u].fields[l].data_type),
        // The one before it is no number, or there is none.
        forall|u: int, l: int|
            is_older(t, j, u, l) && is_older(u, l, s, i) ==> !#[trigger] appears_at(
                schemas,
                u,
                l,
                reconciled(schemas).fields[k].name,
            ),
        (appears_at(schemas, t, j, reconciled(schemas).fields[k].name) && is_older(t, j, s, i)
            && !is_numeric(schemas[t].fields[j].data_type)) || (t == -1 && j == 0),
    ensures
        ({
            let f = reconciled(schemas).fields[k];
            let own = schemas[s].fields[i].data_type;
            &&& all_of_type(schemas, f.name, s, i, own) ==> f.data_type == own
            &&& !all_of_type(schemas, f.name, s, i, own) && (exists|u: int, l: int| #[trigger]
                appears_at(schemas, u, l, f.name) && !is_older(u, l, s, i) && is_float(
                    schemas[u].fields[l].data_type,
                )) ==> f.data_type == ColumnType::Float64
            &&& !all_of_type(schemas, f.name, s, i, own) && !(exists|u: int, l: int| #[trigger]
                appears_at(schemas, u, l, f.name) && !is_older(u, l, s, i) && is_float(
                    schemas[u].fields[l].data_type,
                )) ==> f.data_type == ColumnType::Int64
        }),
{
    let f = reconciled(schemas).fields[k];
    let name = f.name;
    let own = schemas[s].fields[i].data_type;
    if same_columns(schemas) {
        assert(schemas[s].fields == schemas[0].fields);
        assert(schemas[0].fields[i].name == schemas[0].fields[k].name);
        assert(i == k);
        assert forall|u: int, l: int| #[trigger]
            appears_at(schemas, u, l, name) && !is_older(u, l, s, i) implies
            schemas[u].fields[l].data_type == own by {
            assert(schemas[u].fields == schemas[0].fields);
            assert(schemas[0].fields[l].name == schemas[0].fields[k].name);
        }
    } else {
        let all = all_fields(schemas);
        reconciled_type(schemas, k);
        flat_place_is_right(schemas, s, i);
        let m = flat_place(schemas, s, i);
        let before = all.take(m);
        let from: int = if t == -1 {
            0
        } else {
            flat_place_is_right(schemas, t, j);
            flat_places_are_ordered(schemas, t, j, s, i);
            flat_place(schemas, t, j) + 1
        };
        assert forall|n: int| from <= n < before.len() implies (#[trigger] before[n]).name != name by {
            let (u, l) = flat_place_of(schemas, n);
            flat_place_is_right(schemas, u, l);
            flat_places_are_ordered(schemas, u, l, s, i);
            if t != -1 {
                flat_places_are_ordered(schemas, t, j, u, l);
            }
            assert(!appears_at(schemas, u, l, name));
        }
        common_type_stays(before, name, from);
        assert(before.take(from) =~= all.take(from));
        common_type_steps(all, name, m);
        if t != -1 {
            common_type_steps(all, name, from - 1);
        } else {
            assert(all.take(0) =~= Seq::empty());
        }
        assert(common_type(all.take(m + 1), name) == Some(own));
        assert forall|n: int| m <= n < all.len() && (#[trigger] all[n]).name == name implies
            is_numeric(all[n].data_type) by {
            let (u, l) = flat_place_of(schemas, n);
            flat_place_is_right(schemas, u, l);
            flat_places_are_ordered(schemas, u, l, s, i);
            assert(appears_at(schemas, u, l, name));
        }
        numbers_widen_from(all, name, m, all.len() as int);
        assert(all.take(all.len() as int) =~= all);
        if all_of_type(schemas, name, s, i, own) {
            assert forall|n: int| m <= n < all.len() && (#[trigger] all[n]).name == name implies
                all[n].data_type == own by {
                let (u, l) = flat_place_of(schemas, n);
                flat_place_is_right(schemas, u, l);
                flat_places_are_ordered(schemas, u, l, s, i);
                assert(appears_at(schemas, u, l, name));
            }
        } else {
            let (u, l) = choose|u: int, l: int| #[trigger]
                appears_at(schemas, u, l, name) && !is_older(u, l, s, i)
                    && schemas[u].fields[l].data_type != own;
            flat_place_is_right(schemas, u, l);
            flat_places_are_ordered(schemas, u, l, s, i);
            assert(all[flat_place(schemas, u, l)].name == name);
        }
        if exists|u: int, l: int| #[trigger]
            appears_at(schemas, u, l, name) && !is_older(u, l, s, i) && is_float(
                schemas[u].fields[l].data_type,
            ) {
            let (u, l) = choose|u: int, l: int| #[trigger]
                appears_at(schemas, u, l, name) && !is_older(u, l, s, i) && is_float(
                    schemas[u].fields[l].data_type,
                );
            flat_place_is_right(schemas, u, l);
            flat_places_are_ordered(schemas, u, l, s, i);
            assert(all[flat_place(schemas, u, l)].name == name);
        } else {
            assert forall|n: int| m <= n < all.len() && (#[trigger] all[n]).name == name implies
                !is_float(all[n].data_type) by {
                let (u, l) = flat_place_of(schemas, n);
                flat_place_is_right(schemas, u, l);
                flat_places_are_ordered(schemas, u, l, s, i);
                assert(appears_at(schemas, u, l, name));
            }
        }
    }
}

spec fn run_of_type(fields: Seq<FieldView>, name: Seq<char>, m: int, n: int, t: ColumnType) -> bool {
    forall|k: int| m <= k < n && (#[trigger] fields[k]).name == name ==> fields[k].data_type == t
}

spec fn run_without_floats(fields: Seq<FieldView>, name: Seq<char>, m: int, n: int) -> bool {
    forall|k: int| m <= k < n && (#[trigger] fields[k]).name == name ==> !is_float(
        fields[k].data_type,
    )
}

proof fn numbers_widen_from(fields: Seq<FieldView>, name: Seq<char>, m: int, n: int)
    requires
        0 <= m < n <= fields.len(),
        fields[m].name == name,
        common_type(fields.take(m + 1), name) == Some(fields[m].data_type),
        forall|k: int|
            m <= k < fields.len() && (#[trigger] fields[k]).name == name ==> is_numeric(
                fields[k].data_type,
            ),
    ensures
        common_type(fields.take(n), name) == Some(
            if run_of_type(fields, name, m, n, fields[m].data_type) {
                fields[m].data_type
            } else if run_without_floats(fields, name, m, n) {
                ColumnType::Int64
            } else {
                ColumnType::Float64
            },
        ),
    decreases n,
{
    let own = fields[m].data_type;
    assert(is_numeric(own));
    if n > m + 1 {
        numbers_widen_from(fields, name, m, n - 1);
        let last = fields[n - 1];
        assert(fields.take(n).drop_last() =~= fields.take(n - 1));
        assert(fields.take(n).last() == last);
        let uniform = run_of_type(fields, name, m, n - 1, own);
        let whole = run_without_floats(fields, name, m, n - 1);
        if last.name == name {
            assert(is_numeric(last.data_type));
            assert(run_of_type(fields, name, m, n, own) <==> uniform && last.data_type == own);
            assert(run_without_floats(fields, name, m, n) <==> whole && !is_float(last.data_type));
            if uniform {
                if is_float(own) {
                    assert(!run_without_floats(fields, name, m, n)) by {
                        assert(fields[m].name == name);
                    }
                } else {
                    assert forall|q: int| m <= q < n - 1 && (#[trigger] fields[q]).name
                        == name implies !is_float(fields[q].data_type) by {}
                    assert(whole);
                }
            }
        } else {
            assert(run_of_type(fields, name, m, n, own) <==> uniform);
            assert(run_without_floats(fields, name, m, n) <==> whole);
        }
    } else {
        assert(run_of_type(fields, name, m, n, own));
    }
}

/// Columns come in the order of their first appearance: one that appears at a place comes before
/// one that does not appear there or at an older place.
pub proof fn columns_come_as_they_appear(schemas: Seq<SchemaView>, k: int, l: int, s: int, i: int)
    requires
        tell_columns_apart(schemas),
        0 <= k < reconciled(schemas).fields.len(),
        0 <= l < reconciled(schemas).fields.len(),
        appears_at(schemas, s, i, reconciled(schemas).fields[k].name),
        forall|t: int, j: int| #[trigger]
            appears_at(schemas, t, j, reconciled(schemas).fields[l].name) ==> is_older(s, i, t, j),
    ensures
        k < l,
{
    let a = reconciled(schemas).fields[k].name;
    let b = reconciled(schemas).fields[l].name;
    if same_columns(schemas) {
        assert(schemas[s].fields == schemas[0].fields);
        assert(schemas[0].fields[i].name == schemas[0].fields[k].name);
        assert(appears_at(schemas, s, l, b));
    } else {
        let all = all_fields(schemas);
        flat_place_is_right(schemas, s, i);
        let m = flat_place(schemas, s, i);
        let front = all.take(m + 1);
        let rest = all.skip(m + 1);
        assert(front + rest =~= all);
        names_grow(front, rest);
        let names = first_names(all);
        let leading = first_names(front);
        assert(names[k] == a && names[l] == b);
        assert(front[m].name == a);
        assert(has_field(front, a));
        field_appears(front, a);
        let x = choose|x: int| 0 <= x < leading.len() && leading[x] == a;
        assert(names.take(leading.len() as int)[x] == a);
        first_names_distinct(all);
        assert(x == k);
        if l < leading.len() {
            assert(names.take(leading.len() as int)[l] == leading[l]);
            assert(leading.contains(b));
            field_appears(front, b);
            let n = choose|n: int| 0 <= n < front.len() && (#[trigger] front[n]).name == b;
            let (t, j) = flat_place_of(schemas, n);
            flat_place_is_right(schemas, t, j);
            flat_places_are_ordered(schemas, s, i, t, j);
            assert(appears_at(schemas, t, j, b));
        }
    }
}

/// Where the schemas differ, a column is nullable if and only if it may hold nulls where it
/// appears or does not appear in every schema. It has no metadata, and the schema has none.
pub proof fn evolved_columns_are_plain(schemas: Seq<SchemaView>, p: int, k: int)
    requires
        0 <= p < schemas.len(),
        schemas[p].fields != schemas[0].fields,
        0 <= k < reconciled(schemas).fields.len(),
    ensures
        ({
            let f = reconciled(schemas).fields[k];
            &&& f.nullable <==> (exists|s: int, i: int| #[trigger]
                appears_at(schemas, s, i, f.name) && schemas[s].fields[i].nullable) || (exists|
                s: int,
            | #[trigger]
                is_lacked(schemas, s, f.name))
            &&& f.metadata == Map::<Seq<char>, Seq<char>>::empty()
            &&& reconciled(schemas).metadata == Map::<Seq<char>, Seq<char>>::empty()
        }),
{
    let f = reconciled(schemas).fields[k];
    let all = all_fields(schemas);
    assert(!same_columns(schemas));
    if nullable_somewhere(all, f.name) {
        let n = choose|n: int|
            0 <= n < all.len() && (#[trigger] all[n]).name == f.name && all[n].nullable;
        let (s, i) = flat_place_of(schemas, n);
        flat_place_is_right(schemas, s, i);
        assert(appears_at(schemas, s, i, f.name));
    }
    if exists|s: int, i: int| #[trigger]
        appears_at(schemas, s, i, f.name) && schemas[s].fields[i].nullable {
        let (s, i) = choose|s: int, i: int| #[trigger]
            appears_at(schemas, s, i, f.name) && schemas[s].fields[i].nullable;
        flat_place_is_right(schemas, s, i);
        assert(all[flat_place(schemas, s, i)].name == f.name);
    }
    if absent_somewhere(schemas, f.name) {
        let s = choose|s: int|
            0 <= s < schemas.len() && !has_field((#[trigger] schemas[s]).fields, f.name);
        assert forall|i: int| !#[trigger] appears_at(schemas, s, i, f.name) by {}
        assert(is_lacked(schemas, s, f.name));
    }
    if exists|s: int| #[trigger] is_lacked(schemas, s, f.name) {
        let s = choose|s: int| #[trigger] is_lacked(schemas, s, f.name);
        if has_field(schemas[s].fields, f.name) {
            let i = choose|i: int|
                0 <= i < schemas[s].fields.len() && (#[trigger] schemas[s].fields[i]).name
                    == f.name;
            assert(appears_at(schemas, s, i, f.name));
        }
        assert(absent_somewhere(schemas, f.name));
    }
}

/// Rows of no schema are read with no columns, and rows of schemas with the same columns with
/// the first of them.
pub proof fn equal_schemas_are_not_changed(schemas: Seq<SchemaView>)
    ensures
        schemas.len() == 0 ==> reconciled(schemas).fields.len() == 0 && reconciled(schemas).metadata
            == Map::<Seq<char>, Seq<char>>::empty(),
        schemas.len() > 0 && (forall|p: int|
            0 <= p < schemas.len() ==> (#[trigger] schemas[p]).fields == schemas[0].fields)
            ==> reconciled(schemas) == schemas[0],
{
}

} // verus!
