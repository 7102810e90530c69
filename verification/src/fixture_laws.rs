//! What holds of generated tables.

use vstd::prelude::*;
use crate::cdc::{
    named_in_commit, named_in_partitions, named_in_stat, named_in_stats, stats_in,
};
use crate::batch::batch_rows;
use crate::config::{key_of, HudiTableConfig};
use crate::fixture::{
    commit_entries, count_entries, data_file_name, data_file_path, default_props, has_stat,
    has_stats, is_commit_metadata, is_write_stat, partition_text, prop_lines, properties_text,
    stat_entries, stat_of, stats_of_partition, without_key, write_token, WriteFile, WriteStatView,
};
use crate::json::{
    has_member, json_members, json_view, last_named, last_named_at, last_named_nowhere, member,
    member_names, member_of, member_of_object, member_values, JsonView,
};
use crate::keygen::{class_word_is_recognised, type_of_class, KeyGeneratorType};
use crate::metadata::base_file::{base_file_name_round_trip, base_file_named, BaseFileView};
use crate::numeral::{decimal, decimal_nat_digits};
use crate::text::{has_substring, joined};

verus! {

/// The name of a data file is that of a base file: it gives back the file id, the write token
/// and the instant.
pub proof fn data_file_name_reads_back(file_id: Seq<char>, i: nat, instant: Seq<char>)
    requires
        !file_id.contains('_'),
        !instant.contains('_'),
    ensures
        base_file_named(data_file_name(file_id, i as int, instant)) == Some(
            BaseFileView {
                file_id,
                write_token: write_token(i as int),
                commit_timestamp: instant,
                extension: "parquet"@,
            },
        ),
{
    let token = write_token(i as int);
    let b = BaseFileView {
        file_id,
        write_token: token,
        commit_timestamp: instant,
        extension: "parquet"@,
    };
    reveal_strlit("0-");
    reveal_strlit("parquet");
    reveal_strlit(".parquet");
    decimal_nat_digits(i);
    assert(!token.contains('_')) by {
        if token.contains('_') {
            let k = choose|k: int| 0 <= k < token.len() && token[k] == '_';
            let digits = decimal(i as int);
            if k < 2 {
            } else if k < 2 + digits.len() {
                assert(digits[k - 2] == '_');
            } else if k > 2 + digits.len() {
                assert(digits[k - 3 - digits.len()] == '_');
            }
        }
    }
    assert(!b.extension.contains('.'));
    assert(b.well_formed());
    base_file_name_round_trip(b);
    let parts = seq![file_id, token, instant];
    assert(parts.drop_last() =~= seq![file_id, token]);
    assert(parts.drop_last().drop_last() =~= seq![file_id]);
    reveal_with_fuel(joined, 3);
    assert(b.name() =~= data_file_name(file_id, i as int, instant));
}

/// Setting a property leaves no other property with its key.
pub proof fn set_property_is_alone(
    props: Seq<(Seq<char>, Seq<char>)>,
    key: Seq<char>,
    value: Seq<char>,
    k: int,
)
    requires
        0 <= k < without_key(props, key).push((key, value)).len(),
    ensures
        without_key(props, key).push((key, value))[k].0 == key <==> k == without_key(
            props,
            key,
        ).len(),
    decreases props.len(),
{
    if props.len() > 0 && k < without_key(props, key).len() {
        let before = without_key(props.drop_last(), key);
        if k < before.len() {
            set_property_is_alone(props.drop_last(), key, value, k);
        }
    }
}

/// Setting a property keeps the properties with other keys.
pub proof fn other_properties_stay(
    props: Seq<(Seq<char>, Seq<char>)>,
    key: Seq<char>,
    other: (Seq<char>, Seq<char>),
)
    requires
        other.0 != key,
    ensures
        without_key(props, key).contains(other) <==> props.contains(other),
    decreases props.len(),
{
    if props.len() > 0 {
        let shorter = props.drop_last();
        let before = without_key(shorter, key);
        other_properties_stay(shorter, key, other);
        if props.contains(other) {
            let k = choose|k: int| 0 <= k < props.len() && props[k] == other;
            if k < shorter.len() {
                assert(shorter[k] == other);
                assert(before.contains(other));
                let l = choose|l: int| 0 <= l < before.len() && before[l] == other;
                assert(without_key(props, key)[l] == other);
            } else {
                assert(without_key(props, key)[before.len() as int] == other);
            }
        }
        if without_key(props, key).contains(other) {
            let l = choose|l: int|
                0 <= l < without_key(props, key).len() && without_key(props, key)[l] == other;
            if l < before.len() {
                assert(before[l] == other);
                let k = choose|k: int| 0 <= k < shorter.len() && shorter[k] == other;
                assert(props[k] == other);
            } else {
                assert(props[props.len() - 1] == other);
            }
        }
    }
}

/// Whether a change file is named in one of several write stats.
spec fn named_in_some(stats: Seq<serde_json::Value>, path: Seq<char>) -> bool {
    exists|i: int| 0 <= i < stats.len() && named_in_stat(#[trigger] stats[i]).contains(path)
}

proof fn concat_contains(a: Seq<Seq<char>>, b: Seq<Seq<char>>, path: Seq<char>)
    ensures
        (a + b).contains(path) <==> a.contains(path) || b.contains(path),
{
    let s = a + b;
    if s.contains(path) {
        let k = choose|k: int| 0 <= k < s.len() && s[k] == path;
        if k < a.len() {
            assert(a[k] == path);
        } else {
            assert(b[k - a.len()] == path);
        }
    }
    if a.contains(path) {
        let k = choose|k: int| 0 <= k < a.len() && a[k] == path;
        assert(s[k] == path);
    }
    if b.contains(path) {
        let k = choose|k: int| 0 <= k < b.len() && b[k] == path;
        assert(s[a.len() + k] == path);
    }
}

proof fn named_in_stats_some(stats: Seq<serde_json::Value>, path: Seq<char>)
    ensures
        named_in_stats(stats).contains(path) <==> named_in_some(stats, path),
    decreases stats.len(),
{
    if stats.len() > 0 {
        let shorter = stats.drop_last();
        named_in_stats_some(shorter, path);
        concat_contains(named_in_stats(shorter), named_in_stat(stats.last()), path);
        if named_in_some(shorter, path) {
            let i = choose|i: int|
                0 <= i < shorter.len() && named_in_stat(#[trigger] shorter[i]).contains(path);
            assert(stats[i] == shorter[i]);
        }
        if named_in_some(stats, path) {
            let i = choose|i: int|
                0 <= i < stats.len() && named_in_stat(#[trigger] stats[i]).contains(path);
            if i < shorter.len() {
                assert(shorter[i] == stats[i]);
            }
        }
        assert(stats[stats.len() - 1] == stats.last());
    }
}

/// Whether a change file is named in the write stats of one of several partitions.
spec fn named_in_some_partition(partitions: Seq<serde_json::Value>, path: Seq<char>) -> bool {
    exists|i: int|
        0 <= i < partitions.len() && named_in_some(stats_in(#[trigger] partitions[i]), path)
}

proof fn named_in_partitions_some(partitions: Seq<serde_json::Value>, path: Seq<char>)
    ensures
        named_in_partitions(partitions).contains(path) <==> named_in_some_partition(
            partitions,
            path,
        ),
    decreases partitions.len(),
{
    if partitions.len() > 0 {
        let shorter = partitions.drop_last();
        named_in_partitions_some(shorter, path);
        named_in_stats_some(stats_in(partitions.last()), path);
        concat_contains(
            named_in_partitions(shorter),
            named_in_stats(stats_in(partitions.last())),
            path,
        );
        if named_in_some_partition(shorter, path) {
            let i = choose|i: int|
                0 <= i < shorter.len() && named_in_some(stats_in(#[trigger] shorter[i]), path);
            assert(partitions[i] == shorter[i]);
        }
        if named_in_some_partition(partitions, path) {
            let i = choose|i: int|
                0 <= i < partitions.len() && named_in_some(
                    stats_in(#[trigger] partitions[i]),
                    path,
                );
            if i < shorter.len() {
                assert(shorter[i] == partitions[i]);
            }
        }
        assert(partitions[partitions.len() - 1] == partitions.last());
    }
}

/// Whether a path is among the change files of a write.
pub open spec fn has_cdc_file(stat: WriteStatView, path: Seq<char>) -> bool {
    exists|k: int| 0 <= k < stat.cdc_files.len() && (#[trigger] stat.cdc_files[k]).0 == path
}

/// A write stat names the change files of its write.
pub proof fn write_stat_names_cdc_files(
    v: serde_json::Value,
    stat: WriteStatView,
    path: Seq<char>,
)
    requires
        is_write_stat(v, stat),
    ensures
        named_in_stat(v).contains(path) <==> has_cdc_file(stat, path),
{
    let cdc = choose|cdc: JsonView| has_stat(v, stat, cdc);
    let m = json_view(v)->Object_0;
    let entries = stat_entries(stat, cdc);
    reveal_strlit("fileId");
    reveal_strlit("path");
    reveal_strlit("partitionPath");
    reveal_strlit("numWrites");
    reveal_strlit("numInserts");
    reveal_strlit("numUpdateWrites");
    reveal_strlit("numDeletes");
    reveal_strlit("totalWriteBytes");
    reveal_strlit("fileSizeInBytes");
    reveal_strlit("cdcStats");
    reveal_strlit("cdcPath");
    assert forall|j: int| 0 <= j < entries.len() implies (#[trigger] entries[j]).0 != "cdcPath"@ by {
        let name = entries[j].0;
        assert(name.len() != "cdcPath"@.len());
    }
    last_named_nowhere(entries, "cdcPath"@);
    last_named_at(entries, "cdcStats"@, 9);
    member_of_object(m, entries, "cdcPath"@);
    member_of_object(m, entries, "cdcStats"@);
    let c = member(m, "cdcStats"@)->0;
    assert(json_view(c) == cdc);
    let none = Seq::<Seq<char>>::empty();
    if stat.cdc_files.len() == 0 {
        assert(named_in_stat(v) =~= none);
    } else {
        let counts = cdc->Object_0;
        assert(named_in_stat(v) =~= member_names(counts));
        let listed = count_entries(stat.cdc_files);
        member_of_object(counts, listed, path);
        last_named_nowhere(listed, path);
        names_are_members(counts, path);
        if has_cdc_file(stat, path) {
            let k = choose|k: int|
                0 <= k < stat.cdc_files.len() && (#[trigger] stat.cdc_files[k]).0 == path;
            assert(listed[k].0 == path);
        }
        if last_named(listed, path) is Some {
            let k = choose|k: int| 0 <= k < listed.len() && (#[trigger] listed[k]).0 == path;
            assert(stat.cdc_files[k].0 == path);
        }
    }
}

/// The names of the members are those under which there is a member.
proof fn names_are_members(m: serde_json::Map<String, serde_json::Value>, name: Seq<char>)
    ensures
        member_names(m).contains(name) <==> member(m, name) is Some,
{
    let entries = json_members(m);
    if member_names(m).contains(name) {
        let k = choose|k: int| 0 <= k < entries.len() && member_names(m)[k] == name;
        assert(entries[k] == (name, entries[k].1));
        assert(has_member(m, name, entries[k].1));
    }
    if member(m, name) is Some {
        let v = choose|v: serde_json::Value| has_member(m, name, v);
        let k = choose|k: int| 0 <= k < entries.len() && entries[k] == (name, v);
        assert(member_names(m)[k] == name);
    }
}

proof fn partition_stats_are_stats(
    stats: Seq<(Seq<char>, serde_json::Value)>,
    partition: Seq<char>,
    v: serde_json::Value,
)
    ensures
        stats_of_partition(stats, partition).contains(v) <==> stats.contains((partition, v)),
    decreases stats.len(),
{
    if stats.len() > 0 {
        let shorter = stats.drop_last();
        let before = stats_of_partition(shorter, partition);
        let group = stats_of_partition(stats, partition);
        partition_stats_are_stats(shorter, partition, v);
        if group.contains(v) {
            let k = choose|k: int| 0 <= k < group.len() && group[k] == v;
            if k < before.len() {
                assert(before[k] == v);
                let l = choose|l: int| 0 <= l < shorter.len() && shorter[l] == (partition, v);
                assert(stats[l] == (partition, v));
            } else {
                assert(stats[stats.len() - 1] == (partition, v));
            }
        }
        if stats.contains((partition, v)) {
            let l = choose|l: int| 0 <= l < stats.len() && stats[l] == (partition, v);
            if l < shorter.len() {
                assert(shorter[l] == (partition, v));
                let k = choose|k: int| 0 <= k < before.len() && before[k] == v;
                assert(group[k] == v);
            } else {
                assert(group[before.len() as int] == v);
            }
        }
    }
}

/// The change files that reading commit metadata finds are those of the writes it was made of.
pub proof fn commit_names_cdc_files(
    m: serde_json::Map<String, serde_json::Value>,
    stats: Seq<(Seq<char>, serde_json::Value)>,
    writes: Seq<WriteStatView>,
    op_type: Seq<char>,
    path: Seq<char>,
)
    requires
        is_commit_metadata(m, stats, op_type),
        writes.len() == stats.len(),
        forall|i: int| 0 <= i < stats.len() ==> is_write_stat((#[trigger] stats[i]).1, writes[i]),
    ensures
        named_in_commit(m).contains(path) <==> exists|i: int|
            0 <= i < writes.len() && has_cdc_file(#[trigger] writes[i], path),
{
    let partitions = choose|partitions: serde_json::Map<String, serde_json::Value>|
        has_stats(m, partitions, stats, op_type);
    let entries = commit_entries(partitions, op_type);
    reveal_strlit("partitionToWriteStats");
    reveal_strlit("operationType");
    reveal_strlit("compacted");
    assert forall|j: int| 0 < j < entries.len() implies (#[trigger] entries[j]).0
        != "partitionToWriteStats"@ by {
        assert(entries[j].0.len() != "partitionToWriteStats"@.len());
    }
    last_named_at(entries, "partitionToWriteStats"@, 0);
    member_of_object(m, entries, "partitionToWriteStats"@);
    let values = member_values(partitions);
    named_in_partitions_some(values, path);
    if named_in_commit(m).contains(path) {
        let j = choose|j: int|
            0 <= j < values.len() && named_in_some(stats_in(#[trigger] values[j]), path);
        let name = json_members(partitions)[j].0;
        assert(json_members(partitions)[j] == (name, values[j]));
        assert(has_member(partitions, name, values[j]));
        let group = stats_of_partition(stats, name);
        let k = choose|k: int|
            0 <= k < group.len() && named_in_stat(#[trigger] group[k]).contains(path);
        partition_stats_are_stats(stats, name, group[k]);
        assert(group.contains(group[k]));
        let i = choose|i: int| 0 <= i < stats.len() && stats[i] == (name, group[k]);
        assert(is_write_stat(stats[i].1, writes[i]));
        write_stat_names_cdc_files(group[k], writes[i], path);
    }
    if exists|i: int| 0 <= i < writes.len() && has_cdc_file(#[trigger] writes[i], path) {
        let i = choose|i: int| 0 <= i < writes.len() && has_cdc_file(#[trigger] writes[i], path);
        let name = stats[i].0;
        let v = stats[i].1;
        assert(is_write_stat(stats[i].1, writes[i]));
        write_stat_names_cdc_files(v, writes[i], path);
        assert(stats.contains((name, v)));
        partition_stats_are_stats(stats, name, v);
        let group = stats_of_partition(stats, name);
        assert(member(partitions, name) is Some);
        let g = choose|g: serde_json::Value| has_member(partitions, name, g);
        assert(json_view(g) == JsonView::Array(group));
        let k = choose|k: int| 0 <= k < group.len() && group[k] == v;
        assert(named_in_stat(group[k]).contains(path));
        assert(named_in_some(stats_in(g), path));
        let j = choose|j: int|
            0 <= j < json_members(partitions).len() && json_members(partitions)[j] == (name, g);
        assert(values[j] == g);
        assert(named_in_some_partition(values, path));
    }
}

/// Whether the value has a member with the given name, and it is the given one.
pub open spec fn says(v: serde_json::Value, name: Seq<char>, what: JsonView) -> bool {
    member_of(v, name) matches Some(w) && json_view(w) == what
}

/// The write stat of a file says what was written: the file by its id and its path, its partition,
/// its rows as inserts and its size. Updates and deletes there are none.
pub proof fn write_stat_says_what_was_written(
    v: serde_json::Value,
    file: WriteFile,
    i: nat,
    instant: Seq<char>,
    size: i64,
)
    requires
        is_write_stat(v, stat_of(file, i as int, instant, size)),
    ensures
        says(v, "fileId"@, JsonView::Text(file.file_id@)),
        says(
            v,
            "path"@,
            JsonView::Text(
                if file.partition@.len() == 0 {
                    file.file_id@ + "_0-"@ + decimal(i as int) + "-"@ + decimal(i as int) + "_"@
                        + instant + ".parquet"@
                } else {
                    file.partition@ + "/"@ + file.file_id@ + "_0-"@ + decimal(i as int) + "-"@
                        + decimal(i as int) + "_"@ + instant + ".parquet"@
                },
            ),
        ),
        says(v, "partitionPath"@, JsonView::Text(file.partition@)),
        says(v, "numWrites"@, JsonView::Integer(batch_rows(*file.batch) as int)),
        says(v, "numInserts"@, JsonView::Integer(batch_rows(*file.batch) as int)),
        says(v, "numUpdateWrites"@, JsonView::Integer(0)),
        says(v, "numDeletes"@, JsonView::Integer(0)),
        says(v, "totalWriteBytes"@, JsonView::Integer(size as int)),
        says(v, "fileSizeInBytes"@, JsonView::Integer(size as int)),
        file.cdc_files@.len() == 0 ==> says(v, "cdcStats"@, JsonView::Null),
        file.cdc_files@.len() > 0 ==> (member_of(v, "cdcStats"@) matches Some(c) && json_view(
            c,
        ) is Object),
{
    let stat = stat_of(file, i as int, instant, size);
    let cdc = choose|cdc: JsonView| has_stat(v, stat, cdc);
    let m = json_view(v)->Object_0;
    let entries = stat_entries(stat, cdc);
    reveal_strlit("fileId");
    reveal_strlit("path");
    reveal_strlit("partitionPath");
    reveal_strlit("numWrites");
    reveal_strlit("numInserts");
    reveal_strlit("numUpdateWrites");
    reveal_strlit("numDeletes");
    reveal_strlit("totalWriteBytes");
    reveal_strlit("fileSizeInBytes");
    reveal_strlit("cdcStats");
    reveal_strlit("0-");
    reveal_strlit("_0-");
    reveal_strlit("-");
    reveal_strlit("_");
    reveal_strlit("/");
    stat_names_differ(stat, cdc);
    last_named_at(entries, "fileId"@, 0);
    member_of_object(m, entries, "fileId"@);
    last_named_at(entries, "path"@, 1);
    member_of_object(m, entries, "path"@);
    last_named_at(entries, "partitionPath"@, 2);
    member_of_object(m, entries, "partitionPath"@);
    last_named_at(entries, "numWrites"@, 3);
    member_of_object(m, entries, "numWrites"@);
    last_named_at(entries, "numInserts"@, 4);
    member_of_object(m, entries, "numInserts"@);
    last_named_at(entries, "numUpdateWrites"@, 5);
    member_of_object(m, entries, "numUpdateWrites"@);
    last_named_at(entries, "numDeletes"@, 6);
    member_of_object(m, entries, "numDeletes"@);
    last_named_at(entries, "totalWriteBytes"@, 7);
    member_of_object(m, entries, "totalWriteBytes"@);
    last_named_at(entries, "fileSizeInBytes"@, 8);
    member_of_object(m, entries, "fileSizeInBytes"@);
    last_named_at(entries, "cdcStats"@, 9);
    member_of_object(m, entries, "cdcStats"@);
    let name = data_file_name(file.file_id@, i as int, instant);
    assert(name =~= file.file_id@ + "_0-"@ + decimal(i as int) + "-"@ + decimal(i as int) + "_"@
        + instant + ".parquet"@);
    if file.partition@.len() > 0 {
        assert(data_file_path(file.partition@, name) =~= file.partition@ + "/"@ + file.file_id@
            + "_0-"@ + decimal(i as int) + "-"@ + decimal(i as int) + "_"@ + instant
            + ".parquet"@);
    }
}

proof fn stat_names_differ(stat: WriteStatView, cdc: JsonView)
    ensures
        forall|a: int, b: int|
            0 <= a < b < stat_entries(stat, cdc).len() ==> (#[trigger] stat_entries(
                stat,
                cdc,
            )[a]).0 != (#[trigger] stat_entries(stat, cdc)[b]).0,
{
    reveal_strlit("fileId");
    reveal_strlit("path");
    reveal_strlit("partitionPath");
    reveal_strlit("numWrites");
    reveal_strlit("numInserts");
    reveal_strlit("numUpdateWrites");
    reveal_strlit("numDeletes");
    reveal_strlit("totalWriteBytes");
    reveal_strlit("fileSizeInBytes");
    reveal_strlit("cdcStats");
    let entries = stat_entries(stat, cdc);
    assert(entries[0].0.len() == 6 && entries[0].0[0] == 'f' && entries[0].0[3] == 'e');
    assert(entries[1].0.len() == 4 && entries[1].0[0] == 'p' && entries[1].0[3] == 'h');
    assert(entries[2].0.len() == 13 && entries[2].0[0] == 'p' && entries[2].0[3] == 't');
    assert(entries[3].0.len() == 9 && entries[3].0[0] == 'n' && entries[3].0[3] == 'W');
    assert(entries[4].0.len() == 10 && entries[4].0[0] == 'n' && entries[4].0[3] == 'I');
    assert(entries[5].0.len() == 15 && entries[5].0[0] == 'n' && entries[5].0[3] == 'U');
    assert(entries[6].0.len() == 10 && entries[6].0[0] == 'n' && entries[6].0[3] == 'D');
    assert(entries[7].0.len() == 15 && entries[7].0[0] == 't' && entries[7].0[3] == 'a');
    assert(entries[8].0.len() == 15 && entries[8].0[0] == 'f' && entries[8].0[3] == 'e');
    assert(entries[9].0.len() == 8 && entries[9].0[0] == 'c' && entries[9].0[3] == 'S');
    assert forall|a: int, b: int| 0 <= a < b < entries.len() implies (#[trigger] entries[a]).0 != (
    #[trigger] entries[b]).0 by {
        let x = entries[a].0;
        let y = entries[b].0;
        assert(x.len() != y.len() || x[0] != y[0] || x[3] != y[3]);
    }
}

/// The `cdcStats` of a write stat map each change file to its count, the last one given, and
/// nothing else to anything.
pub proof fn cdc_stats_count_the_changes(
    v: serde_json::Value,
    stat: WriteStatView,
    counts: serde_json::Map<String, serde_json::Value>,
    path: Seq<char>,
    k: int,
)
    requires
        is_write_stat(v, stat),
        says(v, "cdcStats"@, JsonView::Object(counts)),
    ensures
        0 <= k < stat.cdc_files.len() && stat.cdc_files[k].0 == path && (forall|l: int|
            k < l < stat.cdc_files.len() ==> (#[trigger] stat.cdc_files[l]).0 != path) ==> (member(
            counts,
            path,
        ) matches Some(n) && json_view(n) == JsonView::Integer(stat.cdc_files[k].1)),
        !has_cdc_file(stat, path) ==> member(counts, path) is None,
{
    let cdc = choose|cdc: JsonView| has_stat(v, stat, cdc);
    let m = json_view(v)->Object_0;
    let entries = stat_entries(stat, cdc);
    last_named_at(entries, "cdcStats"@, 9);
    member_of_object(m, entries, "cdcStats"@);
    assert(cdc == JsonView::Object(counts));
    let listed = count_entries(stat.cdc_files);
    member_of_object(counts, listed, path);
    last_named_nowhere(listed, path);
    if 0 <= k < stat.cdc_files.len() && stat.cdc_files[k].0 == path && (forall|l: int|
        k < l < stat.cdc_files.len() ==> (#[trigger] stat.cdc_files[l]).0 != path) {
        assert forall|l: int| k < l < listed.len() implies (#[trigger] listed[l]).0 != path by {
            assert(stat.cdc_files[l].0 != path);
        }
        last_named_at(listed, path, k);
    }
    if !has_cdc_file(stat, path) {
        assert forall|l: int| 0 <= l < listed.len() implies (#[trigger] listed[l]).0 != path by {
            assert(stat.cdc_files[l].0 != path);
        }
    }
}

/// Commit metadata says the type of the operation, and that nothing was compacted. It maps each
/// partition that was written to, to the write stats of its files in their order, and no other.
pub proof fn commit_says_what_was_written(
    m: serde_json::Map<String, serde_json::Value>,
    stats: Seq<(Seq<char>, serde_json::Value)>,
    op_type: Seq<char>,
    partition: Seq<char>,
)
    requires
        is_commit_metadata(m, stats, op_type),
    ensures
        member(m, "operationType"@) matches Some(v) && json_view(v) == JsonView::Text(op_type),
        member(m, "compacted"@) matches Some(v) && json_view(v) == JsonView::Bool(false),
        member(m, "partitionToWriteStats"@) matches Some(v) && (json_view(v) matches JsonView::Object(
            groups,
        ) && {
            let own = stats.filter(|s: (Seq<char>, serde_json::Value)| s.0 == partition).map_values(
                |s: (Seq<char>, serde_json::Value)| s.1,
            );
            match member(groups, partition) {
                Some(group) => own.len() > 0 && json_view(group) == JsonView::Array(own),
                None => own.len() == 0,
            }
        }),
{
    let partitions = choose|partitions: serde_json::Map<String, serde_json::Value>|
        has_stats(m, partitions, stats, op_type);
    let entries = commit_entries(partitions, op_type);
    reveal_strlit("partitionToWriteStats");
    reveal_strlit("operationType");
    reveal_strlit("compacted");
    assert(entries[0].0.len() == 21 && entries[1].0.len() == 13 && entries[2].0.len() == 9);
    last_named_at(entries, "partitionToWriteStats"@, 0);
    last_named_at(entries, "operationType"@, 1);
    last_named_at(entries, "compacted"@, 2);
    member_of_object(m, entries, "partitionToWriteStats"@);
    member_of_object(m, entries, "operationType"@);
    member_of_object(m, entries, "compacted"@);
    partition_stats_are_picked(stats, partition);
    if let Some(group) = member(partitions, partition) {
        assert(has_member(partitions, partition, group));
    }
}

/// The write stats of a partition are those among all that are of it, in their order.
pub proof fn partition_stats_are_picked(
    stats: Seq<(Seq<char>, serde_json::Value)>,
    partition: Seq<char>,
)
    ensures
        stats_of_partition(stats, partition) == stats.filter(
            |s: (Seq<char>, serde_json::Value)| s.0 == partition,
        ).map_values(|s: (Seq<char>, serde_json::Value)| s.1),
    decreases stats.len(),
{
    let is_own = |s: (Seq<char>, serde_json::Value)| s.0 == partition;
    let second = |s: (Seq<char>, serde_json::Value)| s.1;
    reveal(Seq::filter);
    if stats.len() > 0 {
        let shorter = stats.drop_last();
        partition_stats_are_picked(shorter, partition);
        assert(stats_of_partition(stats, partition) =~= stats.filter(is_own).map_values(second));
    } else {
        assert(stats_of_partition(stats, partition) =~= stats.filter(is_own).map_values(second));
    }
}

/// Setting a property takes out those with its key and leaves the others in their order, and puts
/// it behind them.
pub proof fn other_properties_keep_their_order(
    props: Seq<(Seq<char>, Seq<char>)>,
    key: Seq<char>,
)
    ensures
        without_key(props, key) == props.filter(|p: (Seq<char>, Seq<char>)| p.0 != key),
    decreases props.len(),
{
    reveal(Seq::filter);
    if props.len() > 0 {
        other_properties_keep_their_order(props.drop_last(), key);
    }
    assert(without_key(props, key) =~= props.filter(|p: (Seq<char>, Seq<char>)| p.0 != key));
}

/// Each property has a line of its own in the text of the properties, in their order: its key, an
/// equals sign and its value.
pub proof fn properties_have_lines(
    before: Seq<(Seq<char>, Seq<char>)>,
    p: (Seq<char>, Seq<char>),
    after: Seq<(Seq<char>, Seq<char>)>,
)
    ensures
        properties_text(before.push(p) + after) == properties_text(before) + p.0 + seq!['='] + p.1
            + seq!['\n'] + prop_lines(after),
        prop_lines(Seq::empty()).len() == 0,
        properties_text(Seq::empty())[0] == '#',
        properties_text(Seq::empty()).last() == '\n',
        forall|i: int|
            0 <= i < properties_text(Seq::empty()).len() - 1 ==> #[trigger] properties_text(
                Seq::empty(),
            )[i] != '\n',
{
    reveal_strlit("#hudi-rs test fixture\n");
    assert(before.push(p).drop_last() =~= before);
    lines_of_both(before.push(p), after);
    assert(properties_text(before.push(p) + after) =~= properties_text(before) + p.0 + seq!['=']
        + p.1 + seq!['\n'] + prop_lines(after));
}

proof fn lines_of_both(a: Seq<(Seq<char>, Seq<char>)>, b: Seq<(Seq<char>, Seq<char>)>)
    ensures
        prop_lines(a + b) == prop_lines(a) + prop_lines(b),
    decreases b.len(),
{
    if b.len() == 0 {
        assert(a + b =~= a);
        assert(prop_lines(a) + prop_lines(b) =~= prop_lines(a));
    } else {
        lines_of_both(a, b.drop_last());
        assert((a + b).drop_last() =~= a + b.drop_last());
        assert((a + b).last() == b.last());
        assert(prop_lines(a + b) =~= prop_lines(a) + prop_lines(b));
    }
}

/// A new table has each of its properties once. It is a copy-on-write table with the name it was
/// given, whose records have the key `id`, and of the kind that has no partitions.
pub proof fn new_table_is_not_partitioned(name: Seq<char>, class: Seq<char>)
    ensures
        default_props(name).contains(("hoodie.table.name"@, name)),
        default_props(name).contains(("hoodie.table.type"@, "COPY_ON_WRITE"@)),
        default_props(name).contains(("hoodie.table.version"@, "6"@)),
        default_props(name).contains(("hoodie.timeline.layout.version"@, "1"@)),
        default_props(name).contains(("hoodie.table.recordkey.fields"@, "id"@)),
        default_props(name).contains(("hoodie.archivelog.folder"@, "archived"@)),
        default_props(name).contains(
            ("hoodie.datasource.write.hive_style_partitioning"@, "false"@),
        ),
        default_props(name).len() == 8,
        default_props(name).contains((key_of(HudiTableConfig::KeyGeneratorClass), class))
            ==> type_of_class(class) == Some(KeyGeneratorType::NonPartition),
        exists|class: Seq<char>|
            default_props(name).contains((key_of(HudiTableConfig::KeyGeneratorClass), class)),
        forall|i: int, j: int|
            0 <= i < j < default_props(name).len() ==> (#[trigger] default_props(name)[i]).0 != (
            #[trigger] default_props(name)[j]).0,
{
    let props = default_props(name);
    reveal_strlit("hoodie.table.type");
    reveal_strlit("hoodie.table.version");
    reveal_strlit("hoodie.timeline.layout.version");
    reveal_strlit("hoodie.table.name");
    reveal_strlit("hoodie.table.recordkey.fields");
    reveal_strlit("hoodie.archivelog.folder");
    reveal_strlit("hoodie.datasource.write.hive_style_partitioning");
    reveal_strlit("hoodie.table.keygenerator.class");
    reveal_strlit("Nonpartitioned");
    reveal_strlit("org.apache.hudi.keygen.");
    reveal_strlit("KeyGenerator");
    reveal_strlit("org.apache.hudi.keygen.NonpartitionedKeyGenerator");
    assert(props[3] == ("hoodie.table.name"@, name));
    assert(props[0] == ("hoodie.table.type"@, "COPY_ON_WRITE"@));
    assert(props[1] == ("hoodie.table.version"@, "6"@));
    assert(props[2] == ("hoodie.timeline.layout.version"@, "1"@));
    assert(props[4] == ("hoodie.table.recordkey.fields"@, "id"@));
    assert(props[5] == ("hoodie.archivelog.folder"@, "archived"@));
    assert(props[6] == ("hoodie.datasource.write.hive_style_partitioning"@, "false"@));
    let generator = "org.apache.hudi.keygen.NonpartitionedKeyGenerator"@;
    assert(props[7] == (key_of(HudiTableConfig::KeyGeneratorClass), generator));
    assert(props.contains((key_of(HudiTableConfig::KeyGeneratorClass), generator)));
    assert(generator =~= "org.apache.hudi.keygen."@ + "Nonpartitioned"@ + "KeyGenerator"@);
    class_word_is_recognised("org.apache.hudi.keygen."@, "KeyGenerator"@);
    assert(props[0].0.len() == 17 && props[0].0[13] == 't');
    assert(props[1].0.len() == 20 && props[1].0[13] == 'v');
    assert(props[2].0.len() == 30 && props[2].0[13] == 'n');
    assert(props[3].0.len() == 17 && props[3].0[13] == 'n');
    assert(props[4].0.len() == 29 && props[4].0[13] == 'r');
    assert(props[5].0.len() == 24 && props[5].0[13] == 'e');
    assert(props[6].0.len() == 47 && props[6].0[13] == 'u');
    assert(props[7].0.len() == 31 && props[7].0[13] == 'k');
    assert forall|i: int, j: int| 0 <= i < j < props.len() implies (#[trigger] props[i]).0 != (
    #[trigger] props[j]).0 by {
        let x = props[i].0;
        let y = props[j].0;
        assert(x.len() != y.len() || x[13] != y[13]);
    }
    if props.contains((key_of(HudiTableConfig::KeyGeneratorClass), class)) {
        let k = choose|k: int|
            0 <= k < props.len() && props[k] == (key_of(HudiTableConfig::KeyGeneratorClass), class);
        assert(props[k].0 == props[7].0);
    }
}

/// The marker of a partition gives the instant of its commit in a line of its own.
pub proof fn partition_marker_gives_the_commit(instant: Seq<char>)
    ensures
        has_substring(
            partition_text(instant),
            "\n"@ + "commitTime="@ + instant + "\n"@ + "partitionDepth="@,
        ),
{
    reveal_strlit("\n");
    reveal_strlit("commitTime=");
    reveal_strlit("partitionDepth=");
    reveal_strlit("#partition metadata\ncommitTime=");
    reveal_strlit("\npartitionDepth=0\n");
    let wanted = "\n"@ + "commitTime="@ + instant + "\n"@ + "partitionDepth="@;
    assert(partition_text(instant).subrange(19, (19 + wanted.len()) as int) =~= wanted);
}

} // verus!
