//! A generator of minimal copy-on-write tables: what its files are called and what they hold.
//!
//! It makes up `.hoodie/hoodie.properties`, a completed `.commit` instant for each commit, the
//! partition markers and the names of the data files. Writing the files is left to the caller.

use vstd::prelude::*;
use vstd::string::*;
use crate::batch::{batch_rows, rows_of, Batch};
use crate::json::{
    entry_views, has_member, is_object_of, json_value, json_view, last_named, member, object_from,
    pretty_json, pretty_text, JsonNode, JsonView,
};
use crate::numeral::{count_text, decimal};
use crate::text::same_text;

verus! {

/// One file of a commit.
pub struct WriteFile<'a> {
    /// The partition path; empty in a table without partitions.
    pub partition: &'a str,
    pub file_id: &'a str,
    pub batch: &'a Batch,
    /// The change files of this write: relative paths and record counts.
    pub cdc_files: Vec<(String, i64)>,
}

/// The properties and the place of a generated table.
#[derive(Debug)]
pub struct TableGen {
    base: String,
    props: Vec<(String, String)>,
}

/// What a list of properties stands for.
pub open spec fn prop_views(props: Seq<(String, String)>) -> Seq<(Seq<char>, Seq<char>)> {
    props.map_values(|p: (String, String)| (p.0@, p.1@))
}

/// The properties of a new table.
pub open spec fn default_props(name: Seq<char>) -> Seq<(Seq<char>, Seq<char>)> {
    seq![
        ("hoodie.table.type"@, "COPY_ON_WRITE"@),
        ("hoodie.table.version"@, "6"@),
        ("hoodie.timeline.layout.version"@, "1"@),
        ("hoodie.table.name"@, name),
        ("hoodie.table.recordkey.fields"@, "id"@),
        ("hoodie.archivelog.folder"@, "archived"@),
        ("hoodie.datasource.write.hive_style_partitioning"@, "false"@),
        (
            "hoodie.table.keygenerator.class"@,
            "org.apache.hudi.keygen.NonpartitionedKeyGenerator"@,
        ),
    ]
}

/// The properties without those that have the given key.
pub open spec fn without_key(props: Seq<(Seq<char>, Seq<char>)>, key: Seq<char>) -> Seq<
    (Seq<char>, Seq<char>),
>
    decreases props.len(),
{
    if props.len() == 0 {
        Seq::empty()
    } else if props.last().0 == key {
        without_key(props.drop_last(), key)
    } else {
        without_key(props.drop_last(), key).push(props.last())
    }
}

/// The lines of a properties file, one for each property.
pub open spec fn prop_lines(props: Seq<(Seq<char>, Seq<char>)>) -> Seq<char>
    decreases props.len(),
{
    if props.len() == 0 {
        Seq::empty()
    } else {
        prop_lines(props.drop_last()) + props.last().0.push('=') + props.last().1.push('\n')
    }
}

/// The text of `hoodie.properties`.
pub open spec fn properties_text(props: Seq<(Seq<char>, Seq<char>)>) -> Seq<char> {
    "#hudi-rs test fixture\n"@ + prop_lines(props)
}

/// The text of a partition marker.
pub open spec fn partition_text(instant: Seq<char>) -> Seq<char> {
    "#partition metadata\ncommitTime="@ + instant + "\npartitionDepth=0\n"@
}

fn prop(key: &str, value: &str) -> (r: (String, String))
    ensures
        (r.0@, r.1@) == (key@, value@),
{
    (key.to_owned(), value.to_owned())
}

impl TableGen {
    /// The properties that were set, in order.
    pub closed spec fn properties(&self) -> Seq<(Seq<char>, Seq<char>)> {
        prop_views(self.props@)
    }

    /// The directory of the table.
    pub closed spec fn base(&self) -> Seq<char> {
        self.base@
    }

    /// A generator for a table without partitions, called `name`, in the given directory.
    pub fn new(name: &str, base: String) -> (r: TableGen)
        ensures
            r.properties() == default_props(name@),
            r.base() == base@,
    {
        let mut props: Vec<(String, String)> = Vec::new();
        props.push(prop("hoodie.table.type", "COPY_ON_WRITE"));
        props.push(prop("hoodie.table.version", "6"));
        props.push(prop("hoodie.timeline.layout.version", "1"));
        props.push(prop("hoodie.table.name", name));
        props.push(prop("hoodie.table.recordkey.fields", "id"));
        props.push(prop("hoodie.archivelog.folder", "archived"));
        props.push(prop("hoodie.datasource.write.hive_style_partitioning", "false"));
        props.push(
            prop(
                "hoodie.table.keygenerator.class",
                "org.apache.hudi.keygen.NonpartitionedKeyGenerator",
            ),
        );
        let r: TableGen = TableGen { base, props };
        assert(r.properties() =~= default_props(name@));
        r
    }

    /// Sets a property; one that was set before, by default or not, is replaced.
    pub fn with_prop(self, key: &str, value: &str) -> (r: TableGen)
        ensures
            r.properties() == without_key(self.properties(), key@).push((key@, value@)),
            r.base() == self.base(),
    {
        let ghost all = self.properties();
        let mut props: Vec<(String, String)> = Vec::new();
        let mut i: usize = 0;
        assert(prop_views(props@) =~= without_key(all.take(0), key@));
        while i < self.props.len()
            invariant
                all == prop_views(self.props@),
                i <= self.props@.len(),
                prop_views(props@) == without_key(all.take(i as int), key@),
            decreases self.props@.len() - i,
        {
            let ghost before = props@;
            assert(all.take(i + 1).drop_last() =~= all.take(i as int));
            assert(all.take(i + 1).last() == all[i as int]);
            if !same_text(self.props[i].0.as_str(), key) {
                props.push((self.props[i].0.clone(), self.props[i].1.clone()));
                assert(prop_views(props@) =~= prop_views(before).push(all[i as int]));
            }
            i += 1;
        }
        assert(all.take(i as int) =~= all);
        let ghost before = props@;
        props.push(prop(key, value));
        assert(prop_views(props@) =~= prop_views(before).push((key@, value@)));
        TableGen { base: self.base, props }
    }

    /// The directory of the table.
    pub fn base_path(&self) -> (r: &str)
        ensures
            r@ == self.base(),
    {
        self.base.as_str()
    }

    /// The text of `hoodie.properties`.
    pub fn properties_body(&self) -> (r: String)
        ensures
            r@ == properties_text(self.properties()),
    {
        let ghost all = self.properties();
        let mut body: String = "#hudi-rs test fixture\n".to_owned();
        let mut i: usize = 0;
        assert(prop_lines(all.take(0)) =~= Seq::empty());
        while i < self.props.len()
            invariant
                all == prop_views(self.props@),
                i <= self.props@.len(),
                body@ =~= "#hudi-rs test fixture\n"@ + prop_lines(all.take(i as int)),
            decreases self.props@.len() - i,
        {
            assert(all.take(i + 1).drop_last() =~= all.take(i as int));
            assert(all.take(i + 1).last() == all[i as int]);
            body.append(self.props[i].0.as_str());
            body.push('=');
            body.append(self.props[i].1.as_str());
            body.push('\n');
            i += 1;
        }
        assert(all.take(i as int) =~= all);
        body
    }
}

/// The text of the `.hoodie_partition_metadata` marker of a partition.
pub fn partition_metadata_body(instant: &str) -> (r: String)
    ensures
        r@ == partition_text(instant@),
{
    let mut body: String = "#partition metadata\ncommitTime=".to_owned();
    body.append(instant);
    body.append("\npartitionDepth=0\n");
    body
}

/// The write token of the file at position `i` of a commit.
pub open spec fn write_token(i: int) -> Seq<char> {
    "0-"@ + decimal(i).push('-') + decimal(i)
}

/// The name of the data file at position `i` of a commit.
pub open spec fn data_file_name(file_id: Seq<char>, i: int, instant: Seq<char>) -> Seq<char> {
    file_id.push('_') + write_token(i).push('_') + instant + ".parquet"@
}

/// The path of a data file, relative to the table.
pub open spec fn data_file_path(partition: Seq<char>, name: Seq<char>) -> Seq<char> {
    if partition.len() == 0 {
        name
    } else {
        partition.push('/') + name
    }
}

/// The path of the data file at position `i` of a commit, relative to the table.
pub fn relative_path(file: &WriteFile<'_>, i: usize, instant: &str) -> (r: String)
    ensures
        r@ == data_file_path(
            file.partition@,
            data_file_name(file.file_id@, i as int, instant@),
        ),
{
    let mut path: String = file.partition.to_owned();
    proof {
        reveal_strlit("");
        if file.partition@.len() == 0 {
            assert(file.partition@ =~= ""@);
        }
    }
    if !same_text(file.partition, "") {
        path.push('/');
    }
    let ghost directory = path@;
    let number: String = count_text(i);
    path.append(file.file_id);
    path.append("_0-");
    path.append(number.as_str());
    path.push('-');
    path.append(number.as_str());
    path.push('_');
    path.append(instant);
    path.append(".parquet");
    proof {
        reveal_strlit("_0-");
        reveal_strlit("0-");
        assert(path@ =~= directory + data_file_name(file.file_id@, i as int, instant@));
        if file.partition@.len() == 0 {
            assert(path@ =~= data_file_name(file.file_id@, i as int, instant@));
        }
    }
    path
}

/// The names of the three files of an instant: completed, requested and in flight.
pub fn instant_files(instant: &str) -> (r: (String, String, String))
    ensures
        r.0@ == instant@ + ".commit"@,
        r.1@ == instant@ + ".commit.requested"@,
        r.2@ == instant@ + ".inflight"@,
{
    let mut completed: String = instant.to_owned();
    completed.append(".commit");
    let mut requested: String = instant.to_owned();
    requested.append(".commit.requested");
    let mut inflight: String = instant.to_owned();
    inflight.append(".inflight");
    (completed, requested, inflight)
}

/// What the write stat of a file says.
pub struct WriteStatView {
    pub file_id: Seq<char>,
    pub path: Seq<char>,
    pub partition: Seq<char>,
    pub rows: int,
    pub size: int,
    pub cdc_files: Seq<(Seq<char>, int)>,
}

/// The change files of a write.
pub open spec fn cdc_views(files: Seq<(String, i64)>) -> Seq<(Seq<char>, int)> {
    files.map_values(|f: (String, i64)| (f.0@, f.1 as int))
}

/// The counts of change files, as members of an object.
pub open spec fn count_entries(files: Seq<(Seq<char>, int)>) -> Seq<(Seq<char>, JsonView)> {
    files.map_values(|f: (Seq<char>, int)| (f.0, JsonView::Integer(f.1)))
}

/// Whether a value is the `cdcStats` of a write: null without change files, else an object that
/// maps their paths to their counts.
pub open spec fn is_cdc_stats(v: JsonView, files: Seq<(Seq<char>, int)>) -> bool {
    if files.len() == 0 {
        v == JsonView::Null
    } else {
        v matches JsonView::Object(m) && is_object_of(m, count_entries(files))
    }
}

/// The members of a write stat, given what its `cdcStats` is.
pub open spec fn stat_entries(stat: WriteStatView, cdc_stats: JsonView) -> Seq<
    (Seq<char>, JsonView),
> {
    seq![
        ("fileId"@, JsonView::Text(stat.file_id)),
        ("path"@, JsonView::Text(stat.path)),
        ("partitionPath"@, JsonView::Text(stat.partition)),
        ("numWrites"@, JsonView::Integer(stat.rows)),
        ("numInserts"@, JsonView::Integer(stat.rows)),
        ("numUpdateWrites"@, JsonView::Integer(0)),
        ("numDeletes"@, JsonView::Integer(0)),
        ("totalWriteBytes"@, JsonView::Integer(stat.size)),
        ("fileSizeInBytes"@, JsonView::Integer(stat.size)),
        ("cdcStats"@, cdc_stats),
    ]
}

/// Whether a JSON object is the given write stat, with the given `cdcStats`.
pub open spec fn has_stat(v: serde_json::Value, stat: WriteStatView, cdc_stats: JsonView) -> bool {
    &&& is_cdc_stats(cdc_stats, stat.cdc_files)
    &&& json_view(v) matches JsonView::Object(m) && is_object_of(m, stat_entries(stat, cdc_stats))
}

/// Whether a JSON object is the given write stat.
pub open spec fn is_write_stat(v: serde_json::Value, stat: WriteStatView) -> bool {
    exists|cdc_stats: JsonView| has_stat(v, stat, cdc_stats)
}

fn entry(name: &str, node: JsonNode) -> (r: (String, serde_json::Value))
    ensures
        r.0@ == name@,
        json_view(r.1) == node@,
{
    (name.to_owned(), json_value(node))
}

fn cdc_stats_of(files: &Vec<(String, i64)>) -> (r: JsonNode)
    ensures
        is_cdc_stats(r@, cdc_views(files@)),
{
    if files.len() == 0 {
        return JsonNode::Null;
    }
    let mut entries: Vec<(String, serde_json::Value)> = Vec::new();
    let mut i: usize = 0;
    while i < files.len()
        invariant
            i <= files@.len(),
            entries@.len() == i,
            forall|k: int|
                0 <= k < i ==> (#[trigger] entries@[k]).0@ == files@[k].0@ && json_view(
                    entries@[k].1,
                ) == JsonView::Integer(files@[k].1 as int),
        decreases files@.len() - i,
    {
        entries.push(entry(files[i].0.as_str(), JsonNode::Integer(files[i].1)));
        i += 1;
    }
    assert(entry_views(entries@) =~= count_entries(cdc_views(files@)));
    JsonNode::Object(object_from(entries))
}

/// What the write stat of the file at position `i` of a commit says, the file having `size`
/// bytes.
pub open spec fn stat_of(file: WriteFile, i: int, instant: Seq<char>, size: i64) -> WriteStatView {
    WriteStatView {
        file_id: file.file_id@,
        path: data_file_path(file.partition@, data_file_name(file.file_id@, i, instant)),
        partition: file.partition@,
        rows: batch_rows(*file.batch) as int,
        size: size as int,
        cdc_files: cdc_views(file.cdc_files@),
    }
}

/// The write stat of the file at position `i` of a commit.
pub fn write_stat(file: &WriteFile<'_>, i: usize, instant: &str, size: i64) -> (r: serde_json::Value)
    ensures
        is_write_stat(r, stat_of(*file, i as int, instant@, size)),
{
    let ghost stat = stat_of(*file, i as int, instant@, size);
    let rows: usize = rows_of(file.batch);
    let cdc_stats: JsonNode = cdc_stats_of(&file.cdc_files);
    let ghost cdc_view = cdc_stats@;
    let mut entries: Vec<(String, serde_json::Value)> = Vec::new();
    entries.push(entry("fileId", JsonNode::Text(file.file_id.to_owned())));
    entries.push(entry("path", JsonNode::Text(relative_path(file, i, instant))));
    entries.push(entry("partitionPath", JsonNode::Text(file.partition.to_owned())));
    entries.push(entry("numWrites", JsonNode::Count(rows)));
    entries.push(entry("numInserts", JsonNode::Count(rows)));
    entries.push(entry("numUpdateWrites", JsonNode::Integer(0)));
    entries.push(entry("numDeletes", JsonNode::Integer(0)));
    entries.push(entry("totalWriteBytes", JsonNode::Integer(size)));
    entries.push(entry("fileSizeInBytes", JsonNode::Integer(size)));
    entries.push(entry("cdcStats", cdc_stats));
    assert(entry_views(entries@) =~= stat_entries(stat, cdc_view));
    let r: serde_json::Value = json_value(JsonNode::Object(object_from(entries)));
    assert(has_stat(r, stat, cdc_view));
    r
}

/// The write stats of a partition, in order.
pub open spec fn stats_of_partition(
    stats: Seq<(Seq<char>, serde_json::Value)>,
    partition: Seq<char>,
) -> Seq<serde_json::Value>
    decreases stats.len(),
{
    if stats.len() == 0 {
        Seq::empty()
    } else {
        let before = stats_of_partition(stats.drop_last(), partition);
        if stats.last().0 == partition {
            before.push(stats.last().1)
        } else {
            before
        }
    }
}

/// What a list of write stats, each with its partition, stands for.
pub open spec fn stat_views(stats: Seq<(String, serde_json::Value)>) -> Seq<
    (Seq<char>, serde_json::Value),
> {
    stats.map_values(|s: (String, serde_json::Value)| (s.0@, s.1))
}

/// Whether an object maps each partition that has write stats to them, and no other name to
/// anything.
pub open spec fn groups_stats(
    m: serde_json::Map<String, serde_json::Value>,
    stats: Seq<(Seq<char>, serde_json::Value)>,
) -> bool {
    &&& forall|partition: Seq<char>, v: serde_json::Value| #[trigger]
        has_member(m, partition, v) ==> json_view(v) == JsonView::Array(
            stats_of_partition(stats, partition),
        )
    &&& forall|partition: Seq<char>|
        #[trigger] member(m, partition) is Some <==> stats_of_partition(stats, partition).len() > 0
}

/// The members of commit metadata, given its write stats by partition.
pub open spec fn commit_entries(
    partitions: serde_json::Map<String, serde_json::Value>,
    op_type: Seq<char>,
) -> Seq<(Seq<char>, JsonView)> {
    seq![
        ("partitionToWriteStats"@, JsonView::Object(partitions)),
        ("operationType"@, JsonView::Text(op_type)),
        ("compacted"@, JsonView::Bool(false)),
    ]
}

/// Whether an object is the metadata of a commit, with the given write stats by partition.
pub open spec fn has_stats(
    m: serde_json::Map<String, serde_json::Value>,
    partitions: serde_json::Map<String, serde_json::Value>,
    stats: Seq<(Seq<char>, serde_json::Value)>,
    op_type: Seq<char>,
) -> bool {
    groups_stats(partitions, stats) && is_object_of(m, commit_entries(partitions, op_type))
}

/// Whether an object is the metadata of a commit with the given write stats.
pub open spec fn is_commit_metadata(
    m: serde_json::Map<String, serde_json::Value>,
    stats: Seq<(Seq<char>, serde_json::Value)>,
    op_type: Seq<char>,
) -> bool {
    exists|partitions: serde_json::Map<String, serde_json::Value>|
        has_stats(m, partitions, stats, op_type)
}

/// The write stats of one partition.
fn collect_partition(stats: &Vec<(String, serde_json::Value)>, partition: &str) -> (r: Vec<
    serde_json::Value,
>)
    ensures
        r@ == stats_of_partition(stat_views(stats@), partition@),
{
    let ghost all = stat_views(stats@);
    let mut group: Vec<serde_json::Value> = Vec::new();
    let mut i: usize = 0;
    while i < stats.len()
        invariant
            all == stat_views(stats@),
            i <= stats@.len(),
            group@ =~= stats_of_partition(all.take(i as int), partition@),
        decreases stats@.len() - i,
    {
        assert(all.take(i + 1).drop_last() =~= all.take(i as int));
        assert(all.take(i + 1).last() == all[i as int]);
        if same_text(stats[i].0.as_str(), partition) {
            group.push(stats[i].1.clone());
        }
        i += 1;
    }
    assert(all.take(i as int) =~= all);
    group
}

proof fn partition_has_stats(stats: Seq<(Seq<char>, serde_json::Value)>, partition: Seq<char>)
    ensures
        stats_of_partition(stats, partition).len() > 0 <==> exists|i: int|
            0 <= i < stats.len() && (#[trigger] stats[i]).0 == partition,
    decreases stats.len(),
{
    if stats.len() > 0 {
        let shorter = stats.drop_last();
        partition_has_stats(shorter, partition);
        if exists|i: int| 0 <= i < shorter.len() && (#[trigger] shorter[i]).0 == partition {
            let i = choose|i: int| 0 <= i < shorter.len() && (#[trigger] shorter[i]).0 == partition;
            assert(stats[i].0 == partition);
        }
        if exists|i: int| 0 <= i < stats.len() && (#[trigger] stats[i]).0 == partition {
            let i = choose|i: int| 0 <= i < stats.len() && (#[trigger] stats[i]).0 == partition;
            if i < shorter.len() {
                assert(shorter[i].0 == partition);
            }
        }
        assert(stats[stats.len() - 1] == stats.last());
    }
}

/// Where every entry maps a partition to its write stats, the last entry of a partition does.
proof fn grouped_entry(
    entries: Seq<(Seq<char>, JsonView)>,
    stats: Seq<(Seq<char>, serde_json::Value)>,
    partition: Seq<char>,
)
    requires
        forall|k: int|
            0 <= k < entries.len() ==> (#[trigger] entries[k]).1 == JsonView::Array(
                stats_of_partition(stats, entries[k].0),
            ),
    ensures
        match last_named(entries, partition) {
            Some(v) => v == JsonView::Array(stats_of_partition(stats, partition)) && exists|k: int|
                0 <= k < entries.len() && (#[trigger] entries[k]).0 == partition,
            None => forall|k: int|
                0 <= k < entries.len() ==> (#[trigger] entries[k]).0 != partition,
        },
    decreases entries.len(),
{
    if entries.len() > 0 {
        let shorter = entries.drop_last();
        assert forall|k: int| 0 <= k < shorter.len() implies (#[trigger] shorter[k]).1
            == JsonView::Array(stats_of_partition(stats, shorter[k].0)) by {
            assert(shorter[k] == entries[k]);
        }
        grouped_entry(shorter, stats, partition);
        assert(entries[entries.len() - 1] == entries.last());
        if entries.last().0 != partition {
            if last_named(shorter, partition) is Some {
                let k = choose|k: int|
                    0 <= k < shorter.len() && (#[trigger] shorter[k]).0 == partition;
                assert(entries[k].0 == partition);
            } else {
                assert forall|k: int| 0 <= k < entries.len() implies (#[trigger] entries[k]).0
                    != partition by {
                    if k < shorter.len() {
                        assert(shorter[k] == entries[k]);
                    }
                }
            }
        }
    }
}

fn group_by_partition(stats: &Vec<(String, serde_json::Value)>) -> (r: serde_json::Map<
    String,
    serde_json::Value,
>)
    ensures
        groups_stats(r, stat_views(stats@)),
{
    let ghost all = stat_views(stats@);
    let mut entries: Vec<(String, serde_json::Value)> = Vec::new();
    let mut i: usize = 0;
    while i < stats.len()
        invariant
            all == stat_views(stats@),
            i <= stats@.len(),
            entries@.len() == i,
            forall|k: int|
                0 <= k < i ==> (#[trigger] entries@[k]).0@ == all[k].0 && json_view(entries@[k].1)
                    == JsonView::Array(stats_of_partition(all, all[k].0)),
        decreases stats@.len() - i,
    {
        let group: Vec<serde_json::Value> = collect_partition(stats, stats[i].0.as_str());
        assert(all[i as int].0 == stats@[i as int].0@);
        entries.push(entry(stats[i].0.as_str(), JsonNode::Array(group)));
        i += 1;
    }
    let ghost views = entry_views(entries@);
    let m: serde_json::Map<String, serde_json::Value> = object_from(entries);
    proof {
        assert forall|k: int| 0 <= k < views.len() implies (#[trigger] views[k]).1
            == JsonView::Array(stats_of_partition(all, views[k].0)) by {
            assert(views[k].0 == all[k].0);
        }
        assert forall|partition: Seq<char>, v: serde_json::Value| #[trigger]
            has_member(m, partition, v) implies json_view(v) == JsonView::Array(
            stats_of_partition(all, partition),
        ) by {
            grouped_entry(views, all, partition);
        }
        assert forall|partition: Seq<char>|
            #[trigger] member(m, partition) is Some <==> stats_of_partition(all, partition).len()
                > 0 by {
            grouped_entry(views, all, partition);
            partition_has_stats(all, partition);
            if member(m, partition) is Some {
                let k = choose|k: int| 0 <= k < views.len() && (#[trigger] views[k]).0 == partition;
                assert(all[k].0 == partition);
            } else {
                assert forall|k: int| 0 <= k < all.len() implies (#[trigger] all[k]).0
                    != partition by {
                    assert(views[k].0 == all[k].0);
                }
            }
        }
    }
    m
}

/// The metadata of a commit: its write stats by partition, and the type of the operation.
pub fn commit_metadata(stats: &Vec<(String, serde_json::Value)>, op_type: &str) -> (r: serde_json::Map<
    String,
    serde_json::Value,
>)
    ensures
        is_commit_metadata(r, stat_views(stats@), op_type@),
{
    let partitions: serde_json::Map<String, serde_json::Value> = group_by_partition(stats);
    let ghost grouped = partitions;
    let mut entries: Vec<(String, serde_json::Value)> = Vec::new();
    entries.push(entry("partitionToWriteStats", JsonNode::Object(partitions)));
    entries.push(entry("operationType", JsonNode::Text(op_type.to_owned())));
    entries.push(entry("compacted", JsonNode::Bool(false)));
    assert(entry_views(entries@) =~= commit_entries(grouped, op_type@));
    let m: serde_json::Map<String, serde_json::Value> = object_from(entries);
    assert(has_stats(m, grouped, stat_views(stats@), op_type@));
    m
}

/// Whether bytes are the text of a JSON object with the given members.
pub open spec fn is_text_of(
    bytes: Seq<u8>,
    m: serde_json::Map<String, serde_json::Value>,
) -> bool {
    exists|v: serde_json::Value|
        json_view(v) == JsonView::Object(m) && bytes == #[trigger] pretty_json(v)
}

/// The text of a `.commit` file.
pub fn commit_body(metadata: serde_json::Map<String, serde_json::Value>) -> (r: Vec<u8>)
    ensures
        is_text_of(r@, metadata),
{
    pretty_text(&json_value(JsonNode::Object(metadata)))
}

} // verus!
