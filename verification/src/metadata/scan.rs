//! Reading the index partitions of the metadata table, step by step.
//!
//! A scan says which base file to read next and takes in what came of it; opening and reading
//! the files is left to the caller.

use vstd::prelude::*;
use vstd::string::*;
use vstd::utf8::encode_utf8;
use crate::avro::{datum_of, datum_view, is_decode_error};
use crate::avro_schema::{is_decodable, schema_shape};
use crate::error::CoreError;
use crate::metadata::base_file::{
    are_latest, base_file_views, chosen_hfile_is_newest, committed_base_files, hfile_name,
    hfile_name_is, is_committed_hfile, latest_base_files, newest_hfile_is_chosen, BaseFile,
    BaseFileView,
};
use crate::metadata::column_stats::{
    column_stats_in, column_stats_to_containers, containers_hold,
    decode_column_stats_record_with_schema, record_views, stored_column_stats, ColumnStatsRecord,
    ColumnStatsView, HFileRecord,
};
use crate::metadata::record_index::{
    decode_record_location_with_schema, location_in, location_view, stored_location,
    RecordLocation, RecordLocationView, RECORD_INDEX_PARTITION_NAME,
};
use crate::named::NamedMap;
use crate::order::{is_row_order, placed_before, row_bytes, row_order, same_encoding, text_less};
use crate::schema::SchemaDef;
use crate::statistics::StatisticsContainer;
use crate::text::{has_substring, has_suffix, same_text, text_views};

verus! {

/// The path of a base file, relative to the metadata table.
pub open spec fn path_in(partition: Seq<char>, b: BaseFileView) -> Seq<char> {
    partition.push('/') + b.name()
}

/// The paths of several base files.
pub open spec fn paths_in(partition: Seq<char>, files: Seq<BaseFileView>) -> Seq<Seq<char>> {
    files.map_values(|b: BaseFileView| path_in(partition, b))
}

/// Whether `paths` lead to `files`, which are the latest committed base files among the names.
pub open spec fn lead_to_latest(
    paths: Seq<Seq<char>>,
    partition: Seq<char>,
    names: Seq<Seq<char>>,
    latest: Seq<char>,
    files: Seq<BaseFileView>,
) -> bool {
    are_latest(files, committed_base_files(names, latest)) && paths == paths_in(partition, files)
}

/// Whether `paths` lead to the latest committed base files among the names.
pub open spec fn are_latest_paths(
    paths: Seq<Seq<char>>,
    partition: Seq<char>,
    names: Seq<Seq<char>>,
    latest: Seq<char>,
) -> bool {
    exists|files: Seq<BaseFileView>|
        #[trigger] lead_to_latest(paths, partition, names, latest, files)
}

/// Whether `paths` lead to the latest committed base files of a partition, given the names of
/// its files. Without a commit there is nothing to read.
pub open spec fn are_scan_paths(
    paths: Seq<Seq<char>>,
    partition: Seq<char>,
    names: Seq<Seq<char>>,
    latest: Option<Seq<char>>,
) -> bool {
    match latest {
        Some(ts) => are_latest_paths(paths, partition, names, ts),
        None => paths.len() == 0,
    }
}

/// What an optional text stands for.
pub open spec fn optional_text(t: Option<&str>) -> Option<Seq<char>> {
    match t {
        Some(t) => Some(t@),
        None => None,
    }
}

fn scan_paths(partition: &str, names: &Vec<String>, latest: Option<&str>) -> (r: Vec<String>)
    ensures
        are_scan_paths(text_views(r@), partition@, text_views(names@), optional_text(latest)),
{
    let mut paths: Vec<String> = Vec::new();
    if let Some(ts) = latest {
        let files: Vec<BaseFile> = latest_base_files(names, ts);
        let mut i: usize = 0;
        while i < files.len()
            invariant
                i <= files@.len(),
                paths@.len() == i,
                forall|k: int|
                    0 <= k < i ==> (#[trigger] paths@[k])@ == path_in(partition@, files@[k]@),
            decreases files@.len() - i,
        {
            let mut path: String = partition.to_owned();
            path.push('/');
            let name: String = files[i].file_name();
            path.append(name.as_str());
            paths.push(path);
            i += 1;
        }
        assert(text_views(paths@) =~= paths_in(partition@, base_file_views(files@)));
        assert(lead_to_latest(
            text_views(paths@),
            partition@,
            text_views(names@),
            ts@,
            base_file_views(files@),
        ));
    }
    paths
}

/// The message of a base file that could not be opened.
pub open spec fn open_failure(partition: Seq<char>, path: Seq<char>, cause: Seq<char>) -> Seq<
    char,
> {
    "Failed to open "@ + partition + " base file "@ + path + ": "@ + cause
}

/// The message of a base file whose schema could not be read.
pub open spec fn schema_failure(partition: Seq<char>, cause: Seq<char>) -> Seq<char> {
    "Failed to get "@ + partition + " schema: "@ + cause
}

/// The message of a base file whose records could not be read.
pub open spec fn read_failure(partition: Seq<char>, cause: Seq<char>) -> Seq<char> {
    "Failed to read "@ + partition + " records: "@ + cause
}

/// The message of a base file in which keys could not be looked up.
pub open spec fn lookup_failure(partition: Seq<char>, cause: Seq<char>) -> Seq<char> {
    "Failed to look up "@ + partition + " keys: "@ + cause
}

fn open_failure_text(partition: &str, path: &str, cause: &str) -> (r: String)
    ensures
        r@ == open_failure(partition@, path@, cause@),
{
    let mut m: String = "Failed to open ".to_owned();
    m.append(partition);
    m.append(" base file ");
    m.append(path);
    m.append(": ");
    m.append(cause);
    m
}

fn schema_failure_text(partition: &str, cause: &str) -> (r: String)
    ensures
        r@ == schema_failure(partition@, cause@),
{
    let mut m: String = "Failed to get ".to_owned();
    m.append(partition);
    m.append(" schema: ");
    m.append(cause);
    m
}

fn read_failure_text(partition: &str, cause: &str) -> (r: String)
    ensures
        r@ == read_failure(partition@, cause@),
{
    let mut m: String = "Failed to read ".to_owned();
    m.append(partition);
    m.append(" records: ");
    m.append(cause);
    m
}

fn lookup_failure_text(partition: &str, cause: &str) -> (r: String)
    ensures
        r@ == lookup_failure(partition@, cause@),
{
    let mut m: String = "Failed to look up ".to_owned();
    m.append(partition);
    m.append(" keys: ");
    m.append(cause);
    m
}

/// Whether an error is a failure of the metadata table with the given message.
pub open spec fn fails_with<T>(r: Result<T, CoreError>, message: Seq<char>) -> bool {
    r matches Err(CoreError::MetadataTable(m)) && m@ == message
}

/// What came of reading all records of a base file.
pub enum ReadOutcome {
    /// The file could not be opened.
    OpenFailed(String),
    /// The schema could not be read.
    SchemaFailed(String),
    /// The file holds no schema.
    NoSchema,
    /// The records could not be read.
    ReadFailed(String),
    /// The schema and the records.
    Records(apache_avro::Schema, Vec<HFileRecord>),
}

/// The column statistics that records carry, in order.
pub open spec fn stored_stats(schema: apache_avro::Schema, records: Seq<HFileRecord>) -> Seq<
    ColumnStatsView,
>
    decreases records.len(),
{
    if records.len() == 0 {
        Seq::empty()
    } else {
        let before = stored_stats(schema, records.drop_last());
        match stored_column_stats(schema, records.last().value@) {
            Some(stats) => before.push(stats),
            None => before,
        }
    }
}

/// Whether a stored value is a tombstone, or bytes that can be decoded.
pub open spec fn is_taken(schema: apache_avro::Schema, value: Seq<u8>) -> bool {
    value.len() == 0 || is_decodable(schema_shape(schema), value)
}

/// Whether a stored value is no tombstone and an error is what comes of decoding it.
pub open spec fn is_refused(schema: apache_avro::Schema, value: Seq<u8>, e: CoreError) -> bool {
    value.len() > 0 && is_decode_error(schema, value, e)
}

/// A scan of the `column_stats` or the `partition_stats` partition.
pub struct StatsScan {
    partition_name: String,
    paths: Vec<String>,
    next: usize,
    records: Vec<ColumnStatsRecord>,
}

impl StatsScan {
    #[verifier::type_invariant]
    spec fn well_formed(&self) -> bool {
        self.next <= self.paths@.len()
    }

    /// The partition that is read.
    pub closed spec fn partition(&self) -> Seq<char> {
        self.partition_name@
    }

    /// The base files that are still to be read.
    pub closed spec fn pending(&self) -> Seq<Seq<char>> {
        text_views(self.paths@).skip(self.next as int)
    }

    /// The column statistics that were read.
    pub closed spec fn gathered(&self) -> Seq<ColumnStatsView> {
        record_views(self.records@)
    }

    /// Starts a scan: the latest committed base file of each file group is to be read.
    pub fn start(partition_name: &str, names: &Vec<String>, latest: Option<&str>) -> (r: StatsScan)
        ensures
            r.partition() == partition_name@,
            are_scan_paths(
                r.pending(),
                partition_name@,
                text_views(names@),
                optional_text(latest),
            ),
            r.gathered() == Seq::<ColumnStatsView>::empty(),
    {
        let paths: Vec<String> = scan_paths(partition_name, names, latest);
        let r: StatsScan = StatsScan {
            partition_name: partition_name.to_owned(),
            paths,
            next: 0,
            records: Vec::new(),
        };
        assert(r.pending() =~= text_views(r.paths@));
        assert(r.gathered() =~= Seq::<ColumnStatsView>::empty());
        r
    }

    /// The base file to read next; `None` when all are read.
    pub fn next_path(&self) -> (r: Option<&String>)
        ensures
            match r {
                Some(path) => self.pending().len() > 0 && path@ == self.pending()[0],
                None => self.pending().len() == 0,
            },
    {
        proof {
            use_type_invariant(self);
        }
        if self.next < self.paths.len() {
            Some(&self.paths[self.next])
        } else {
            None
        }
    }

    /// Takes in what came of reading the next base file.
    ///
    /// A failure ends the scan and leaves it as it was. A file without a schema adds nothing.
    pub fn accept(&mut self, outcome: ReadOutcome) -> (r: Result<(), CoreError>)
        requires
            old(self).pending().len() > 0,
        ensures
            final(self).partition() == old(self).partition(),
            r is Err ==> final(self).pending() == old(self).pending() && final(self).gathered()
                == old(self).gathered(),
            r is Ok ==> final(self).pending() == old(self).pending().drop_first(),
            match outcome {
                ReadOutcome::OpenFailed(cause) => fails_with(
                    r,
                    open_failure(old(self).partition(), old(self).pending()[0], cause@),
                ),
                ReadOutcome::SchemaFailed(cause) => fails_with(
                    r,
                    schema_failure(old(self).partition(), cause@),
                ),
                ReadOutcome::NoSchema => r is Ok && final(self).gathered() == old(self).gathered(),
                ReadOutcome::ReadFailed(cause) => fails_with(
                    r,
                    read_failure(old(self).partition(), cause@),
                ),
                ReadOutcome::Records(schema, records) => match r {
                    Ok(()) => final(self).gathered() == old(self).gathered() + stored_stats(
                        schema,
                        records@,
                    ) && (forall|k: int|
                        0 <= k < records@.len() ==> is_taken(
                            schema,
                            (#[trigger] records@[k]).value@,
                        )),
                    Err(e) => exists|k: int|
                        0 <= k < records@.len() && is_refused(
                            schema,
                            (#[trigger] records@[k]).value@,
                            e,
                        ),
                },
            },
    {
        proof {
            use_type_invariant(&*self);
        }
        let partition: &str = self.partition_name.as_str();
        match outcome {
            ReadOutcome::OpenFailed(cause) => {
                let path: &str = self.paths[self.next].as_str();
                return Err(
                    CoreError::MetadataTable(open_failure_text(partition, path, cause.as_str())),
                );
            },
            ReadOutcome::SchemaFailed(cause) => {
                return Err(
                    CoreError::MetadataTable(schema_failure_text(partition, cause.as_str())),
                );
            },
            ReadOutcome::NoSchema => {},
            ReadOutcome::ReadFailed(cause) => {
                return Err(
                    CoreError::MetadataTable(read_failure_text(partition, cause.as_str())),
                );
            },
            ReadOutcome::Records(schema, records) => {
                let mut decoded: Vec<ColumnStatsRecord> = match decode_all(&schema, &records) {
                    Ok(d) => d,
                    Err(e) => {
                        return Err(e);
                    },
                };
                let ghost more = record_views(decoded@);
                let mut gathered: Vec<ColumnStatsRecord> = Vec::new();
                std::mem::swap(&mut gathered, &mut self.records);
                gathered.append(&mut decoded);
                self.records = gathered;
                assert(self.gathered() =~= old(self).gathered() + more);
            },
        }
        let total: usize = self.paths.len();
        assert(self.next < total);
        self.next = self.next + 1;
        assert(self.pending() =~= old(self).pending().drop_first());
        Ok(())
    }

    /// Groups what was read into containers, typed by the table schema.
    pub fn finish(&self, schema: &SchemaDef) -> (r: NamedMap<StatisticsContainer>)
        ensures
            containers_hold(r@, self.gathered(), schema@.fields),
    {
        column_stats_to_containers(&self.records, schema)
    }
}

fn decode_all(schema: &apache_avro::Schema, records: &Vec<HFileRecord>) -> (r: Result<
    Vec<ColumnStatsRecord>,
    CoreError,
>)
    ensures
        match r {
            Ok(decoded) => record_views(decoded@) == stored_stats(*schema, records@) && (forall|
                k: int,
            |
                0 <= k < records@.len() ==> is_taken(*schema, (#[trigger] records@[k]).value@)),
            Err(e) => exists|k: int|
                0 <= k < records@.len() && is_refused(
                    *schema,
                    (#[trigger] records@[k]).value@,
                    e,
                ),
        },
{
    let mut decoded: Vec<ColumnStatsRecord> = Vec::new();
    let mut i: usize = 0;
    assert(record_views(decoded@) =~= stored_stats(*schema, records@.take(0)));
    while i < records.len()
        invariant
            i <= records@.len(),
            record_views(decoded@) == stored_stats(*schema, records@.take(i as int)),
            forall|k: int| 0 <= k < i ==> is_taken(*schema, (#[trigger] records@[k]).value@),
        decreases records@.len() - i,
    {
        let ghost before = decoded@;
        assert(records@.take(i + 1).drop_last() =~= records@.take(i as int));
        match decode_column_stats_record_with_schema(&records[i], schema) {
            Ok(Some(stats)) => {
                decoded.push(stats);
                assert(record_views(decoded@) =~= record_views(before).push(stats@));
            },
            Ok(None) => {},
            Err(e) => {
                assert(is_refused(*schema, records@[i as int].value@, e));
                return Err(e);
            },
        }
        i += 1;
    }
    assert(records@.take(i as int) =~= records@);
    Ok(decoded)
}

/// What came of looking keys up in a base file.
pub enum LookupOutcome {
    /// The file could not be opened.
    OpenFailed(String),
    /// The schema could not be read.
    SchemaFailed(String),
    /// The file holds no schema.
    NoSchema,
    /// The keys could not be looked up.
    LookupFailed(String),
    /// The schema, and for each key that was looked up the record with that key, if any.
    Hits(apache_avro::Schema, Vec<(String, Option<HFileRecord>)>),
}

/// The location that a hit gives for its key.
pub open spec fn hit_location(schema: apache_avro::Schema, record: Option<HFileRecord>) -> Option<
    RecordLocationView,
> {
    match record {
        Some(record) => stored_location(schema, record.value@),
        None => None,
    }
}

/// The location that the hits give for a key: the one of the last hit that gives any.
pub open spec fn hits_location(
    schema: apache_avro::Schema,
    hits: Seq<(String, Option<HFileRecord>)>,
    key: Seq<char>,
) -> Option<RecordLocationView>
    decreases hits.len(),
{
    if hits.len() == 0 {
        None
    } else if hits.last().0@ == key && hit_location(schema, hits.last().1) is Some {
        hit_location(schema, hits.last().1)
    } else {
        hits_location(schema, hits.drop_last(), key)
    }
}

/// The value to decode of a hit: an empty one where there is none.
pub open spec fn hit_value(hit: Option<HFileRecord>) -> Seq<u8> {
    match hit {
        Some(record) => record.value@,
        None => Seq::empty(),
    }
}

/// The location of a key.
pub open spec fn location_of(found: Map<Seq<char>, RecordLocation>, key: Seq<char>) -> Option<
    RecordLocationView,
> {
    if found.contains_key(key) {
        Some(found[key]@)
    } else {
        None
    }
}

/// `sorted` holds the texts of `keys`, each once, in ascending order of their bytes.
pub open spec fn are_sorted_keys(sorted: Seq<Seq<char>>, keys: Seq<Seq<char>>) -> bool {
    &&& forall|i: int, j: int|
        0 <= i < j < sorted.len() ==> text_less(#[trigger] sorted[i], #[trigger] sorted[j])
    &&& forall|key: Seq<char>| #[trigger] sorted.contains(key) <==> keys.contains(key)
}

fn encoded(s: &str) -> (r: Vec<u8>)
    ensures
        r@ == encode_utf8(s@),
{
    let bytes: &[u8] = s.as_bytes();
    let mut r: Vec<u8> = Vec::new();
    let mut i: usize = 0;
    while i < bytes.len()
        invariant
            i <= bytes@.len(),
            r@ =~= bytes@.take(i as int),
        decreases bytes@.len() - i,
    {
        r.push(bytes[i]);
        i += 1;
    }
    r
}

/// Sorts keys and drops repetitions, as keyed lookups expect.
pub fn sorted_keys(keys: &Vec<String>) -> (r: Vec<String>)
    ensures
        are_sorted_keys(text_views(r@), text_views(keys@)),
{
    let ghost all = text_views(keys@);
    let mut rows: Vec<Vec<u8>> = Vec::new();
    let mut i: usize = 0;
    while i < keys.len()
        invariant
            all == text_views(keys@),
            i <= keys@.len(),
            rows@.len() == i,
            forall|k: int| 0 <= k < i ==> (#[trigger] rows@[k])@ == encode_utf8(all[k]),
        decreases keys@.len() - i,
    {
        rows.push(encoded(keys[i].as_str()));
        i += 1;
    }
    let order: Vec<usize> = row_order(&rows, false);
    let ghost bytes = row_bytes(rows@);
    let mut sorted: Vec<String> = Vec::new();
    let ghost mut from: Seq<int> = Seq::empty();
    let mut k: usize = 0;
    while k < order.len()
        invariant
            all == text_views(keys@),
            bytes == row_bytes(rows@),
            rows@.len() == keys@.len(),
            forall|j: int| 0 <= j < rows@.len() ==> (#[trigger] rows@[j])@ == encode_utf8(all[j]),
            is_row_order(bytes, false, 0, rows@.len() as int, order@),
            k <= order@.len(),
            from.len() == sorted@.len(),
            forall|j: int|
                0 <= j < from.len() ==> 0 <= #[trigger] from[j] < k && sorted@[j]@
                    == all[order@[from[j]] as int],
            forall|j: int, l: int|
                0 <= j < l < sorted@.len() ==> text_less(
                    #[trigger] text_views(sorted@)[j],
                    #[trigger] text_views(sorted@)[l],
                ),
            forall|j: int|
                0 <= j < k ==> text_views(sorted@).contains(all[#[trigger] order@[j] as int]),
            k > 0 ==> sorted@.len() > 0 && sorted@.last()@ == all[order@[k - 1] as int],
        decreases order@.len() - k,
    {
        let ghost before = text_views(sorted@);
        let at: usize = order[k];
        let repeated: bool = sorted.len() > 0 && same_text(
            sorted[sorted.len() - 1].as_str(),
            keys[at].as_str(),
        );
        if !repeated {
            let ghost new = all[at as int];
            sorted.push(keys[at].clone());
            proof {
                from = from.push(k as int);
                assert(text_views(sorted@) =~= before.push(new));
                assert forall|j: int| 0 <= j < before.len() implies text_less(
                    #[trigger] before[j],
                    new,
                ) by {
                    let x = order@[from[j]] as int;
                    assert(placed_before(bytes, false, x, at as int));
                    assert(bytes[x] == encode_utf8(all[x]));
                    assert(bytes[at as int] == encode_utf8(new));
                    if bytes[x] == bytes[at as int] {
                        same_encoding(all[x], new);
                        let last = before.len() - 1;
                        if j < last {
                            assert(text_less(before[j], before[last]));
                            let y = order@[from[last]] as int;
                            assert(placed_before(bytes, false, y, at as int));
                            assert(bytes[y] == encode_utf8(all[y]));
                            crate::order::bytes_less_irreflexive(bytes[x]);
                            if bytes[y] == bytes[x] {
                            } else {
                                crate::order::bytes_less_transitive(bytes[x], bytes[y], bytes[x]);
                            }
                        }
                    }
                }
                assert forall|j: int| 0 <= j < k + 1 implies text_views(sorted@).contains(
                    all[#[trigger] order@[j] as int],
                ) by {
                    if j < k {
                        assert(before.contains(all[order@[j] as int]));
                        let p = choose|p: int|
                            0 <= p < before.len() && before[p] == all[order@[j] as int];
                        assert(text_views(sorted@)[p] == all[order@[j] as int]);
                    } else {
                        assert(text_views(sorted@)[before.len() as int] == new);
                    }
                }
            }
        } else {
            assert(before[sorted@.len() - 1] == all[at as int]);
        }
        k += 1;
    }
    proof {
        let views = text_views(sorted@);
        assert forall|key: Seq<char>| #[trigger] views.contains(key) <==> all.contains(key) by {
            if views.contains(key) {
                let j = choose|j: int| 0 <= j < views.len() && views[j] == key;
                assert(views[j] == all[order@[from[j]] as int]);
            }
            if all.contains(key) {
                let j = choose|j: int| 0 <= j < all.len() && all[j] == key;
                assert(order@.contains(j as usize));
                let p = choose|p: int| 0 <= p < order@.len() && order@[p] == j as usize;
                assert(views.contains(all[order@[p] as int]));
            }
        }
    }
    sorted
}

/// A lookup of record keys in the `record_index` partition.
///
/// A record key is in one file group only, but which one it is cannot be told from the key, so
/// the latest base file of every group is asked.
pub struct KeyLookup {
    keys: Vec<String>,
    paths: Vec<String>,
    next: usize,
    found: NamedMap<RecordLocation>,
}

impl KeyLookup {
    #[verifier::type_invariant]
    spec fn well_formed(&self) -> bool {
        self.next <= self.paths@.len()
    }

    /// The keys to look up.
    pub closed spec fn wanted(&self) -> Seq<Seq<char>> {
        text_views(self.keys@)
    }

    /// The base files that are still to be asked.
    pub closed spec fn pending(&self) -> Seq<Seq<char>> {
        text_views(self.paths@).skip(self.next as int)
    }

    /// The locations that were found, by key.
    pub closed spec fn located(&self) -> Map<Seq<char>, RecordLocation> {
        self.found@
    }

    /// Starts a lookup. Without keys there is nothing to ask.
    pub fn start(record_keys: &Vec<String>, names: &Vec<String>, latest: Option<&str>) -> (r:
        KeyLookup)
        ensures
            are_sorted_keys(r.wanted(), text_views(record_keys@)),
            record_keys@.len() == 0 ==> r.pending().len() == 0,
            record_keys@.len() > 0 ==> are_scan_paths(
                r.pending(),
                RECORD_INDEX_PARTITION_NAME@,
                text_views(names@),
                optional_text(latest),
            ),
            r.located() == Map::<Seq<char>, RecordLocation>::empty(),
    {
        let keys: Vec<String> = sorted_keys(record_keys);
        let paths: Vec<String> = if record_keys.len() == 0 {
            Vec::new()
        } else {
            scan_paths(RECORD_INDEX_PARTITION_NAME, names, latest)
        };
        let r: KeyLookup = KeyLookup { keys, paths, next: 0, found: NamedMap::new() };
        assert(r.pending() =~= text_views(r.paths@));
        r
    }

    /// The keys to look up, sorted.
    pub fn keys(&self) -> (r: &Vec<String>)
        ensures
            text_views(r@) == self.wanted(),
    {
        &self.keys
    }

    /// The base file to ask next; `None` when all are asked.
    pub fn next_path(&self) -> (r: Option<&String>)
        ensures
            match r {
                Some(path) => self.pending().len() > 0 && path@ == self.pending()[0],
                None => self.pending().len() == 0,
            },
    {
        proof {
            use_type_invariant(self);
        }
        if self.next < self.paths.len() {
            Some(&self.paths[self.next])
        } else {
            None
        }
    }

    /// Takes in what came of asking the next base file.
    ///
    /// A failure ends the lookup and leaves it as it was. A file without a schema adds nothing,
    /// and neither does a hit without a location.
    pub fn accept(&mut self, outcome: LookupOutcome) -> (r: Result<(), CoreError>)
        requires
            old(self).pending().len() > 0,
        ensures
            final(self).wanted() == old(self).wanted(),
            r is Err ==> final(self).pending() == old(self).pending() && final(self).located()
                == old(self).located(),
            r is Ok ==> final(self).pending() == old(self).pending().drop_first(),
            match outcome {
                LookupOutcome::OpenFailed(cause) => fails_with(
                    r,
                    open_failure(
                        RECORD_INDEX_PARTITION_NAME@,
                        old(self).pending()[0],
                        cause@,
                    ),
                ),
                LookupOutcome::SchemaFailed(cause) => fails_with(
                    r,
                    schema_failure(RECORD_INDEX_PARTITION_NAME@, cause@),
                ),
                LookupOutcome::NoSchema => r is Ok && final(self).located() == old(self).located(),
                LookupOutcome::LookupFailed(cause) => fails_with(
                    r,
                    lookup_failure(RECORD_INDEX_PARTITION_NAME@, cause@),
                ),
                LookupOutcome::Hits(schema, hits) => match r {
                    Ok(_) => {
                        &&& forall|k: int|
                            0 <= k < hits@.len() ==> is_taken(
                                schema,
                                hit_value((#[trigger] hits@[k]).1),
                            )
                        &&& forall|key: Seq<char>|
                            #[trigger] location_of(final(self).located(), key) == (
                            match hits_location(schema, hits@, key) {
                                Some(location) => Some(location),
                                None => location_of(old(self).located(), key),
                            })
                    },
                    Err(e) => exists|k: int|
                        0 <= k < hits@.len() && is_refused(
                            schema,
                            hit_value((#[trigger] hits@[k]).1),
                            e,
                        ),
                },
            },
    {
        proof {
            use_type_invariant(&*self);
        }
        match outcome {
            LookupOutcome::OpenFailed(cause) => {
                let path: &str = self.paths[self.next].as_str();
                return Err(
                    CoreError::MetadataTable(
                        open_failure_text(RECORD_INDEX_PARTITION_NAME, path, cause.as_str()),
                    ),
                );
            },
            LookupOutcome::SchemaFailed(cause) => {
                return Err(
                    CoreError::MetadataTable(
                        schema_failure_text(RECORD_INDEX_PARTITION_NAME, cause.as_str()),
                    ),
                );
            },
            LookupOutcome::NoSchema => {},
            LookupOutcome::LookupFailed(cause) => {
                return Err(
                    CoreError::MetadataTable(
                        lookup_failure_text(RECORD_INDEX_PARTITION_NAME, cause.as_str()),
                    ),
                );
            },
            LookupOutcome::Hits(schema, hits) => {
                let locations: Vec<Option<RecordLocation>> = match decode_hits(&schema, &hits) {
                    Ok(locations) => locations,
                    Err(e) => {
                        return Err(e);
                    },
                };
                let mut found: NamedMap<RecordLocation> = NamedMap::new();
                std::mem::swap(&mut found, &mut self.found);
                note_hits(&mut found, &hits, locations, Ghost(schema));
                self.found = found;
            },
        }
        let total: usize = self.paths.len();
        assert(self.next < total);
        self.next = self.next + 1;
        assert(self.pending() =~= old(self).pending().drop_first());
        Ok(())
    }

    /// The locations that were found, by key.
    pub fn finish(self) -> (r: NamedMap<RecordLocation>)
        ensures
            r@ == self.located(),
    {
        self.found
    }
}

fn decode_hits(
    schema: &apache_avro::Schema,
    hits: &Vec<(String, Option<HFileRecord>)>,
) -> (r: Result<Vec<Option<RecordLocation>>, CoreError>)
    ensures
        match r {
            Ok(locations) => are_hit_locations(locations@, *schema, hits@) && (forall|k: int|
                0 <= k < hits@.len() ==> is_taken(*schema, hit_value((#[trigger] hits@[k]).1))),
            Err(e) => exists|k: int|
                0 <= k < hits@.len() && is_refused(
                    *schema,
                    hit_value((#[trigger] hits@[k]).1),
                    e,
                ),
        },
{
    let mut locations: Vec<Option<RecordLocation>> = Vec::new();
    let mut i: usize = 0;
    while i < hits.len()
        invariant
            i <= hits@.len(),
            are_hit_locations(locations@, *schema, hits@.take(i as int)),
            forall|k: int| 0 <= k < i ==> is_taken(*schema, hit_value((#[trigger] hits@[k]).1)),
        decreases hits@.len() - i,
    {
        let location: Option<RecordLocation> = match &hits[i].1 {
            Some(record) => match decode_record_location_with_schema(record.value(), schema) {
                Ok(location) => location,
                Err(e) => {
                    assert(is_refused(*schema, hit_value(hits@[i as int].1), e));
                    return Err(e);
                },
            },
            None => None,
        };
        locations.push(location);
        i += 1;
    }
    assert(hits@.take(i as int) =~= hits@);
    Ok(locations)
}

/// Whether `locations` are what the hits give for their keys.
spec fn are_hit_locations(
    locations: Seq<Option<RecordLocation>>,
    schema: apache_avro::Schema,
    hits: Seq<(String, Option<HFileRecord>)>,
) -> bool {
    &&& locations.len() == hits.len()
    &&& forall|i: int|
        0 <= i < hits.len() ==> location_view(#[trigger] locations[i]) == hit_location(
            schema,
            hits[i].1,
        )
}

fn note_hits(
    found: &mut NamedMap<RecordLocation>,
    hits: &Vec<(String, Option<HFileRecord>)>,
    locations: Vec<Option<RecordLocation>>,
    Ghost(schema): Ghost<apache_avro::Schema>,
)
    requires
        are_hit_locations(locations@, schema, hits@),
    ensures
        forall|key: Seq<char>|
            #[trigger] location_of(final(found)@, key) == (match hits_location(schema, hits@, key) {
                Some(location) => Some(location),
                None => location_of(old(found)@, key),
            }),
{
    let mut locations: Vec<Option<RecordLocation>> = locations;
    let ghost given = locations@;
    let mut i: usize = 0;
    while i < hits.len()
        invariant
            are_hit_locations(given, schema, hits@),
            locations@.len() == given.len(),
            forall|k: int| i <= k < given.len() ==> #[trigger] locations@[k] == given[k],
            i <= hits@.len(),
            forall|key: Seq<char>|
                #[trigger] location_of(found@, key) == (match hits_location(
                    schema,
                    hits@.take(i as int),
                    key,
                ) {
                    Some(location) => Some(location),
                    None => location_of(old(found)@, key),
                }),
        decreases hits@.len() - i,
    {
        let ghost before = found@;
        assert(hits@.take(i + 1).drop_last() =~= hits@.take(i as int));
        assert(hits@.take(i + 1).last() == hits@[i as int]);
        let mut location: Option<RecordLocation> = None;
        std::mem::swap(&mut location, &mut locations[i]);
        if let Some(location) = location {
            found.insert(hits[i].0.clone(), location);
        }
        assert forall|key: Seq<char>|
            #[trigger] location_of(found@, key) == (match hits_location(
                schema,
                hits@.take(i + 1),
                key,
            ) {
                Some(location) => Some(location),
                None => location_of(old(found)@, key),
            }) by {
            assert(location_of(before, key) == (match hits_location(
                schema,
                hits@.take(i as int),
                key,
            ) {
                Some(location) => Some(location),
                None => location_of(old(found)@, key),
            }));
        }
        i += 1;
    }
    assert(hits@.take(i as int) =~= hits@);
}

/// A key gets a location only from a hit of that key.
pub proof fn located_keys_were_hit(
    schema: apache_avro::Schema,
    hits: Seq<(String, Option<HFileRecord>)>,
    key: Seq<char>,
)
    requires
        hits_location(schema, hits, key) is Some,
    ensures
        exists|i: int|
            0 <= i < hits.len() && (#[trigger] hits[i]).0@ == key && hits_location(
                schema,
                hits,
                key,
            ) == hit_location(schema, hits[i].1),
    decreases hits.len(),
{
    if hits.last().0@ == key && hit_location(schema, hits.last().1) is Some {
        assert(hits[hits.len() - 1].0@ == key);
    } else {
        let shorter = hits.drop_last();
        located_keys_were_hit(schema, shorter, key);
        let i = choose|i: int|
            0 <= i < shorter.len() && (#[trigger] shorter[i]).0@ == key && hits_location(
                schema,
                shorter,
                key,
            ) == hit_location(schema, shorter[i].1);
        assert(hits[i] == shorter[i]);
    }
}

/// Where each key is hit once, a key gets the location of its hit, wherever that stands.
pub proof fn single_hit_decides(
    schema: apache_avro::Schema,
    hits: Seq<(String, Option<HFileRecord>)>,
    i: int,
)
    requires
        0 <= i < hits.len(),
        forall|k: int|
            0 <= k < hits.len() && k != i ==> (#[trigger] hits[k]).0@ != hits[i].0@,
    ensures
        hits_location(schema, hits, hits[i].0@) == hit_location(schema, hits[i].1),
{
    let key = hits[i].0@;
    if hits_location(schema, hits, key) is Some {
        located_keys_were_hit(schema, hits, key);
    } else if hit_location(schema, hits[i].1) is Some {
        last_hit_counts(schema, hits, i);
    }
}

proof fn last_hit_counts(
    schema: apache_avro::Schema,
    hits: Seq<(String, Option<HFileRecord>)>,
    i: int,
)
    requires
        0 <= i < hits.len(),
        hit_location(schema, hits[i].1) is Some,
    ensures
        hits_location(schema, hits, hits[i].0@) is Some,
    decreases hits.len(),
{
    if i < hits.len() - 1 {
        assert(hits.drop_last()[i] == hits[i]);
        last_hit_counts(schema, hits.drop_last(), i);
    }
}

/// A scan reads the base HFile with the latest commit of each file group: its path is the name of
/// the partition, a slash and the name of the file.
pub proof fn newest_hfile_is_read(
    paths: Seq<Seq<char>>,
    partition: Seq<char>,
    names: Seq<Seq<char>>,
    latest: Seq<char>,
    i: int,
    file_id: Seq<char>,
    token: Seq<char>,
    commit: Seq<char>,
)
    requires
        are_scan_paths(paths, partition, names, Some(latest)),
        0 <= i < names.len(),
        is_committed_hfile(names[i], latest, file_id, token, commit),
        forall|j: int, other: Seq<char>, later: Seq<char>|
            0 <= j < names.len() && #[trigger] is_committed_hfile(
                names[j],
                latest,
                file_id,
                other,
                later,
            ) ==> text_less(later, commit) || (later == commit && i <= j),
    ensures
        paths.contains(partition + seq!['/'] + names[i]),
{
    let files = choose|files: Seq<BaseFileView>|
        #[trigger] lead_to_latest(paths, partition, names, latest, files);
    newest_hfile_is_chosen(files, names, latest, i, file_id, token, commit);
    let b = BaseFileView {
        file_id,
        write_token: token,
        commit_timestamp: commit,
        extension: "hfile"@,
    };
    let k = choose|k: int| 0 <= k < files.len() && files[k] == b;
    let from = chosen_hfile_is_newest(files, names, latest, k);
    hfile_path_is(partition, b);
    assert(paths[k] =~= partition + seq!['/'] + names[i]);
}

proof fn hfile_path_is(partition: Seq<char>, b: BaseFileView)
    requires
        b.extension == "hfile"@,
    ensures
        path_in(partition, b) == partition + seq!['/'] + hfile_name(
            b.file_id,
            b.write_token,
            b.commit_timestamp,
        ),
{
    hfile_name_is(b);
    assert(path_in(partition, b) =~= partition + seq!['/'] + hfile_name(
        b.file_id,
        b.write_token,
        b.commit_timestamp,
    ));
}

/// A scan reads nothing else: every path leads to a base HFile of the listing whose commit is not
/// later than the latest one, and nothing is read before there is a commit.
pub proof fn only_committed_hfiles_are_read(
    paths: Seq<Seq<char>>,
    partition: Seq<char>,
    names: Seq<Seq<char>>,
    latest: Option<Seq<char>>,
    k: int,
)
    requires
        are_scan_paths(paths, partition, names, latest),
        0 <= k < paths.len(),
    ensures
        latest is Some,
        exists|i: int, file_id: Seq<char>, token: Seq<char>, commit: Seq<char>|
            0 <= i < names.len() && #[trigger] is_committed_hfile(
                names[i],
                latest->0,
                file_id,
                token,
                commit,
            ) && paths[k] == partition + seq!['/'] + names[i],
{
    let ts = latest->0;
    let files = choose|files: Seq<BaseFileView>|
        #[trigger] lead_to_latest(paths, partition, names, ts, files);
    let i = chosen_hfile_is_newest(files, names, ts, k);
    hfile_path_is(partition, files[k]);
    assert(is_committed_hfile(
        names[i],
        ts,
        files[k].file_id,
        files[k].write_token,
        files[k].commit_timestamp,
    ));
    assert(paths[k] == path_in(partition, files[k]));
}

/// The statistics of records come in the order of the records, those of each as it carries them;
/// a tombstone carries none.
pub proof fn stored_stats_follow_the_records(
    schema: apache_avro::Schema,
    before: Seq<HFileRecord>,
    record: HFileRecord,
    after: Seq<HFileRecord>,
)
    ensures
        record.value@.len() > 0 && column_stats_in(
            datum_view(datum_of(schema, record.value@)),
        ) is Some ==> stored_stats(schema, before.push(record) + after) == stored_stats(
            schema,
            before,
        ).push(column_stats_in(datum_view(datum_of(schema, record.value@)))->0) + stored_stats(
            schema,
            after,
        ),
        record.value@.len() == 0 || column_stats_in(
            datum_view(datum_of(schema, record.value@)),
        ) is None ==> stored_stats(schema, before.push(record) + after) == stored_stats(
            schema,
            before,
        ) + stored_stats(schema, after),
{
    assert(before.push(record).drop_last() =~= before);
    stored_stats_of_both(schema, before.push(record), after);
}

proof fn stored_stats_of_both(
    schema: apache_avro::Schema,
    a: Seq<HFileRecord>,
    b: Seq<HFileRecord>,
)
    ensures
        stored_stats(schema, a + b) == stored_stats(schema, a) + stored_stats(schema, b),
    decreases b.len(),
{
    if b.len() == 0 {
        assert(a + b =~= a);
        assert(stored_stats(schema, a) + stored_stats(schema, b) =~= stored_stats(schema, a));
    } else {
        stored_stats_of_both(schema, a, b.drop_last());
        assert((a + b).drop_last() =~= a + b.drop_last());
        assert((a + b).last() == b.last());
        assert(stored_stats(schema, a + b) =~= stored_stats(schema, a) + stored_stats(schema, b));
    }
}

/// The location of a key is that of its last hit that carries one, as the stored value has it.
pub proof fn last_hit_with_a_location_decides(
    schema: apache_avro::Schema,
    hits: Seq<(String, Option<HFileRecord>)>,
    i: int,
    record: HFileRecord,
)
    requires
        0 <= i < hits.len(),
        hits[i].1 == Some(record),
        record.value@.len() > 0,
        location_in(datum_view(datum_of(schema, record.value@))) is Some,
        forall|j: int|
            i < j < hits.len() ==> (#[trigger] hits[j]).0@ != hits[i].0@ || hits[j].1 is None
                || hits[j].1->0.value@.len() == 0 || location_in(
                datum_view(datum_of(schema, hits[j].1->0.value@)),
            ) is None,
    ensures
        hits_location(schema, hits, hits[i].0@) == location_in(
            datum_view(datum_of(schema, record.value@)),
        ),
    decreases hits.len(),
{
    if i < hits.len() - 1 {
        let shorter = hits.drop_last();
        assert(hits[hits.len() - 1] == hits.last());
        assert forall|j: int| i < j < shorter.len() implies (#[trigger] shorter[j]).0@
            != shorter[i].0@ || shorter[j].1 is None || shorter[j].1->0.value@.len() == 0
            || location_in(datum_view(datum_of(schema, shorter[j].1->0.value@))) is None by {
            assert(shorter[j] == hits[j]);
        }
        last_hit_with_a_location_decides(schema, shorter, i, record);
    }
}

/// The messages of failures end in their causes, and that of a file that could not be opened
/// names it.
pub proof fn failures_give_their_causes(partition: Seq<char>, path: Seq<char>, cause: Seq<char>)
    ensures
        has_suffix(open_failure(partition, path, cause), cause),
        has_suffix(schema_failure(partition, cause), cause),
        has_suffix(read_failure(partition, cause), cause),
        has_suffix(lookup_failure(partition, cause), cause),
        has_substring(open_failure(partition, path, cause), path),
        has_substring(open_failure(partition, path, cause), partition),
        has_substring(schema_failure(partition, cause), partition),
        has_substring(read_failure(partition, cause), partition),
        has_substring(lookup_failure(partition, cause), partition),
{
    let a = open_failure(partition, path, cause);
    let b = schema_failure(partition, cause);
    let c = read_failure(partition, cause);
    let d = lookup_failure(partition, cause);
    assert(a.subrange(a.len() - cause.len(), a.len() as int) =~= cause);
    assert(b.subrange(b.len() - cause.len(), b.len() as int) =~= cause);
    assert(c.subrange(c.len() - cause.len(), c.len() as int) =~= cause);
    assert(d.subrange(d.len() - cause.len(), d.len() as int) =~= cause);
    let i = "Failed to open "@.len() as int;
    assert(a.subrange(i, i + partition.len()) =~= partition);
    let j = i + partition.len() + " base file "@.len();
    assert(a.subrange(j, j + path.len()) =~= path);
    let k = "Failed to get "@.len() as int;
    assert(b.subrange(k, k + partition.len()) =~= partition);
    let l = "Failed to read "@.len() as int;
    assert(c.subrange(l, l + partition.len()) =~= partition);
    let m = "Failed to look up "@.len() as int;
    assert(d.subrange(m, m + partition.len()) =~= partition);
}

} // verus!
