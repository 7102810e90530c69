//! Change data capture: the storage-agnostic pieces of reading changes.
//!
//! With `hoodie.table.cdc.enabled` set, a table persists the changes of each commit, so that a
//! query can return the inserts, updates and deletes of a range of commits instead of the merged
//! snapshot. How much is persisted, [`CdcSupplementalLoggingModeValue`] says.

use vstd::prelude::*;
use crate::config::{
    logging_mode_named, option_follows_its_key, CdcSupplementalLoggingModeValue, HudiConfigs,
    HudiTableConfig,
};
use crate::error::{ConfigError, CoreError};
use crate::json::{
    find_member, find_member_of, json_members, json_view, member, member_names, member_of,
    member_values, names_of, values_of, JsonView,
};
use crate::text::{same_text, text_views};

pub mod op;

verus! {

/// Whether change data capture is enabled for a table.
pub open spec fn cdc_enabled(configs: HudiConfigs) -> bool {
    configs.value_of(HudiTableConfig::CdcEnabled) == Some("true"@)
}

/// Whether change data capture is enabled for the table (`hoodie.table.cdc.enabled`).
pub fn is_cdc_enabled(hudi_configs: &HudiConfigs) -> (r: bool)
    ensures
        r == cdc_enabled(*hudi_configs),
{
    match hudi_configs.get(HudiTableConfig::CdcEnabled) {
        Some(value) => same_text(value.as_str(), "true"),
        None => false,
    }
}

/// The configured logging mode; [`CdcSupplementalLoggingModeValue::DataBeforeAfter`] where none
/// is configured.
pub fn supplemental_logging_mode(hudi_configs: &HudiConfigs) -> (r: Result<
    CdcSupplementalLoggingModeValue,
    CoreError,
>)
    ensures
        match hudi_configs.value_of(HudiTableConfig::CdcSupplementalLoggingMode) {
            None => r == Ok::<_, CoreError>(CdcSupplementalLoggingModeValue::DataBeforeAfter),
            Some(name) => match logging_mode_named(name) {
                Some(mode) => r == Ok::<_, CoreError>(mode),
                None => r matches Err(CoreError::Config(ConfigError::UnsupportedValue(v))) && v@
                    == name,
            },
        },
{
    match hudi_configs.get(HudiTableConfig::CdcSupplementalLoggingMode) {
        Some(value) => match CdcSupplementalLoggingModeValue::from_name(value.as_str()) {
            Ok(mode) => Ok(mode),
            Err(e) => Err(CoreError::Config(e)),
        },
        None => Ok(CdcSupplementalLoggingModeValue::DataBeforeAfter),
    }
}

/// The change files that one write stat names: the keys of its `cdcStats` object, then its
/// `cdcPath` string.
pub open spec fn named_in_stat(stat: serde_json::Value) -> Seq<Seq<char>> {
    let from_stats = match member_of(stat, "cdcStats"@) {
        Some(v) => match json_view(v) {
            JsonView::Object(m) => member_names(m),
            _ => Seq::empty(),
        },
        None => Seq::empty(),
    };
    let from_path = match member_of(stat, "cdcPath"@) {
        Some(v) => match json_view(v) {
            JsonView::Text(path) => seq![path],
            _ => Seq::empty(),
        },
        None => Seq::empty(),
    };
    from_stats + from_path
}

/// The change files that a list of write stats names, in order.
pub open spec fn named_in_stats(stats: Seq<serde_json::Value>) -> Seq<Seq<char>>
    decreases stats.len(),
{
    if stats.len() == 0 {
        Seq::empty()
    } else {
        named_in_stats(stats.drop_last()) + named_in_stat(stats.last())
    }
}

/// The write stats of one partition; a value that is no array holds none.
pub open spec fn stats_in(v: serde_json::Value) -> Seq<serde_json::Value> {
    match json_view(v) {
        JsonView::Array(stats) => stats,
        _ => Seq::empty(),
    }
}

/// The change files that the write stats of several partitions name, in order.
pub open spec fn named_in_partitions(partitions: Seq<serde_json::Value>) -> Seq<Seq<char>>
    decreases partitions.len(),
{
    if partitions.len() == 0 {
        Seq::empty()
    } else {
        named_in_partitions(partitions.drop_last()) + named_in_stats(stats_in(partitions.last()))
    }
}

/// The change files that commit metadata names, in order, with repetitions.
pub open spec fn named_in_commit(m: serde_json::Map<String, serde_json::Value>) -> Seq<Seq<char>> {
    match member(m, "partitionToWriteStats"@) {
        Some(v) => match json_view(v) {
            JsonView::Object(partitions) => named_in_partitions(member_values(partitions)),
            _ => Seq::empty(),
        },
        None => Seq::empty(),
    }
}

/// The non-empty texts of `s`, each where it occurs first.
pub open spec fn first_occurrences(s: Seq<Seq<char>>) -> Seq<Seq<char>>
    decreases s.len(),
{
    if s.len() == 0 {
        Seq::empty()
    } else {
        let before = first_occurrences(s.drop_last());
        if s.last().len() == 0 || before.contains(s.last()) {
            before
        } else {
            before.push(s.last())
        }
    }
}

/// Appends a path unless it is empty or there already.
fn note_path(paths: &mut Vec<String>, path: &str)
    ensures
        path@.len() == 0 || text_views(old(paths)@).contains(path@) ==> text_views(final(paths)@)
            == text_views(old(paths)@),
        path@.len() > 0 && !text_views(old(paths)@).contains(path@) ==> text_views(final(paths)@)
            == text_views(old(paths)@).push(path@),
{
    if same_text(path, "") {
        proof {
            reveal_strlit("");
        }
        return ;
    }
    proof {
        reveal_strlit("");
        if path@.len() == 0 {
            assert(path@ =~= ""@);
        }
    }
    let mut i: usize = 0;
    while i < paths.len()
        invariant
            paths@ == old(paths)@,
            i <= paths@.len(),
            forall|k: int| 0 <= k < i ==> (#[trigger] paths@[k])@ != path@,
        decreases paths@.len() - i,
    {
        if same_text(paths[i].as_str(), path) {
            assert(text_views(paths@)[i as int] == path@);
            return ;
        }
        i += 1;
    }
    assert(!text_views(paths@).contains(path@)) by {
        if text_views(paths@).contains(path@) {
            let k = choose|k: int| 0 <= k < paths@.len() && text_views(paths@)[k] == path@;
            assert(paths@[k]@ == path@);
        }
    }
    paths.push(path.to_owned());
    assert(text_views(paths@) =~= text_views(old(paths)@).push(path@));
}

/// Notes what `more` adds to `seen`, when its first `i` texts are noted.
proof fn note_next(seen: Seq<Seq<char>>, more: Seq<Seq<char>>, i: int)
    requires
        0 <= i < more.len(),
    ensures
        (seen + more.take(i + 1)).drop_last() == seen + more.take(i),
        (seen + more.take(i + 1)).last() == more[i],
{
    assert((seen + more.take(i + 1)).drop_last() =~= seen + more.take(i));
}

/// Notes the change files of one write stat.
fn note_stat(paths: &mut Vec<String>, stat: &serde_json::Value, Ghost(seen): Ghost<Seq<Seq<char>>>)
    requires
        text_views(old(paths)@) == first_occurrences(seen),
    ensures
        text_views(final(paths)@) == first_occurrences(seen + named_in_stat(*stat)),
{
    let ghost mut noted = seen;
    if let Some(cdc_stats) = find_member_of(stat, "cdcStats") {
        if let Some(m) = cdc_stats.as_object() {
            let names: Vec<&String> = names_of(m);
            let ghost more = member_names(*m);
            let mut i: usize = 0;
            assert(seen + more.take(0) =~= seen);
            while i < names.len()
                invariant
                    names@.len() == more.len(),
                    forall|k: int| 0 <= k < names@.len() ==> (#[trigger] names@[k])@ == more[k],
                    i <= names@.len(),
                    text_views(paths@) == first_occurrences(seen + more.take(i as int)),
                decreases names@.len() - i,
            {
                proof {
                    note_next(seen, more, i as int);
                }
                note_path(paths, names[i].as_str());
                i += 1;
            }
            assert(more.take(i as int) =~= more);
            proof {
                noted = seen + more;
            }
        }
    }
    let ghost from_stats = match member_of(*stat, "cdcStats"@) {
        Some(v) => match json_view(v) {
            JsonView::Object(m) => member_names(m),
            _ => Seq::empty(),
        },
        None => Seq::empty(),
    };
    assert(noted =~= seen + from_stats);
    if let Some(cdc_path) = find_member_of(stat, "cdcPath") {
        if let Some(path) = cdc_path.as_str() {
            note_path(paths, path);
            assert(named_in_stat(*stat) =~= from_stats.push(path@));
            assert((seen + named_in_stat(*stat)).drop_last() =~= noted);
            assert((seen + named_in_stat(*stat)).last() == path@);
            return ;
        }
    }
    assert(seen + named_in_stat(*stat) =~= noted);
}

/// Notes the change files of the write stats of one partition.
fn note_stats(
    paths: &mut Vec<String>,
    stats: &Vec<serde_json::Value>,
    Ghost(seen): Ghost<Seq<Seq<char>>>,
)
    requires
        text_views(old(paths)@) == first_occurrences(seen),
    ensures
        text_views(final(paths)@) == first_occurrences(seen + named_in_stats(stats@)),
{
    let mut i: usize = 0;
    assert(seen + named_in_stats(stats@.take(0)) =~= seen);
    while i < stats.len()
        invariant
            i <= stats@.len(),
            text_views(paths@) == first_occurrences(seen + named_in_stats(stats@.take(i as int))),
        decreases stats@.len() - i,
    {
        let ghost before = named_in_stats(stats@.take(i as int));
        assert(stats@.take(i + 1).drop_last() =~= stats@.take(i as int));
        note_stat(paths, &stats[i], Ghost(seen + before));
        assert(seen + before + named_in_stat(stats@[i as int]) =~= seen + (before + named_in_stat(
            stats@[i as int],
        )));
        i += 1;
    }
    assert(stats@.take(i as int) =~= stats@);
}

/// The change files that the write stats of a commit name.
///
/// A write stat has a `cdcStats` object that maps file paths, relative to the table, to record
/// counts; some writers set a single `cdcPath` string instead. The paths come in the order of
/// the metadata, each of them once.
pub fn cdc_file_paths_from_commit_metadata(
    commit_metadata: &serde_json::Map<String, serde_json::Value>,
) -> (r: Vec<String>)
    ensures
        text_views(r@) == first_occurrences(named_in_commit(*commit_metadata)),
{
    let mut paths: Vec<String> = Vec::new();
    assert(text_views(paths@) =~= Seq::empty());
    let partitions: &serde_json::Map<String, serde_json::Value> = match find_member(
        commit_metadata,
        "partitionToWriteStats",
    ) {
        Some(v) => match v.as_object() {
            Some(m) => m,
            None => {
                return paths;
            },
        },
        None => {
            return paths;
        },
    };
    let values: Vec<&serde_json::Value> = values_of(partitions);
    let ghost all = member_values(*partitions);
    let mut i: usize = 0;
    while i < values.len()
        invariant
            all == member_values(*partitions),
            values@.len() == all.len(),
            forall|k: int| 0 <= k < values@.len() ==> *(#[trigger] values@[k]) == all[k],
            i <= values@.len(),
            text_views(paths@) == first_occurrences(named_in_partitions(all.take(i as int))),
        decreases values@.len() - i,
    {
        let ghost before = named_in_partitions(all.take(i as int));
        assert(all.take(i + 1).drop_last() =~= all.take(i as int));
        assert(all.take(i + 1).last() == all[i as int]);
        if let Some(stats) = values[i].as_array() {
            note_stats(&mut paths, stats, Ghost(before));
        } else {
            assert(before + named_in_stats(stats_in(all[i as int])) =~= before);
        }
        i += 1;
    }
    assert(all.take(i as int) =~= all);
    paths
}

/// The paths of a commit are those that its metadata names, without the empty one.
pub proof fn first_occurrences_complete(s: Seq<Seq<char>>, path: Seq<char>)
    ensures
        first_occurrences(s).contains(path) <==> s.contains(path) && path.len() > 0,
    decreases s.len(),
{
    if s.len() > 0 {
        let before = first_occurrences(s.drop_last());
        first_occurrences_complete(s.drop_last(), path);
        assert(s.drop_last().push(s.last()) =~= s);
        assert(s.contains(path) <==> s.drop_last().contains(path) || s.last() == path) by {
            if s.contains(path) {
                let k = choose|k: int| 0 <= k < s.len() && s[k] == path;
                if k < s.len() - 1 {
                    assert(s.drop_last()[k] == path);
                }
            }
            if s.drop_last().contains(path) {
                let k = choose|k: int| 0 <= k < s.len() - 1 && s.drop_last()[k] == path;
                assert(s[k] == path);
            }
            assert(s[s.len() - 1] == s.last());
        }
        assert(before.push(s.last()).contains(path) <==> before.contains(path) || s.last() == path)
            by {
            let pushed = before.push(s.last());
            if pushed.contains(path) {
                let k = choose|k: int| 0 <= k < pushed.len() && pushed[k] == path;
                if k < before.len() {
                    assert(before[k] == path);
                }
            }
            if before.contains(path) {
                let k = choose|k: int| 0 <= k < before.len() && before[k] == path;
                assert(pushed[k] == path);
            }
            assert(pushed[before.len() as int] == s.last());
        }
        if s.last() == path {
            assert(before.contains(path) || path.len() == 0 || first_occurrences(s) == before.push(
                path,
            ));
        }
    }
}

/// No path of a commit comes twice.
pub proof fn first_occurrences_distinct(s: Seq<Seq<char>>)
    ensures
        first_occurrences(s).no_duplicates(),
    decreases s.len(),
{
    if s.len() > 0 {
        first_occurrences_distinct(s.drop_last());
        let before = first_occurrences(s.drop_last());
        if s.last().len() > 0 && !before.contains(s.last()) {
            let after = before.push(s.last());
            assert forall|i: int, j: int| 0 <= i < j < after.len() implies after[i] != after[j] by {
                if j == before.len() {
                    assert(before.contains(before[i]));
                }
            }
        }
    }
}

/// Paths come in the order in which the metadata names them first.
pub proof fn first_occurrences_ordered(s: Seq<Seq<char>>, i: int, j: int)
    requires
        0 <= i < j < first_occurrences(s).len(),
    ensures
        exists|k: int|
            0 <= k < s.len() && s[k] == first_occurrences(s)[i] && !(#[trigger] s.take(
                k,
            )).contains(first_occurrences(s)[j]),
    decreases s.len(),
{
    let before = first_occurrences(s.drop_last());
    if j < before.len() {
        first_occurrences_ordered(s.drop_last(), i, j);
        let k = choose|k: int|
            0 <= k < s.len() - 1 && s.drop_last()[k] == before[i] && !(#[trigger] s.drop_last().take(
                k,
            )).contains(before[j]);
        assert(s.drop_last().take(k) =~= s.take(k));
        assert(s[k] == before[i]);
    } else {
        first_occurrences_complete(s.drop_last(), before[i]);
        assert(before.contains(before[i]));
        let k = choose|k: int| 0 <= k < s.len() - 1 && s.drop_last()[k] == before[i];
        first_occurrences_complete(s.drop_last(), s.last());
        assert(!s.take(k).contains(s.last())) by {
            if s.take(k).contains(s.last()) {
                let m = choose|m: int| 0 <= m < k && s.take(k)[m] == s.last();
                assert(s.drop_last()[m] == s.last());
            }
        }
        assert(s[k] == before[i]);
    }
}

/// Whether `stat` is the write stat at place `s` of the partition at place `p` of commit
/// metadata.
pub open spec fn has_stat_at(
    m: serde_json::Map<String, serde_json::Value>,
    p: int,
    s: int,
    stat: serde_json::Value,
) -> bool {
    &&& member(m, "partitionToWriteStats"@) matches Some(v)
    &&& json_view(v) matches JsonView::Object(partitions)
    &&& 0 <= p < json_members(partitions).len()
    &&& json_view(json_members(partitions)[p].1) matches JsonView::Array(stats)
    &&& 0 <= s < stats.len()
    &&& stats[s] == stat
}

/// Whether the `cdcStats` object of a write stat has `path` as the name of its member at place
/// `k`.
pub open spec fn counts_changes_of(stat: serde_json::Value, k: int, path: Seq<char>) -> bool {
    &&& member_of(stat, "cdcStats"@) matches Some(c)
    &&& json_view(c) matches JsonView::Object(counts)
    &&& 0 <= k < json_members(counts).len()
    &&& json_members(counts)[k].0 == path
}

/// Whether the `cdcPath` of a write stat is `path`.
pub open spec fn points_to(stat: serde_json::Value, path: Seq<char>) -> bool {
    &&& member_of(stat, "cdcPath"@) matches Some(c)
    &&& json_view(c) == JsonView::Text(path)
}

/// Whether a write stat gives a path in one way or the other.
pub open spec fn gives(stat: serde_json::Value, path: Seq<char>) -> bool {
    points_to(stat, path) || exists|k: int| counts_changes_of(stat, k, path)
}

/// A text that a write stat of a commit has as its `cdcPath` is among the paths of the commit,
/// whatever its characters are, unless it is empty.
pub proof fn cdc_path_is_listed(
    m: serde_json::Map<String, serde_json::Value>,
    p: int,
    s: int,
    stat: serde_json::Value,
    path: Seq<char>,
)
    requires
        has_stat_at(m, p, s, stat),
        points_to(stat, path),
        path.len() > 0,
    ensures
        first_occurrences(named_in_commit(m)).contains(path),
{
    assert(gives(stat, path));
    named_in_commit_at(m, p, s, stat);
    named_in_stat_given(stat, path);
    first_occurrences_complete(named_in_commit(m), path);
}

/// Every name in the `cdcStats` object of a write stat of a commit is among the paths of the
/// commit, whatever its characters are, unless it is empty.
pub proof fn cdc_stats_name_is_listed(
    m: serde_json::Map<String, serde_json::Value>,
    p: int,
    s: int,
    stat: serde_json::Value,
    k: int,
    path: Seq<char>,
)
    requires
        has_stat_at(m, p, s, stat),
        counts_changes_of(stat, k, path),
        path.len() > 0,
    ensures
        first_occurrences(named_in_commit(m)).contains(path),
{
    assert(gives(stat, path));
    named_in_commit_at(m, p, s, stat);
    named_in_stat_given(stat, path);
    first_occurrences_complete(named_in_commit(m), path);
}

/// Nothing else is among the paths of a commit: each of them is a text of at least one character
/// that a write stat gives, as its `cdcPath` or as a name in its `cdcStats`.
pub proof fn listed_path_is_given(
    m: serde_json::Map<String, serde_json::Value>,
    path: Seq<char>,
)
    requires
        first_occurrences(named_in_commit(m)).contains(path),
    ensures
        path.len() > 0,
        exists|p: int, s: int, stat: serde_json::Value| #[trigger]
            has_stat_at(m, p, s, stat) && gives(stat, path),
{
    first_occurrences_complete(named_in_commit(m), path);
    let v = member(m, "partitionToWriteStats"@)->0;
    let partitions = json_view(v)->Object_0;
    let values = member_values(partitions);
    named_in_some_partition(values, path);
    let p = choose|p: int|
        0 <= p < values.len() && named_in_stats(stats_in(#[trigger] values[p])).contains(path);
    let stats = stats_in(values[p]);
    assert(values[p] == json_members(partitions)[p].1);
    assert(stats.len() > 0);
    named_in_some_stat(stats, path);
    let s = choose|s: int|
        0 <= s < stats.len() && named_in_stat(#[trigger] stats[s]).contains(path);
    named_in_stat_given(stats[s], path);
    assert(has_stat_at(m, p, s, stats[s]));
}

/// Paths come in the order of the write stats: one that a write stat gives comes before one that
/// neither this write stat nor an earlier one gives.
pub proof fn earlier_stats_come_first(
    m: serde_json::Map<String, serde_json::Value>,
    p: int,
    s: int,
    stat: serde_json::Value,
    i: int,
    j: int,
)
    requires
        has_stat_at(m, p, s, stat),
        0 <= i < first_occurrences(named_in_commit(m)).len(),
        0 <= j < first_occurrences(named_in_commit(m)).len(),
        gives(stat, first_occurrences(named_in_commit(m))[i]),
        forall|q: int, t: int, other: serde_json::Value| #[trigger]
            has_stat_at(m, q, t, other) && (q < p || q == p && t <= s) ==> !gives(
                other,
                first_occurrences(named_in_commit(m))[j],
            ),
    ensures
        i < j,
{
    let all = named_in_commit(m);
    let a = first_occurrences(all)[i];
    let b = first_occurrences(all)[j];
    let (before, after) = named_in_commit_split(m, p, s, stat, b);
    let upto = before + named_in_stat(stat);
    named_in_stat_given(stat, a);
    named_in_stat_given(stat, b);
    assert(all =~= upto + after);
    contained_in_both(before, named_in_stat(stat), a);
    contained_in_both(before, named_in_stat(stat), b);
    listed_in_front(upto, after, i, j);
}

/// Within a write stat the names in `cdcStats` come in the order of the object, and the `cdcPath`
/// comes behind them: a name comes before a path that neither an earlier write stat gives nor a
/// name up to it is.
pub proof fn earlier_names_come_first(
    m: serde_json::Map<String, serde_json::Value>,
    p: int,
    s: int,
    stat: serde_json::Value,
    k: int,
    i: int,
    j: int,
)
    requires
        has_stat_at(m, p, s, stat),
        0 <= i < first_occurrences(named_in_commit(m)).len(),
        0 <= j < first_occurrences(named_in_commit(m)).len(),
        counts_changes_of(stat, k, first_occurrences(named_in_commit(m))[i]),
        forall|l: int|
            l <= k ==> !#[trigger] counts_changes_of(
                stat,
                l,
                first_occurrences(named_in_commit(m))[j],
            ),
        forall|q: int, t: int, other: serde_json::Value| #[trigger]
            has_stat_at(m, q, t, other) && (q < p || q == p && t < s) ==> !gives(
                other,
                first_occurrences(named_in_commit(m))[j],
            ),
    ensures
        i < j,
{
    let all = named_in_commit(m);
    let a = first_occurrences(all)[i];
    let b = first_occurrences(all)[j];
    let (before, after) = named_in_commit_split(m, p, s, stat, b);
    let counts = json_view(member_of(stat, "cdcStats"@)->0)->Object_0;
    let names = member_names(counts);
    let here = named_in_stat(stat);
    assert(here.take(names.len() as int) =~= names);
    let upto = before + here.take(k + 1);
    assert(upto.last() == names[k]);
    assert(upto[upto.len() - 1] == a);
    assert(!upto.contains(b)) by {
        if upto.contains(b) {
            let l = choose|l: int| 0 <= l < upto.len() && upto[l] == b;
            if l < before.len() {
                assert(before[l] == b);
            } else {
                assert(names[l - before.len()] == b);
                assert(counts_changes_of(stat, l - before.len(), b));
            }
        }
    }
    assert(all =~= upto + (here.skip(k + 1) + after));
    listed_in_front(upto, here.skip(k + 1) + after, i, j);
}

proof fn contained_in_both(s: Seq<Seq<char>>, t: Seq<Seq<char>>, path: Seq<char>)
    ensures
        (s + t).contains(path) <==> s.contains(path) || t.contains(path),
{
    if s.contains(path) {
        let k = choose|k: int| 0 <= k < s.len() && s[k] == path;
        assert((s + t)[k] == path);
    }
    if t.contains(path) {
        let k = choose|k: int| 0 <= k < t.len() && t[k] == path;
        assert((s + t)[s.len() + k] == path);
    }
}

proof fn named_in_stat_given(stat: serde_json::Value, path: Seq<char>)
    ensures
        named_in_stat(stat).contains(path) <==> gives(stat, path),
{
    let named = named_in_stat(stat);
    if gives(stat, path) {
        if points_to(stat, path) {
            assert(named.last() == path);
            assert(named[named.len() - 1] == path);
        } else {
            let k = choose|k: int| counts_changes_of(stat, k, path);
            assert(named[k] == path);
        }
    }
    if named.contains(path) {
        let k = choose|k: int| 0 <= k < named.len() && named[k] == path;
        assert(points_to(stat, path) || counts_changes_of(stat, k, path));
    }
}

proof fn named_in_some_stat(stats: Seq<serde_json::Value>, path: Seq<char>)
    ensures
        named_in_stats(stats).contains(path) <==> exists|s: int|
            0 <= s < stats.len() && named_in_stat(#[trigger] stats[s]).contains(path),
    decreases stats.len(),
{
    if stats.len() > 0 {
        let shorter = stats.drop_last();
        named_in_some_stat(shorter, path);
        contained_in_both(named_in_stats(shorter), named_in_stat(stats.last()), path);
        assert(stats[stats.len() - 1] == stats.last());
        assert forall|s: int| 0 <= s < shorter.len() implies #[trigger] shorter[s] == stats[s] by {}
        if named_in_stats(shorter).contains(path) {
            let s = choose|s: int|
                0 <= s < shorter.len() && named_in_stat(#[trigger] shorter[s]).contains(path);
            assert(named_in_stat(stats[s]).contains(path));
        }
        if exists|s: int| 0 <= s < stats.len() && named_in_stat(#[trigger] stats[s]).contains(path) {
            let s = choose|s: int|
                0 <= s < stats.len() && named_in_stat(#[trigger] stats[s]).contains(path);
            if s < shorter.len() {
                assert(named_in_stat(shorter[s]).contains(path));
            }
        }
    }
}

proof fn named_in_some_partition(partitions: Seq<serde_json::Value>, path: Seq<char>)
    ensures
        named_in_partitions(partitions).contains(path) <==> exists|p: int|
            0 <= p < partitions.len() && named_in_stats(
                stats_in(#[trigger] partitions[p]),
            ).contains(path),
    decreases partitions.len(),
{
    if partitions.len() > 0 {
        let shorter = partitions.drop_last();
        let last = stats_in(partitions.last());
        named_in_some_partition(shorter, path);
        contained_in_both(named_in_partitions(shorter), named_in_stats(last), path);
        assert(partitions[partitions.len() - 1] == partitions.last());
        if named_in_partitions(shorter).contains(path) {
            let p = choose|p: int|
                0 <= p < shorter.len() && named_in_stats(
                    stats_in(#[trigger] shorter[p]),
                ).contains(path);
            assert(named_in_stats(stats_in(partitions[p])).contains(path));
        }
        if exists|p: int|
            0 <= p < partitions.len() && named_in_stats(
                stats_in(#[trigger] partitions[p]),
            ).contains(path) {
            let p = choose|p: int|
                0 <= p < partitions.len() && named_in_stats(
                    stats_in(#[trigger] partitions[p]),
                ).contains(path);
            if p < shorter.len() {
                assert(named_in_stats(stats_in(shorter[p])).contains(path));
            }
        }
    }
}

/// What a write stat names stands between what is named before it and behind it.
proof fn named_in_stats_split(stats: Seq<serde_json::Value>, s: int) -> (after: Seq<Seq<char>>)
    requires
        0 <= s < stats.len(),
    ensures
        named_in_stats(stats) == named_in_stats(stats.take(s)) + named_in_stat(stats[s]) + after,
    decreases stats.len(),
{
    let shorter = stats.drop_last();
    if s == stats.len() - 1 {
        assert(stats.take(s) =~= shorter);
        assert(named_in_stats(stats) =~= named_in_stats(stats.take(s)) + named_in_stat(stats[s])
            + Seq::<Seq<char>>::empty());
        Seq::empty()
    } else {
        let after = named_in_stats_split(shorter, s);
        assert(shorter.take(s) =~= stats.take(s));
        let more = after + named_in_stat(stats.last());
        assert(named_in_stats(stats) =~= named_in_stats(stats.take(s)) + named_in_stat(stats[s])
            + more);
        more
    }
}

proof fn named_in_partitions_split(partitions: Seq<serde_json::Value>, p: int) -> (after: Seq<
    Seq<char>,
>)
    requires
        0 <= p < partitions.len(),
    ensures
        named_in_partitions(partitions) == named_in_partitions(partitions.take(p))
            + named_in_stats(stats_in(partitions[p])) + after,
    decreases partitions.len(),
{
    let shorter = partitions.drop_last();
    let here = named_in_stats(stats_in(partitions[p]));
    if p == partitions.len() - 1 {
        assert(partitions.take(p) =~= shorter);
        assert(named_in_partitions(partitions) =~= named_in_partitions(partitions.take(p)) + here
            + Seq::<Seq<char>>::empty());
        Seq::empty()
    } else {
        let after = named_in_partitions_split(shorter, p);
        assert(shorter.take(p) =~= partitions.take(p));
        let more = after + named_in_stats(stats_in(partitions.last()));
        assert(named_in_partitions(partitions) =~= named_in_partitions(partitions.take(p)) + here
            + more);
        more
    }
}

/// What a write stat of a commit names stands between what is named before it, of which `path` is
/// no part if no earlier write stat gives it, and what is named behind it.
proof fn named_in_commit_split(
    m: serde_json::Map<String, serde_json::Value>,
    p: int,
    s: int,
    stat: serde_json::Value,
    path: Seq<char>,
) -> (r: (Seq<Seq<char>>, Seq<Seq<char>>))
    requires
        has_stat_at(m, p, s, stat),
    ensures
        named_in_commit(m) == r.0 + named_in_stat(stat) + r.1,
        (forall|q: int, t: int, other: serde_json::Value| #[trigger]
            has_stat_at(m, q, t, other) && (q < p || q == p && t < s) ==> !gives(other, path))
            ==> !r.0.contains(path),
{
    let v = member(m, "partitionToWriteStats"@)->0;
    let partitions = json_view(v)->Object_0;
    let values = member_values(partitions);
    assert(values[p] == json_members(partitions)[p].1);
    let stats = stats_in(values[p]);
    let behind = named_in_partitions_split(values, p);
    let after = named_in_stats_split(stats, s);
    let front = named_in_partitions(values.take(p));
    let within = named_in_stats(stats.take(s));
    let before = front + within;
    assert(named_in_commit(m) =~= before + named_in_stat(stat) + (after + behind));
    if before.contains(path) {
        contained_in_both(front, within, path);
        if front.contains(path) {
            named_in_some_partition(values.take(p), path);
            let q = choose|q: int|
                0 <= q < p && named_in_stats(stats_in(#[trigger] values.take(p)[q])).contains(path);
            let group = stats_in(values.take(p)[q]);
            assert(values.take(p)[q] == json_members(partitions)[q].1);
            named_in_some_stat(group, path);
            let t = choose|t: int|
                0 <= t < group.len() && named_in_stat(#[trigger] group[t]).contains(path);
            named_in_stat_given(group[t], path);
            assert(has_stat_at(m, q, t, group[t]));
        } else {
            named_in_some_stat(stats.take(s), path);
            let t = choose|t: int|
                0 <= t < s && named_in_stat(#[trigger] stats.take(s)[t]).contains(path);
            named_in_stat_given(stats[t], path);
            assert(has_stat_at(m, p, t, stats[t]));
        }
    }
    (before, after + behind)
}

proof fn named_in_commit_at(
    m: serde_json::Map<String, serde_json::Value>,
    p: int,
    s: int,
    stat: serde_json::Value,
)
    requires
        has_stat_at(m, p, s, stat),
    ensures
        forall|path: Seq<char>|
            named_in_stat(stat).contains(path) ==> #[trigger] named_in_commit(m).contains(path),
{
    assert forall|path: Seq<char>| named_in_stat(stat).contains(path) implies #[trigger]
        named_in_commit(m).contains(path) by {
        let (before, after) = named_in_commit_split(m, p, s, stat, path);
        contained_in_both(before, named_in_stat(stat), path);
        contained_in_both(before + named_in_stat(stat), after, path);
    }
}

/// What is in a first part, and nothing that is not, comes first.
proof fn listed_in_front(s: Seq<Seq<char>>, t: Seq<Seq<char>>, i: int, j: int)
    requires
        0 <= i < first_occurrences(s + t).len(),
        0 <= j < first_occurrences(s + t).len(),
        s.contains(first_occurrences(s + t)[i]),
        !s.contains(first_occurrences(s + t)[j]),
    ensures
        i < j,
{
    let front = first_occurrences(s);
    let all = first_occurrences(s + t);
    first_occurrences_grow(s, t);
    first_occurrences_distinct(s + t);
    assert(all.contains(all[i]));
    first_occurrences_complete(s + t, all[i]);
    first_occurrences_complete(s, all[i]);
    let k = choose|k: int| 0 <= k < front.len() && front[k] == all[i];
    assert(all[k] == all[i]);
    if j < front.len() {
        assert(front[j] == all[j]);
        assert(front.contains(all[j]));
        first_occurrences_complete(s, all[j]);
    }
}

proof fn first_occurrences_grow(s: Seq<Seq<char>>, t: Seq<Seq<char>>)
    ensures
        first_occurrences(s).len() <= first_occurrences(s + t).len(),
        forall|k: int|
            0 <= k < first_occurrences(s).len() ==> #[trigger] first_occurrences(s + t)[k]
                == first_occurrences(s)[k],
    decreases t.len(),
{
    if t.len() == 0 {
        assert(s + t =~= s);
    } else {
        first_occurrences_grow(s, t.drop_last());
        assert((s + t).drop_last() =~= s + t.drop_last());
    }
}

/// Change data capture follows the last setting of its option: it is enabled by `true` and by
/// nothing else, and not enabled without a setting.
pub proof fn cdc_follows_its_option(before: HudiConfigs, after: HudiConfigs, value: Seq<char>)
    requires
        after@ == before@.push(("hoodie.table.cdc.enabled"@, value)),
    ensures
        cdc_enabled(after) <==> value == "true"@,
        before@.len() == 0 ==> !cdc_enabled(before),
{
    option_follows_its_key(before, after, "hoodie.table.cdc.enabled"@, value);
}

} // verus!
