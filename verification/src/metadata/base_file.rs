//! Base files of the metadata table and their names.

use vstd::prelude::*;
use vstd::string::*;
use crate::order::{
    bytes_less, bytes_less_asymmetric, bytes_less_irreflexive, bytes_less_total,
    bytes_less_transitive, compare_text, same_encoding, text_less, Relation,
};
use crate::text::{
    chars_of, ends_with, has_suffix, joined, joined_then_split, same_text, split_text,
    split_then_joined, text_views,
};

verus! {

/// A base file of a file group, as its name describes it:
/// `<file id>_<write token>_<commit timestamp>.<extension>`.
#[derive(Debug)]
pub struct BaseFile {
    pub file_id: String,
    pub write_token: String,
    pub commit_timestamp: String,
    pub extension: String,
}

/// What a [`BaseFile`] stands for.
pub struct BaseFileView {
    pub file_id: Seq<char>,
    pub write_token: Seq<char>,
    pub commit_timestamp: Seq<char>,
    pub extension: Seq<char>,
}

impl BaseFileView {
    /// The name of the file.
    pub open spec fn name(self) -> Seq<char> {
        joined(seq![self.file_id, self.write_token, self.commit_timestamp], '_').push('.')
            + self.extension
    }

    /// Whether the name can be taken apart again: the parts hold none of the separators that
    /// follow them.
    pub open spec fn well_formed(self) -> bool {
        &&& !self.file_id.contains('_')
        &&& !self.write_token.contains('_')
        &&& !self.commit_timestamp.contains('_')
        &&& !self.extension.contains('.')
    }
}

/// Whether `name` is the name of the base file `b`.
pub open spec fn names_base_file(name: Seq<char>, b: BaseFileView) -> bool {
    b.well_formed() && b.name() == name
}

/// The base file with the given name.
pub open spec fn base_file_named(name: Seq<char>) -> Option<BaseFileView> {
    if exists|b: BaseFileView| names_base_file(name, b) {
        Some(choose|b: BaseFileView| names_base_file(name, b))
    } else {
        None
    }
}

/// Where the last dot of a text stands, its parts are determined.
proof fn last_dot_unique(a: Seq<char>, x: Seq<char>, b: Seq<char>, y: Seq<char>)
    requires
        a.push('.') + x == b.push('.') + y,
        !x.contains('.'),
        !y.contains('.'),
    ensures
        a == b,
        x == y,
{
    let s = a.push('.') + x;
    assert(s[a.len() as int] == '.');
    let t = b.push('.') + y;
    assert(t[b.len() as int] == '.');
    assert(s == t);
    assert(s.len() == a.len() + 1 + x.len() && t.len() == b.len() + 1 + y.len());
    if a.len() < b.len() {
        assert(s[b.len() as int] == x[b.len() - a.len() - 1]);
    }
    if b.len() < a.len() {
        assert(t[a.len() as int] == y[a.len() - b.len() - 1]);
    }
    assert(a =~= s.take(a.len() as int));
    assert(b =~= (b.push('.') + y).take(a.len() as int));
    assert(x =~= s.skip(a.len() as int + 1));
    assert(y =~= (b.push('.') + y).skip(a.len() as int + 1));
}

/// A name belongs to one base file at most.
pub proof fn base_file_name_injective(a: BaseFileView, b: BaseFileView)
    requires
        a.well_formed(),
        b.well_formed(),
        a.name() == b.name(),
    ensures
        a == b,
{
    let p = seq![a.file_id, a.write_token, a.commit_timestamp];
    let q = seq![b.file_id, b.write_token, b.commit_timestamp];
    last_dot_unique(joined(p, '_'), a.extension, joined(q, '_'), b.extension);
    joined_then_split(p, '_');
    joined_then_split(q, '_');
    assert(p[0] == q[0] && p[1] == q[1] && p[2] == q[2]);
}

/// Reading the name of a base file gives the base file back.
pub proof fn base_file_name_round_trip(b: BaseFileView)
    requires
        b.well_formed(),
    ensures
        base_file_named(b.name()) == Some(b),
{
    assert(names_base_file(b.name(), b));
    let c = choose|c: BaseFileView| names_base_file(b.name(), c);
    base_file_name_injective(b, c);
}

/// The last dot in a text.
fn last_dot(chars: &Vec<char>) -> (r: Option<usize>)
    ensures
        match r {
            Some(i) => i < chars@.len() && chars@[i as int] == '.' && forall|k: int|
                i < k < chars@.len() ==> chars@[k] != '.',
            None => forall|k: int| 0 <= k < chars@.len() ==> chars@[k] != '.',
        },
{
    let mut i: usize = chars.len();
    while i > 0
        invariant
            i <= chars@.len(),
            forall|k: int| i <= k < chars@.len() ==> chars@[k] != '.',
        decreases i,
    {
        if chars[i - 1] == '.' {
            return Some(i - 1);
        }
        i -= 1;
    }
    None
}

fn text_between(chars: &Vec<char>, from: usize, to: usize) -> (r: String)
    requires
        from <= to <= chars@.len(),
    ensures
        r@ == chars@.subrange(from as int, to as int),
{
    let mut r: String = String::new();
    let mut i: usize = from;
    while i < to
        invariant
            from <= i <= to <= chars@.len(),
            r@ =~= chars@.subrange(from as int, i as int),
        decreases to - i,
    {
        r.push(chars[i]);
        i += 1;
    }
    r
}

impl BaseFile {
    pub open spec fn view(&self) -> BaseFileView {
        BaseFileView {
            file_id: self.file_id@,
            write_token: self.write_token@,
            commit_timestamp: self.commit_timestamp@,
            extension: self.extension@,
        }
    }

    /// The base file with the given name, if it is the name of one.
    pub fn from_name(name: &str) -> (r: Option<BaseFile>)
        ensures
            match r {
                Some(b) => base_file_named(name@) == Some(b@) && names_base_file(name@, b@),
                None => base_file_named(name@) is None,
            },
    {
        let chars: Vec<char> = chars_of(name);
        let total: usize = chars.len();
        let dot: usize = match last_dot(&chars) {
            Some(i) => i,
            None => {
                proof {
                    if exists|b: BaseFileView| names_base_file(name@, b) {
                        let b = choose|b: BaseFileView| names_base_file(name@, b);
                        let stem = joined(seq![b.file_id, b.write_token, b.commit_timestamp], '_');
                        assert(name@[stem.len() as int] == '.');
                    }
                }
                return None;
            },
        };
        let stem: String = text_between(&chars, 0, dot);
        let extension: String = text_between(&chars, dot + 1, total);
        let mut parts: Vec<String> = split_text(stem.as_str(), '_');
        let ghost texts = text_views(parts@);
        proof {
            split_then_joined(stem@, '_');
            assert(name@ =~= stem@.push('.') + extension@);
            assert(!extension@.contains('.')) by {
                if extension@.contains('.') {
                    let k = choose|k: int| 0 <= k < extension@.len() && extension@[k] == '.';
                    assert(chars@[dot + 1 + k] == '.');
                }
            }
        }
        if parts.len() != 3 {
            proof {
                if exists|b: BaseFileView| names_base_file(name@, b) {
                    let b = choose|b: BaseFileView| names_base_file(name@, b);
                    let p = seq![b.file_id, b.write_token, b.commit_timestamp];
                    last_dot_unique(stem@, extension@, joined(p, '_'), b.extension);
                    joined_then_split(p, '_');
                }
            }
            return None;
        }
        let commit_timestamp: String = parts[2].clone();
        let write_token: String = parts[1].clone();
        let file_id: String = parts[0].clone();
        let b: BaseFile = BaseFile { file_id, write_token, commit_timestamp, extension };
        proof {
            assert(texts =~= seq![b@.file_id, b@.write_token, b@.commit_timestamp]);
            assert(texts[0] == b@.file_id && texts[1] == b@.write_token && texts[2]
                == b@.commit_timestamp);
            assert(names_base_file(name@, b@));
            base_file_name_round_trip(b@);
        }
        Some(b)
    }

    /// The name of the file.
    pub fn file_name(&self) -> (r: String)
        ensures
            r@ == self@.name(),
    {
        let mut name: String = self.file_id.clone();
        name.push('_');
        name.append(self.write_token.as_str());
        name.push('_');
        name.append(self.commit_timestamp.as_str());
        name.push('.');
        name.append(self.extension.as_str());
        proof {
            let parts = seq![self@.file_id, self@.write_token, self@.commit_timestamp];
            assert(parts.drop_last().drop_last() =~= seq![self@.file_id]);
            assert(parts.drop_last() =~= seq![self@.file_id, self@.write_token]);
            reveal_with_fuel(joined, 3);
        }
        name
    }
}

impl Clone for BaseFile {
    fn clone(&self) -> (r: Self)
        ensures
            r@ == self@,
    {
        BaseFile {
            file_id: self.file_id.clone(),
            write_token: self.write_token.clone(),
            commit_timestamp: self.commit_timestamp.clone(),
            extension: self.extension.clone(),
        }
    }
}

/// The base file that a file of the listing is, if it is a committed base HFile: its name ends
/// in `.hfile` and its commit is not later than `latest`.
pub open spec fn committed_base_file(name: Seq<char>, latest: Seq<char>) -> Option<BaseFileView> {
    match base_file_named(name) {
        Some(b) => if has_suffix(name, ".hfile"@) && !text_less(latest, b.commit_timestamp) {
            Some(b)
        } else {
            None
        },
        None => None,
    }
}

/// The committed base files of a listing, each at its position.
pub open spec fn committed_base_files(names: Seq<Seq<char>>, latest: Seq<char>) -> Seq<
    Option<BaseFileView>,
> {
    names.map_values(|name: Seq<char>| committed_base_file(name, latest))
}

/// Whether the file `c` at position `j` leaves the lead of its file group to the file `b` at
/// position `i`: it is of another group, was committed earlier, or comes no earlier with the
/// same commit.
pub open spec fn yields(c: Option<BaseFileView>, j: int, b: BaseFileView, i: int) -> bool {
    match c {
        Some(c) => {
            ||| c.file_id != b.file_id
            ||| text_less(c.commit_timestamp, b.commit_timestamp)
            ||| c.commit_timestamp == b.commit_timestamp && i <= j
        },
        None => true,
    }
}

/// Whether the file at position `i` is the latest of its file group; of files with the same
/// commit, the first one counts.
pub open spec fn is_latest_at(files: Seq<Option<BaseFileView>>, i: int) -> bool {
    &&& 0 <= i < files.len()
    &&& files[i] is Some
    &&& forall|j: int| 0 <= j < files.len() ==> yields(#[trigger] files[j], j, files[i]->0, i)
}

/// Whether `b` is the latest file of its file group.
pub open spec fn is_latest(files: Seq<Option<BaseFileView>>, b: BaseFileView) -> bool {
    exists|i: int| #[trigger] is_latest_at(files, i) && files[i] == Some(b)
}

/// What a list of base files stands for.
pub open spec fn base_file_views(files: Seq<BaseFile>) -> Seq<BaseFileView> {
    files.map_values(|b: BaseFile| b@)
}

/// Whether `chosen` are the latest files, one for each file group that has any.
pub open spec fn are_latest(chosen: Seq<BaseFileView>, files: Seq<Option<BaseFileView>>) -> bool {
    &&& forall|k: int| 0 <= k < chosen.len() ==> is_latest(files, #[trigger] chosen[k])
    &&& forall|i: int| #[trigger] is_latest_at(files, i) ==> chosen.contains(files[i]->0)
    &&& forall|k: int, l: int|
        0 <= k < l < chosen.len() ==> (#[trigger] chosen[k]).file_id != (
        #[trigger] chosen[l]).file_id
}

/// A file group has one latest file.
pub proof fn latest_is_unique(files: Seq<Option<BaseFileView>>, i: int, k: int)
    requires
        is_latest_at(files, i),
        is_latest_at(files, k),
        files[i]->0.file_id == files[k]->0.file_id,
    ensures
        i == k,
{
    assert(yields(files[i], i, files[k]->0, k));
    assert(yields(files[k], k, files[i]->0, i));
    let x = vstd::utf8::encode_utf8(files[i]->0.commit_timestamp);
    let y = vstd::utf8::encode_utf8(files[k]->0.commit_timestamp);
    bytes_less_irreflexive(x);
    if bytes_less(x, y) {
        bytes_less_asymmetric(x, y);
    }
}

/// Of two texts, one comes first or they are the same.
proof fn text_order_decides(a: Seq<char>, b: Seq<char>)
    ensures
        text_less(a, b) || text_less(b, a) || a == b,
{
    bytes_less_total(vstd::utf8::encode_utf8(a), vstd::utf8::encode_utf8(b));
    if vstd::utf8::encode_utf8(a) == vstd::utf8::encode_utf8(b) {
        same_encoding(a, b);
    }
}

/// The lead of a group, when one more file is looked at.
proof fn lead_kept(files: Seq<Option<BaseFileView>>, n: int, i: int)
    requires
        0 <= n < files.len(),
        is_latest_at(files.take(n), i),
        files[n] is None || files[n]->0.file_id != files[i]->0.file_id || !text_less(
            files[i]->0.commit_timestamp,
            files[n]->0.commit_timestamp,
        ),
    ensures
        is_latest_at(files.take(n + 1), i),
{
    let before = files.take(n);
    let after = files.take(n + 1);
    assert(before[i] == files[i] && after[i] == files[i]);
    if files[n] is Some {
        text_order_decides(files[i]->0.commit_timestamp, files[n]->0.commit_timestamp);
    }
    assert forall|j: int| 0 <= j < after.len() implies yields(
        #[trigger] after[j],
        j,
        after[i]->0,
        i,
    ) by {
        if j < n {
            assert(before[j] == after[j]);
        }
    }
}

/// A file with a later commit takes the lead of its group over.
proof fn lead_passes(files: Seq<Option<BaseFileView>>, n: int, i: int)
    requires
        0 <= n < files.len(),
        is_latest_at(files.take(n), i),
        files[n] is Some,
        files[n]->0.file_id == files[i]->0.file_id,
        text_less(files[i]->0.commit_timestamp, files[n]->0.commit_timestamp),
    ensures
        is_latest_at(files.take(n + 1), n),
{
    let before = files.take(n);
    let after = files.take(n + 1);
    assert(before[i] == files[i]);
    assert forall|j: int| 0 <= j < after.len() implies yields(
        #[trigger] after[j],
        j,
        after[n]->0,
        n,
    ) by {
        if j < n {
            assert(before[j] == after[j]);
            assert(yields(before[j], j, before[i]->0, i));
            if let Some(d) = after[j] {
                if text_less(d.commit_timestamp, files[i]->0.commit_timestamp) {
                    bytes_less_transitive(
                        vstd::utf8::encode_utf8(d.commit_timestamp),
                        vstd::utf8::encode_utf8(files[i]->0.commit_timestamp),
                        vstd::utf8::encode_utf8(files[n]->0.commit_timestamp),
                    );
                }
            }
        }
    }
}

/// The first file of a group leads it.
proof fn lead_taken(files: Seq<Option<BaseFileView>>, n: int)
    requires
        0 <= n < files.len(),
        files[n] is Some,
        forall|j: int|
            0 <= j < n && #[trigger] files[j] is Some ==> files[j]->0.file_id
                != files[n]->0.file_id,
    ensures
        is_latest_at(files.take(n + 1), n),
{
    let after = files.take(n + 1);
    assert forall|j: int| 0 <= j < after.len() implies yields(
        #[trigger] after[j],
        j,
        after[n]->0,
        n,
    ) by {
        if j < n {
            assert(files[j] == after[j]);
        }
    }
}

/// Classifies one file of the listing.
fn as_committed(name: &str, latest: &str) -> (r: Option<BaseFile>)
    ensures
        match r {
            Some(b) => committed_base_file(name@, latest@) == Some(b@),
            None => committed_base_file(name@, latest@) is None,
        },
{
    if !ends_with(name, ".hfile") {
        return None;
    }
    match BaseFile::from_name(name) {
        Some(b) => match compare_text(b.commit_timestamp.as_str(), latest) {
            Relation::Greater => None,
            _ => Some(b),
        },
        None => None,
    }
}

/// Position of the file of a group.
fn position_of_group(files: &Vec<BaseFile>, file_id: &str) -> (r: Option<usize>)
    ensures
        match r {
            Some(k) => k < files@.len() && files@[k as int]@.file_id == file_id@,
            None => forall|k: int|
                0 <= k < files@.len() ==> (#[trigger] files@[k])@.file_id != file_id@,
        },
{
    let mut k: usize = 0;
    while k < files.len()
        invariant
            k <= files@.len(),
            forall|l: int| 0 <= l < k ==> (#[trigger] files@[l])@.file_id != file_id@,
        decreases files@.len() - k,
    {
        if same_text(files[k].file_id.as_str(), file_id) {
            return Some(k);
        }
        k += 1;
    }
    None
}

/// Whether `chosen` hold the lead among the first `n` files, being found at `at`.
spec fn lead_at(
    chosen: Seq<BaseFile>,
    at: Seq<int>,
    files: Seq<Option<BaseFileView>>,
    n: int,
) -> bool {
    &&& at.len() == chosen.len()
    &&& forall|k: int|
        0 <= k < chosen.len() ==> is_latest_at(files.take(n), #[trigger] at[k]) && files[at[k]]
            == Some(chosen[k]@)
    &&& forall|k: int, l: int|
        0 <= k < l < chosen.len() ==> (#[trigger] chosen[k])@.file_id != (
        #[trigger] chosen[l])@.file_id
    &&& forall|j: int|
        0 <= j < n && #[trigger] files[j] is Some ==> exists|k: int|
            0 <= k < chosen.len() && (#[trigger] chosen[k])@.file_id == files[j]->0.file_id
}

/// The latest committed base HFile of each file group in a listing.
///
/// Files that are no base HFiles, or whose commit is later than `latest`, are passed over.
pub fn latest_base_files(names: &Vec<String>, latest: &str) -> (r: Vec<BaseFile>)
    ensures
        are_latest(base_file_views(r@), committed_base_files(text_views(names@), latest@)),
{
    let ghost files = committed_base_files(text_views(names@), latest@);
    let ghost mut at: Seq<int> = Seq::empty();
    let mut chosen: Vec<BaseFile> = Vec::new();
    let mut n: usize = 0;
    while n < names.len()
        invariant
            files == committed_base_files(text_views(names@), latest@),
            files.len() == names@.len(),
            n <= names@.len(),
            lead_at(chosen@, at, files, n as int),
        decreases names@.len() - n,
    {
        let ghost before = chosen@;
        let candidate: Option<BaseFile> = as_committed(names[n].as_str(), latest);
        assert(files[n as int] == committed_base_file(names@[n as int]@, latest@));
        match candidate {
            None => {
                proof {
                    assert forall|k: int| 0 <= k < chosen@.len() implies is_latest_at(
                        files.take(n + 1),
                        #[trigger] at[k],
                    ) by {
                        lead_kept(files, n as int, at[k]);
                    }
                }
            },
            Some(b) => match position_of_group(&chosen, b.file_id.as_str()) {
                Some(k) => {
                    let later: bool = match compare_text(
                        chosen[k].commit_timestamp.as_str(),
                        b.commit_timestamp.as_str(),
                    ) {
                        Relation::Less => true,
                        _ => false,
                    };
                    proof {
                        assert forall|l: int|
                            0 <= l < chosen@.len() && (l != k || !later) implies is_latest_at(
                            files.take(n + 1),
                            #[trigger] at[l],
                        ) by {
                            lead_kept(files, n as int, at[l]);
                        }
                        if later {
                            lead_passes(files, n as int, at[k as int]);
                        }
                    }
                    if later {
                        chosen.set(k, b);
                        proof {
                            at = at.update(k as int, n as int);
                        }
                        assert forall|j: int|
                            0 <= j < n + 1 && #[trigger] files[j] is Some implies exists|l: int|
                            0 <= l < chosen@.len() && (#[trigger] chosen@[l])@.file_id
                                == files[j]->0.file_id by {
                            if j < n {
                                let l = choose|l: int|
                                    0 <= l < before.len() && (#[trigger] before[l])@.file_id
                                        == files[j]->0.file_id;
                                assert(chosen@[l]@.file_id == before[l]@.file_id);
                            } else {
                                assert(chosen@[k as int]@.file_id == files[j]->0.file_id);
                            }
                        }
                    } else {
                        assert(before[k as int]@.file_id == files[n as int]->0.file_id);
                    }
                },
                None => {
                    proof {
                        assert forall|j: int|
                            0 <= j < n && #[trigger] files[j] is Some implies files[j]->0.file_id
                            != files[n as int]->0.file_id by {
                            let l = choose|l: int|
                                0 <= l < before.len() && (#[trigger] before[l])@.file_id
                                    == files[j]->0.file_id;
                        }
                        lead_taken(files, n as int);
                        assert forall|l: int| 0 <= l < chosen@.len() implies is_latest_at(
                            files.take(n + 1),
                            #[trigger] at[l],
                        ) by {
                            lead_kept(files, n as int, at[l]);
                        }
                        at = at.push(n as int);
                    }
                    chosen.push(b);
                    assert forall|j: int|
                        0 <= j < n + 1 && #[trigger] files[j] is Some implies exists|l: int|
                        0 <= l < chosen@.len() && (#[trigger] chosen@[l])@.file_id
                            == files[j]->0.file_id by {
                        if j < n {
                            let l = choose|l: int|
                                0 <= l < before.len() && (#[trigger] before[l])@.file_id
                                    == files[j]->0.file_id;
                            assert(chosen@[l] == before[l]);
                        } else {
                            assert(chosen@[before.len() as int]@.file_id == files[j]->0.file_id);
                        }
                    }
                },
            },
        }
        n += 1;
    }
    proof {
        let views = base_file_views(chosen@);
        assert(files.take(n as int) =~= files);
        assert forall|k: int| 0 <= k < views.len() implies is_latest(files, #[trigger] views[k]) by {
            assert(is_latest_at(files, at[k]));
            assert(views[k] == chosen@[k]@);
        }
        assert forall|i: int| #[trigger] is_latest_at(files, i) implies views.contains(
            files[i]->0,
        ) by {
            let k = choose|k: int|
                0 <= k < chosen@.len() && (#[trigger] chosen@[k])@.file_id == files[i]->0.file_id;
            assert(is_latest_at(files, at[k]));
            latest_is_unique(files, i, at[k]);
            assert(views[k] == files[i]->0);
        }
        assert forall|k: int, l: int| 0 <= k < l < views.len() implies (
        #[trigger] views[k]).file_id != (#[trigger] views[l]).file_id by {
            assert(chosen@[k]@.file_id != chosen@[l]@.file_id);
        }
    }
    chosen
}

/// The name of a base HFile.
pub open spec fn hfile_name(file_id: Seq<char>, token: Seq<char>, commit: Seq<char>) -> Seq<char> {
    file_id + seq!['_'] + token + seq!['_'] + commit + ".hfile"@
}

/// Whether a name is that of a base HFile of a file group, by a commit that is not later than
/// `latest`.
pub open spec fn is_committed_hfile(
    name: Seq<char>,
    latest: Seq<char>,
    file_id: Seq<char>,
    token: Seq<char>,
    commit: Seq<char>,
) -> bool {
    &&& name == hfile_name(file_id, token, commit)
    &&& !file_id.contains('_') && !token.contains('_') && !commit.contains('_')
    &&& !text_less(latest, commit)
}

proof fn committed_hfile_is_found(
    name: Seq<char>,
    latest: Seq<char>,
    file_id: Seq<char>,
    token: Seq<char>,
    commit: Seq<char>,
)
    requires
        is_committed_hfile(name, latest, file_id, token, commit),
    ensures
        committed_base_file(name, latest) == Some(
            BaseFileView {
                file_id,
                write_token: token,
                commit_timestamp: commit,
                extension: "hfile"@,
            },
        ),
{
    let b = BaseFileView {
        file_id,
        write_token: token,
        commit_timestamp: commit,
        extension: "hfile"@,
    };
    reveal_strlit("hfile");
    reveal_strlit(".hfile");
    hfile_name_is(b);
    assert(b.well_formed());
    base_file_name_round_trip(b);
    assert(name.subrange(name.len() - ".hfile"@.len(), name.len() as int) =~= ".hfile"@);
}

pub(crate) proof fn hfile_name_is(b: BaseFileView)
    requires
        b.extension == "hfile"@,
    ensures
        b.name() == hfile_name(b.file_id, b.write_token, b.commit_timestamp),
{
    reveal_strlit("hfile");
    reveal_strlit(".hfile");
    let parts = seq![b.file_id, b.write_token, b.commit_timestamp];
    assert(parts.drop_last() =~= seq![b.file_id, b.write_token]);
    assert(parts.drop_last().drop_last() =~= seq![b.file_id]);
    reveal_with_fuel(joined, 3);
    assert(b.name() =~= hfile_name(b.file_id, b.write_token, b.commit_timestamp));
}

proof fn found_is_committed_hfile(name: Seq<char>, latest: Seq<char>)
    ensures
        committed_base_file(name, latest) matches Some(b) ==> is_committed_hfile(
            name,
            latest,
            b.file_id,
            b.write_token,
            b.commit_timestamp,
        ) && b.extension == "hfile"@,
{
    if let Some(b) = committed_base_file(name, latest) {
        assert(names_base_file(name, b));
        reveal_strlit("hfile");
        reveal_strlit(".hfile");
        let stem = joined(seq![b.file_id, b.write_token, b.commit_timestamp], '_');
        let n = name.len() - 6;
        let front = name.take(n);
        assert(name.subrange(n, name.len() as int) =~= ".hfile"@);
        assert(name =~= front.push('.') + "hfile"@) by {
            assert forall|i: int| 0 <= i < name.len() implies name[i] == (front.push('.')
                + "hfile"@)[i] by {
                if i >= n {
                    assert(name[i] == name.subrange(n, name.len() as int)[i - n]);
                }
            }
        }
        assert(!"hfile"@.contains('.'));
        last_dot_unique(stem, b.extension, front, "hfile"@);
        hfile_name_is(b);
    }
}

/// Of the base HFiles of a file group whose commits are not later than `latest`, the one with the
/// latest commit is chosen; of several with that commit, the first in the listing.
pub proof fn newest_hfile_is_chosen(
    chosen: Seq<BaseFileView>,
    names: Seq<Seq<char>>,
    latest: Seq<char>,
    i: int,
    file_id: Seq<char>,
    token: Seq<char>,
    commit: Seq<char>,
)
    requires
        are_latest(chosen, committed_base_files(names, latest)),
        0 <= i < names.len(),
        is_committed_hfile(names[i], latest, file_id, token, commit),
        forall|j: int, other: Seq<char>, later: Seq<char>|
            0 <= j < names.len() && #[trigger] is_committed_hfile(
                names[j],
                latest,
                file_id,
                other,
                later,
            ) ==> text_less(later, commit) || (later == commit && i <= j),
    ensures
        chosen.contains(
            BaseFileView {
                file_id,
                write_token: token,
                commit_timestamp: commit,
                extension: "hfile"@,
            },
        ),
{
    let files = committed_base_files(names, latest);
    committed_hfile_is_found(names[i], latest, file_id, token, commit);
    assert forall|j: int| 0 <= j < files.len() implies yields(
        #[trigger] files[j],
        j,
        files[i]->0,
        i,
    ) by {
        found_is_committed_hfile(names[j], latest);
        if let Some(c) = files[j] {
            if c.file_id == file_id {
                assert(is_committed_hfile(
                    names[j],
                    latest,
                    file_id,
                    c.write_token,
                    c.commit_timestamp,
                ));
            }
        }
    }
    assert(is_latest_at(files, i));
}

/// Every chosen file is a base HFile of the listing whose commit is not later than `latest`, none
/// of its file group has a later such commit, and no other file of the group is chosen.
pub proof fn chosen_hfile_is_newest(
    chosen: Seq<BaseFileView>,
    names: Seq<Seq<char>>,
    latest: Seq<char>,
    k: int,
) -> (i: int)
    requires
        are_latest(chosen, committed_base_files(names, latest)),
        0 <= k < chosen.len(),
    ensures
        0 <= i < names.len(),
        is_committed_hfile(
            names[i],
            latest,
            chosen[k].file_id,
            chosen[k].write_token,
            chosen[k].commit_timestamp,
        ),
        chosen[k].extension == "hfile"@,
        forall|j: int, other: Seq<char>, later: Seq<char>|
            0 <= j < names.len() && #[trigger] is_committed_hfile(
                names[j],
                latest,
                chosen[k].file_id,
                other,
                later,
            ) ==> !text_less(chosen[k].commit_timestamp, later),
        forall|l: int|
            0 <= l < chosen.len() && l != k ==> (#[trigger] chosen[l]).file_id != chosen[k].file_id,
{
    let files = committed_base_files(names, latest);
    assert(is_latest(files, chosen[k]));
    let i = choose|i: int| #[trigger] is_latest_at(files, i) && files[i] == Some(chosen[k]);
    found_is_committed_hfile(names[i], latest);
    let own = chosen[k].commit_timestamp;
    assert forall|j: int, other: Seq<char>, later: Seq<char>|
        0 <= j < names.len() && #[trigger] is_committed_hfile(
            names[j],
            latest,
            chosen[k].file_id,
            other,
            later,
        ) implies !text_less(own, later) by {
        committed_hfile_is_found(names[j], latest, chosen[k].file_id, other, later);
        assert(yields(files[j], j, files[i]->0, i));
        let x = vstd::utf8::encode_utf8(own);
        let y = vstd::utf8::encode_utf8(later);
        bytes_less_irreflexive(x);
        if bytes_less(y, x) {
            bytes_less_asymmetric(y, x);
        }
    }
    assert forall|l: int| 0 <= l < chosen.len() && l != k implies (#[trigger] chosen[l]).file_id
        != chosen[k].file_id by {
        if l < k {
            assert(chosen[l].file_id != chosen[k].file_id);
        } else {
            assert(chosen[k].file_id != chosen[l].file_id);
        }
    }
    i
}

} // verus!
