//! JSON values, as the `serde_json` crate holds them.

use vstd::pervasive::unreached;
use vstd::prelude::*;

verus! {

/// A JSON value.
#[verifier::external_type_specification]
#[verifier::external_body]
pub struct ExJsonValue(serde_json::Value);

/// The members of a JSON object.
#[verifier::external_type_specification]
#[verifier::external_body]
#[verifier::reject_recursive_types(K)]
#[verifier::reject_recursive_types(V)]
pub struct ExJsonMap<K, V>(serde_json::Map<K, V>);

/// An error of the JSON crate.
#[verifier::external_type_specification]
#[verifier::external_body]
pub struct ExJsonError(serde_json::Error);

/// What a JSON value is, one level deep.
pub enum JsonView {
    Null,
    Bool(bool),
    /// A number that was written as an integer.
    Integer(int),
    /// Any other number.
    Real,
    Text(Seq<char>),
    Array(Seq<serde_json::Value>),
    Object(serde_json::Map<String, serde_json::Value>),
}

/// What a JSON value is.
pub uninterp spec fn json_view(v: serde_json::Value) -> JsonView;

/// The members of an object, in the order in which the object is walked.
pub uninterp spec fn json_members(m: serde_json::Map<String, serde_json::Value>) -> Seq<
    (Seq<char>, serde_json::Value),
>;

/// The names of the members, in the order in which the object is walked.
pub open spec fn member_names(m: serde_json::Map<String, serde_json::Value>) -> Seq<Seq<char>> {
    json_members(m).map_values(|e: (Seq<char>, serde_json::Value)| e.0)
}

/// The values of the members, in the order in which the object is walked.
pub open spec fn member_values(m: serde_json::Map<String, serde_json::Value>) -> Seq<
    serde_json::Value,
> {
    json_members(m).map_values(|e: (Seq<char>, serde_json::Value)| e.1)
}

/// Whether an object has a member called `name` with the value `v`.
pub open spec fn has_member(
    m: serde_json::Map<String, serde_json::Value>,
    name: Seq<char>,
    v: serde_json::Value,
) -> bool {
    json_members(m).contains((name, v))
}

/// The value of the member called `name`.
pub open spec fn member(m: serde_json::Map<String, serde_json::Value>, name: Seq<char>) -> Option<
    serde_json::Value,
> {
    if exists|v: serde_json::Value| has_member(m, name, v) {
        Some(choose|v: serde_json::Value| has_member(m, name, v))
    } else {
        None
    }
}

/// `Value::as_object`: the members, if the value is an object.
pub assume_specification[ serde_json::Value::as_object ](v: &serde_json::Value) -> (r: Option<
    &serde_json::Map<String, serde_json::Value>,
>)
    ensures
        match r {
            Some(m) => json_view(*v) == JsonView::Object(*m),
            None => !(json_view(*v) is Object),
        },
;

/// `Value::as_array`: the elements, if the value is an array.
pub assume_specification[ serde_json::Value::as_array ](v: &serde_json::Value) -> (r: Option<
    &Vec<serde_json::Value>,
>)
    ensures
        match r {
            Some(elements) => json_view(*v) == JsonView::Array(elements@),
            None => !(json_view(*v) is Array),
        },
;

/// `Value::as_str`: the text, if the value is a string.
pub assume_specification[ serde_json::Value::as_str ](v: &serde_json::Value) -> (r: Option<&str>)
    ensures
        match r {
            Some(text) => json_view(*v) == JsonView::Text(text@),
            None => !(json_view(*v) is Text),
        },
;

/// Calls `serde_json::Map::get`: the value of the member with the given name, if there is one.
/// No two members have the same name.
#[verifier::external_body]
pub(crate) fn get_member<'a>(
    m: &'a serde_json::Map<String, serde_json::Value>,
    name: &str,
) -> (r: Option<&'a serde_json::Value>)
    ensures
        match r {
            Some(v) => forall|w: serde_json::Value| #[trigger] has_member(*m, name@, w) <==> w == *v,
            None => forall|w: serde_json::Value| !#[trigger] has_member(*m, name@, w),
        },
{
    m.get(name)
}

/// Calls `serde_json::Map::keys` and gathers the names.
#[verifier::external_body]
pub(crate) fn names_of(m: &serde_json::Map<String, serde_json::Value>) -> (r: Vec<&String>)
    ensures
        r@.len() == json_members(*m).len(),
        forall|i: int| 0 <= i < r@.len() ==> (#[trigger] r@[i])@ == json_members(*m)[i].0,
{
    m.keys().collect()
}

/// Calls `serde_json::Map::values` and gathers the values.
#[verifier::external_body]
pub(crate) fn values_of(m: &serde_json::Map<String, serde_json::Value>) -> (r: Vec<
    &serde_json::Value,
>)
    ensures
        r@.len() == json_members(*m).len(),
        forall|i: int| 0 <= i < r@.len() ==> *(#[trigger] r@[i]) == json_members(*m)[i].1,
{
    m.values().collect()
}

/// The value of the member called `name`, of a value that is an object.
pub open spec fn member_of(v: serde_json::Value, name: Seq<char>) -> Option<serde_json::Value> {
    match json_view(v) {
        JsonView::Object(m) => member(m, name),
        _ => None,
    }
}

/// Looks a member up in an object.
pub fn find_member<'a>(
    m: &'a serde_json::Map<String, serde_json::Value>,
    name: &str,
) -> (r: Option<&'a serde_json::Value>)
    ensures
        match r {
            Some(v) => member(*m, name@) == Some(*v),
            None => member(*m, name@) is None,
        },
{
    let found: Option<&serde_json::Value> = get_member(m, name);
    proof {
        if let Some(v) = found {
            assert(has_member(*m, name@, *v));
        }
    }
    found
}

/// Looks a member up in a value; a value that is no object has none.
pub fn find_member_of<'a>(v: &'a serde_json::Value, name: &str) -> (r: Option<
    &'a serde_json::Value,
>)
    ensures
        match r {
            Some(w) => member_of(*v, name@) == Some(*w),
            None => member_of(*v, name@) is None,
        },
{
    match v.as_object() {
        Some(m) => find_member(m, name),
        None => None,
    }
}

/// A JSON value to be made, one level deep.
pub enum JsonNode {
    Null,
    Bool(bool),
    Integer(i64),
    Count(usize),
    Text(String),
    Array(Vec<serde_json::Value>),
    Object(serde_json::Map<String, serde_json::Value>),
}

impl JsonNode {
    pub open spec fn view(&self) -> JsonView {
        match self {
            JsonNode::Null => JsonView::Null,
            JsonNode::Bool(b) => JsonView::Bool(*b),
            JsonNode::Integer(n) => JsonView::Integer(*n as int),
            JsonNode::Count(n) => JsonView::Integer(*n as int),
            JsonNode::Text(s) => JsonView::Text(s@),
            JsonNode::Array(v) => JsonView::Array(v@),
            JsonNode::Object(m) => JsonView::Object(*m),
        }
    }
}

/// Makes the variant of `serde_json::Value` that a node describes; numbers go through
/// `Value::from`.
#[verifier::external_body]
fn make_value(node: JsonNode) -> (r: serde_json::Value)
    ensures
        json_view(r) == node@,
{
    match node {
        JsonNode::Null => serde_json::Value::Null,
        JsonNode::Bool(b) => serde_json::Value::Bool(b),
        JsonNode::Integer(n) => serde_json::Value::from(n),
        JsonNode::Count(n) => serde_json::Value::from(n),
        JsonNode::Text(s) => serde_json::Value::String(s),
        JsonNode::Array(v) => serde_json::Value::Array(v),
        JsonNode::Object(m) => serde_json::Value::Object(m),
    }
}

/// Makes a JSON value.
pub fn json_value(node: JsonNode) -> (r: serde_json::Value)
    ensures
        json_view(r) == node@,
{
    make_value(node)
}

/// Calls `serde_json::Map::new`.
#[verifier::external_body]
fn empty_object() -> (r: serde_json::Map<String, serde_json::Value>)
    ensures
        json_members(r).len() == 0,
{
    serde_json::Map::new()
}

/// Calls `serde_json::Map::insert`: the member gets the value, whether or not it was there, and
/// the other members stay. Where the member comes in the walk is not said.
#[verifier::external_body]
fn insert_member(
    m: &mut serde_json::Map<String, serde_json::Value>,
    name: String,
    v: serde_json::Value,
)
    ensures
        forall|n: Seq<char>, w: serde_json::Value| #[trigger]
            has_member(*final(m), n, w) <==> if n == name@ {
                w == v
            } else {
                has_member(*old(m), n, w)
            },
{
    m.insert(name, v);
}

/// `Value` implements `Clone` by a derive: the clone is the same value.
pub assume_specification[ <serde_json::Value as Clone>::clone ](v: &serde_json::Value) -> (r:
    serde_json::Value)
    ensures
        r == *v,
;

/// The value of the last entry with the given name.
pub open spec fn last_named<V>(entries: Seq<(Seq<char>, V)>, name: Seq<char>) -> Option<V>
    decreases entries.len(),
{
    if entries.len() == 0 {
        None
    } else if entries.last().0 == name {
        Some(entries.last().1)
    } else {
        last_named(entries.drop_last(), name)
    }
}

/// What a list of members to be stands for.
pub open spec fn entry_views(entries: Seq<(String, serde_json::Value)>) -> Seq<
    (Seq<char>, JsonView),
> {
    entries.map_values(|e: (String, serde_json::Value)| (e.0@, json_view(e.1)))
}

/// Whether the members of an object are the given ones; of several with the same name the last
/// one counts.
pub open spec fn is_object_of(
    m: serde_json::Map<String, serde_json::Value>,
    entries: Seq<(Seq<char>, JsonView)>,
) -> bool {
    &&& forall|name: Seq<char>, v: serde_json::Value| #[trigger]
        has_member(m, name, v) ==> last_named(entries, name) == Some(json_view(v))
    &&& forall|name: Seq<char>|
        #[trigger] member(m, name) is Some <==> last_named(entries, name) is Some
}

proof fn last_of_views(
    entries: Seq<(Seq<char>, serde_json::Value)>,
    views: Seq<(Seq<char>, JsonView)>,
    name: Seq<char>,
)
    requires
        views.len() == entries.len(),
        forall|i: int|
            0 <= i < entries.len() ==> #[trigger] views[i] == (
                entries[i].0,
                json_view(entries[i].1),
            ),
    ensures
        match last_named(entries, name) {
            Some(v) => last_named(views, name) == Some(json_view(v)),
            None => last_named(views, name) is None,
        },
    decreases entries.len(),
{
    if entries.len() > 0 {
        assert(views[entries.len() - 1] == views.last());
        let e = entries.drop_last();
        let w = views.drop_last();
        assert forall|i: int| 0 <= i < e.len() implies #[trigger] w[i] == (
            e[i].0,
            json_view(e[i].1),
        ) by {
            assert(views[i] == w[i]);
        }
        last_of_views(e, w, name);
    }
}

/// The value of a member of an object that was made of entries.
pub proof fn member_of_object(
    m: serde_json::Map<String, serde_json::Value>,
    entries: Seq<(Seq<char>, JsonView)>,
    name: Seq<char>,
)
    requires
        is_object_of(m, entries),
    ensures
        match member(m, name) {
            Some(v) => last_named(entries, name) == Some(json_view(v)),
            None => last_named(entries, name) is None,
        },
{
    if let Some(v) = member(m, name) {
        assert(has_member(m, name, v));
    }
}

/// The last entry with a name is found: it has the name, and none behind it has.
pub proof fn last_named_at<V>(entries: Seq<(Seq<char>, V)>, name: Seq<char>, k: int)
    requires
        0 <= k < entries.len(),
        entries[k].0 == name,
        forall|j: int| k < j < entries.len() ==> (#[trigger] entries[j]).0 != name,
    ensures
        last_named(entries, name) == Some(entries[k].1),
    decreases entries.len(),
{
    if k < entries.len() - 1 {
        assert(entries[entries.len() - 1].0 != name);
        let shorter = entries.drop_last();
        assert forall|j: int| k < j < shorter.len() implies (#[trigger] shorter[j]).0 != name by {
            assert(shorter[j] == entries[j]);
        }
        last_named_at(shorter, name, k);
    }
}

/// A name that no entry has is not found.
pub proof fn last_named_nowhere<V>(entries: Seq<(Seq<char>, V)>, name: Seq<char>)
    ensures
        last_named(entries, name) is None <==> forall|j: int|
            0 <= j < entries.len() ==> (#[trigger] entries[j]).0 != name,
    decreases entries.len(),
{
    if entries.len() > 0 {
        let shorter = entries.drop_last();
        last_named_nowhere(shorter, name);
        assert(entries[entries.len() - 1] == entries.last());
        if forall|j: int| 0 <= j < entries.len() ==> (#[trigger] entries[j]).0 != name {
            assert forall|j: int| 0 <= j < shorter.len() implies (#[trigger] shorter[j]).0 != name by {
                assert(shorter[j] == entries[j]);
            }
        }
        if last_named(entries, name) is None {
            assert forall|j: int| 0 <= j < entries.len() implies (#[trigger] entries[j]).0 != name by {
                if j < shorter.len() {
                    assert(shorter[j] == entries[j]);
                }
            }
        }
    }
}

/// Makes an object with the given members.
pub fn object_from(entries: Vec<(String, serde_json::Value)>) -> (r: serde_json::Map<
    String,
    serde_json::Value,
>)
    ensures
        is_object_of(r, entry_views(entries@)),
{
    let ghost plain = entries@.map_values(|e: (String, serde_json::Value)| (e.0@, e.1));
    let mut m: serde_json::Map<String, serde_json::Value> = empty_object();
    let mut i: usize = 0;
    while i < entries.len()
        invariant
            plain == entries@.map_values(|e: (String, serde_json::Value)| (e.0@, e.1)),
            i <= entries@.len(),
            forall|n: Seq<char>, w: serde_json::Value| #[trigger]
                has_member(m, n, w) <==> last_named(plain.take(i as int), n) == Some(w),
        decreases entries@.len() - i,
    {
        assert(plain.take(i + 1).drop_last() =~= plain.take(i as int));
        assert(plain.take(i + 1).last() == plain[i as int]);
        let name: String = entries[i].0.clone();
        let value: serde_json::Value = entries[i].1.clone();
        insert_member(&mut m, name, value);
        i += 1;
    }
    assert(plain.take(i as int) =~= plain);
    let ghost views = entry_views(entries@);
    assert forall|name: Seq<char>, v: serde_json::Value| #[trigger]
        has_member(m, name, v) implies last_named(views, name) == Some(json_view(v)) by {
        last_of_views(plain, views, name);
    }
    assert forall|name: Seq<char>|
        #[trigger] member(m, name) is Some <==> last_named(views, name) is Some by {
        last_of_views(plain, views, name);
        if last_named(plain, name) is Some {
            assert(has_member(m, name, last_named(plain, name)->0));
        }
    }
    m
}

/// The pretty-printed text of a JSON value.
pub uninterp spec fn pretty_json(v: serde_json::Value) -> Seq<u8>;

/// Calls `serde_json::to_vec_pretty`. A `Value` can always be written to memory; its text is
/// named.
#[verifier::external_body]
fn to_pretty(v: &serde_json::Value) -> (r: Result<Vec<u8>, serde_json::Error>)
    ensures
        r is Ok,
        r matches Ok(bytes) ==> bytes@ == pretty_json(*v),
{
    serde_json::to_vec_pretty(v)
}

/// The pretty-printed text of a JSON value.
pub fn pretty_text(v: &serde_json::Value) -> (r: Vec<u8>)
    ensures
        r@ == pretty_json(*v),
{
    match to_pretty(v) {
        Ok(bytes) => bytes,
        Err(_) => unreached(),
    }
}

} // verus!
