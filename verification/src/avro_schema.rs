//! Avro schemas, as far as they decide whether bytes can be decoded.
//!
//! A record can be a field of itself, by name. Where nothing that takes a byte stands between,
//! such a record has no values, and decoding one would never end. That does no harm where the
//! bytes do not lead to the record.

use apache_avro::schema::{DecimalSchema, InnerDecimalSchema, UuidSchema};
use apache_avro::Schema;
use vstd::prelude::*;
use crate::text::same_text;

verus! {

/// The name of a record, or of byte strings of a fixed width, as a schema gives it, or with the namespace that it is in.
pub struct SchemaName {
    pub namespace: Option<Seq<char>>,
    pub name: Seq<char>,
}

/// What holds values of other schemas.
#[derive(Debug, Clone, Copy, PartialEq, Eq, Structural)]
pub enum Holder {
    /// An array, of its items.
    Items,
    /// A map, of the values of its entries.
    Entries,
    /// A union, of its variants.
    Union,
}

/// How an Avro schema is made up.
pub enum SchemaShape {
    /// A schema without parts whose values take a byte at the least.
    Plain,
    /// Nulls, which take no byte, or booleans, which are nulls at the end of the bytes.
    Loose,
    /// Byte strings of a fixed width, by their name.
    FixedBytes(SchemaName, nat),
    /// A union, an array or a map: a byte is read before a value of a part.
    Parts(Holder, Seq<SchemaShape>),
    /// A record, by its name and the schemas of its fields.
    Record(SchemaName, Seq<SchemaShape>),
    /// What stands elsewhere under this name.
    Reference(SchemaName),
}

/// The shape of an Avro schema.
pub uninterp spec fn schema_shape(s: apache_avro::Schema) -> SchemaShape;

/// The shapes of several schemas.
pub open spec fn schema_shapes(schemas: Seq<apache_avro::Schema>) -> Seq<SchemaShape> {
    schemas.map_values(|s: apache_avro::Schema| schema_shape(s))
}

/// A name in a schema.
struct TreeName {
    namespace: Option<String>,
    name: String,
}

/// What an optional namespace stands for.
spec fn namespace_view(n: Option<String>) -> Option<Seq<char>> {
    match n {
        Some(n) => Some(n@),
        None => None,
    }
}

impl TreeName {
    spec fn view(&self) -> SchemaName {
        SchemaName { namespace: namespace_view(self.namespace), name: self.name@ }
    }
}

/// The parts of an Avro schema.
enum SchemaParts {
    Leaf,
    Items(apache_avro::Schema),
    Entries(apache_avro::Schema),
    Union(Vec<apache_avro::Schema>),
    Record(TreeName, Vec<apache_avro::Schema>),
}

/// An Avro schema that holds no others.
enum SchemaLeaf {
    Plain,
    Loose,
    FixedBytes(TreeName, usize),
    Reference(TreeName),
}

/// Whether a schema holds no others.
pub open spec fn is_leaf(s: SchemaShape) -> bool {
    s is Plain || s is Loose || s is FixedBytes || s is Reference
}

/// Tells the variants of `apache_avro::Schema` that hold others apart, and hands out what they
/// hold.
#[verifier::external_body]
fn schema_parts(s: &apache_avro::Schema) -> (r: SchemaParts)
    ensures
        match r {
            SchemaParts::Leaf => is_leaf(schema_shape(*s)),
            SchemaParts::Items(p) => schema_shape(*s) == SchemaShape::Parts(
                Holder::Items,
                seq![schema_shape(p)],
            ),
            SchemaParts::Entries(p) => schema_shape(*s) == SchemaShape::Parts(
                Holder::Entries,
                seq![schema_shape(p)],
            ),
            SchemaParts::Union(ps) => schema_shape(*s) == SchemaShape::Parts(
                Holder::Union,
                schema_shapes(ps@),
            ),
            SchemaParts::Record(n, fs) => schema_shape(*s) == SchemaShape::Record(
                n@,
                schema_shapes(fs@),
            ),
        },
{
    match s {
        Schema::Array(a) => SchemaParts::Items((*a.items).clone()),
        Schema::Map(m) => SchemaParts::Entries((*m.types).clone()),
        Schema::Union(u) => SchemaParts::Union(u.variants().to_vec()),
        Schema::Record(r) => {
            let namespace = r.name.namespace().map(str::to_owned);
            let name = TreeName { namespace, name: r.name.name().to_owned() };
            SchemaParts::Record(name, r.fields.iter().map(|f| f.schema.clone()).collect())
        },
        _ => SchemaParts::Leaf,
    }
}

/// Tells the variants of `apache_avro::Schema` that refer to others, have a fixed width, or are
/// nulls or booleans, apart from the others without parts, and hands out what they hold.
#[verifier::external_body]
fn schema_leaf(s: &apache_avro::Schema) -> (r: SchemaLeaf)
    requires
        is_leaf(schema_shape(*s)),
    ensures
        match r {
            SchemaLeaf::Plain => schema_shape(*s) == SchemaShape::Plain,
            SchemaLeaf::Loose => schema_shape(*s) == SchemaShape::Loose,
            SchemaLeaf::FixedBytes(n, size) => schema_shape(*s) == SchemaShape::FixedBytes(
                n@,
                size as nat,
            ),
            SchemaLeaf::Reference(n) => schema_shape(*s) == SchemaShape::Reference(n@),
        },
{
    match s {
        Schema::Ref { name: n } => {
            let namespace = n.namespace().map(str::to_owned);
            SchemaLeaf::Reference(TreeName { namespace, name: n.name().to_owned() })
        },
        Schema::Fixed(f)
        | Schema::Uuid(UuidSchema::Fixed(f))
        | Schema::Decimal(DecimalSchema { inner: InnerDecimalSchema::Fixed(f), .. }) => {
            let namespace = f.name.namespace().map(str::to_owned);
            let name = TreeName { namespace, name: f.name.name().to_owned() };
            SchemaLeaf::FixedBytes(name, f.size)
        },
        Schema::Null | Schema::Boolean => SchemaLeaf::Loose,
        _ => SchemaLeaf::Plain,
    }
}

/// An Avro schema as a tree.
enum SchemaTree {
    Plain,
    Loose,
    FixedBytes(TreeName, usize),
    Parts(Holder, Vec<SchemaTree>),
    Record(TreeName, Vec<SchemaTree>),
    Reference(TreeName),
}

impl SchemaTree {
    spec fn view(&self) -> SchemaShape
        decreases self,
    {
        match self {
            SchemaTree::Plain => SchemaShape::Plain,
            SchemaTree::Loose => SchemaShape::Loose,
            SchemaTree::FixedBytes(n, size) => SchemaShape::FixedBytes(n@, *size as nat),
            SchemaTree::Parts(h, ps) => SchemaShape::Parts(
                *h,
                Seq::new(
                    ps@.len(),
                    |i: int|
                        if 0 <= i < ps@.len() {
                            ps@[i].view()
                        } else {
                            arbitrary()
                        },
                ),
            ),
            SchemaTree::Record(n, fs) => SchemaShape::Record(
                n@,
                Seq::new(
                    fs@.len(),
                    |i: int|
                        if 0 <= i < fs@.len() {
                            fs@[i].view()
                        } else {
                            arbitrary()
                        },
                ),
            ),
            SchemaTree::Reference(n) => SchemaShape::Reference(n@),
        }
    }
}

spec fn tree_views(trees: Seq<SchemaTree>) -> Seq<SchemaShape> {
    trees.map_values(|t: SchemaTree| t@)
}

proof fn parts_view(h: Holder, ps: Vec<SchemaTree>)
    ensures
        SchemaTree::Parts(h, ps)@ == SchemaShape::Parts(h, tree_views(ps@)),
{
    assert(SchemaTree::Parts(h, ps)@->Parts_1 =~= tree_views(ps@));
}

proof fn record_view(n: TreeName, fs: Vec<SchemaTree>)
    ensures
        SchemaTree::Record(n, fs)@ == SchemaShape::Record(n@, tree_views(fs@)),
{
    assert(SchemaTree::Record(n, fs)@->Record_1 =~= tree_views(fs@));
}

/// Whether a union, array, map or record is made of the given shapes.
spec fn are_parts(whole: SchemaShape, parts: Seq<SchemaShape>) -> bool {
    match whole {
        SchemaShape::Parts(_, ps) => ps == parts,
        SchemaShape::Record(_, fs) => fs == parts,
        _ => false,
    }
}

proof fn part_is_smaller(whole: SchemaShape, parts: Seq<SchemaShape>, i: int)
    requires
        are_parts(whole, parts),
        0 <= i < parts.len(),
    ensures
        decreases_to!(whole => parts[i]),
{
    match whole {
        SchemaShape::Parts(_, _) => {
            assert(decreases_to!(whole => whole->Parts_1));
        },
        SchemaShape::Record(_, _) => {
            assert(decreases_to!(whole => whole->Record_1));
        },
        _ => {},
    }
    assert(decreases_to!(parts => parts[i]));
}

fn holder_tree(h: Holder, parts: Vec<SchemaTree>) -> (r: SchemaTree)
    ensures
        r@ == SchemaShape::Parts(h, tree_views(parts@)),
{
    proof {
        parts_view(h, parts);
    }
    SchemaTree::Parts(h, parts)
}

fn trees_of(schemas: &Vec<apache_avro::Schema>, Ghost(whole): Ghost<SchemaShape>) -> (r: Vec<
    SchemaTree,
>)
    requires
        are_parts(whole, schema_shapes(schemas@)),
    ensures
        tree_views(r@) == schema_shapes(schemas@),
    decreases whole, 0int,
{
    let mut trees: Vec<SchemaTree> = Vec::new();
    let mut i: usize = 0;
    while i < schemas.len()
        invariant
            are_parts(whole, schema_shapes(schemas@)),
            i <= schemas@.len(),
            trees@.len() == i,
            forall|k: int| 0 <= k < i ==> (#[trigger] trees@[k])@ == schema_shape(schemas@[k]),
        decreases schemas@.len() - i,
    {
        proof {
            part_is_smaller(whole, schema_shapes(schemas@), i as int);
            assert(schema_shapes(schemas@)[i as int] == schema_shape(schemas@[i as int]));
        }
        trees.push(tree_of(&schemas[i]));
        i += 1;
    }
    assert(tree_views(trees@) =~= schema_shapes(schemas@));
    trees
}

fn tree_of(s: &apache_avro::Schema) -> (r: SchemaTree)
    ensures
        r@ == schema_shape(*s),
    decreases schema_shape(*s), 1int,
{
    let ghost whole = schema_shape(*s);
    match schema_parts(s) {
        SchemaParts::Leaf => match schema_leaf(s) {
            SchemaLeaf::Plain => SchemaTree::Plain,
            SchemaLeaf::Loose => SchemaTree::Loose,
            SchemaLeaf::FixedBytes(n, size) => SchemaTree::FixedBytes(n, size),
            SchemaLeaf::Reference(n) => SchemaTree::Reference(n),
        },
        SchemaParts::Items(p) => {
            let ps: Vec<apache_avro::Schema> = vec![p];
            assert(schema_shapes(ps@) =~= seq![schema_shape(p)]);
            holder_tree(Holder::Items, trees_of(&ps, Ghost(whole)))
        },
        SchemaParts::Entries(p) => {
            let ps: Vec<apache_avro::Schema> = vec![p];
            assert(schema_shapes(ps@) =~= seq![schema_shape(p)]);
            holder_tree(Holder::Entries, trees_of(&ps, Ghost(whole)))
        },
        SchemaParts::Union(ps) => holder_tree(Holder::Union, trees_of(&ps, Ghost(whole))),
        SchemaParts::Record(n, fs) => {
            let fields: Vec<SchemaTree> = trees_of(&fs, Ghost(whole));
            proof {
                record_view(n, fields);
            }
            SchemaTree::Record(n, fields)
        },
    }
}

/// A name with the namespace that it is in: its own, or else the enclosing one.
pub open spec fn qualified(n: SchemaName, enclosing: Option<Seq<char>>) -> SchemaName {
    match enclosing {
        Some(e) => if n.namespace is None && e.len() > 0 {
            SchemaName { namespace: enclosing, name: n.name }
        } else {
            n
        },
        None => n,
    }
}

/// What a name stands for in a schema: the name, with its namespace, and the fields of the record,
/// or the byte strings of a fixed width as the only part.
pub struct Definition {
    pub name: SchemaName,
    pub fields: Seq<SchemaShape>,
}

/// What is defined in a schema.
pub open spec fn definitions(s: SchemaShape, enclosing: Option<Seq<char>>) -> Seq<Definition>
    decreases s, 0nat,
{
    match s {
        SchemaShape::Parts(_, ps) => definitions_in(ps, ps.len(), enclosing),
        SchemaShape::Record(n, fs) => {
            let name = qualified(n, enclosing);
            seq![Definition { name, fields: fs }] + definitions_in(fs, fs.len(), name.namespace)
        },
        SchemaShape::FixedBytes(n, _) => seq![
            Definition { name: qualified(n, enclosing), fields: seq![s] },
        ],
        _ => Seq::empty(),
    }
}

/// What is defined in the first `n` of several schemas.
pub open spec fn definitions_in(
    parts: Seq<SchemaShape>,
    n: nat,
    enclosing: Option<Seq<char>>,
) -> Seq<Definition>
    decreases parts, n,
{
    if n == 0 || n > parts.len() {
        Seq::empty()
    } else {
        definitions_in(parts, (n - 1) as nat, enclosing) + definitions(parts[n - 1], enclosing)
    }
}

/// Whether decoding a value of the schema reads a byte, or fails. At the end of the bytes, a
/// union is a null.
pub open spec fn takes_byte(s: SchemaShape) -> bool
    decreases s,
{
    match s {
        SchemaShape::Plain => true,
        SchemaShape::Loose => false,
        SchemaShape::FixedBytes(_, n) => n > 0,
        SchemaShape::Parts(h, _) => !(h is Union),
        SchemaShape::Record(_, fs) => is_behind_byte(fs, fs.len() as int),
        SchemaShape::Reference(_) => false,
    }
}

/// Whether a byte was read, or decoding has failed, before the part at `i`.
pub open spec fn is_behind_byte(parts: Seq<SchemaShape>, i: int) -> bool
    decreases parts,
{
    exists|j: int| 0 <= j < i && j < parts.len() && takes_byte(#[trigger] parts[j])
}

/// Whether, without a byte being read, a value of the schema leads to no more than `steps`
/// references in a row.
pub open spec fn settles(
    defined: Seq<Definition>,
    s: SchemaShape,
    enclosing: Option<Seq<char>>,
    steps: nat,
) -> bool
    decreases steps, s, 0nat,
{
    match s {
        SchemaShape::Record(n, fs) => all_settle(
            defined,
            fs,
            qualified(n, enclosing).namespace,
            steps,
        ),
        SchemaShape::Reference(n) => forall|d: int|
            0 <= d < defined.len() && (#[trigger] defined[d]).name == qualified(n, enclosing) ==> (
            steps > 0 && all_settle(
                defined,
                defined[d].fields,
                defined[d].name.namespace,
                (steps - 1) as nat,
            )),
        _ => true,
    }
}

/// Whether [`settles`] holds of the fields that come before a byte is read.
pub open spec fn all_settle(
    defined: Seq<Definition>,
    parts: Seq<SchemaShape>,
    enclosing: Option<Seq<char>>,
    steps: nat,
) -> bool
    decreases steps, parts, 1nat,
{
    forall|i: int|
        0 <= i < parts.len() && !is_behind_byte(parts, i) ==> settles(
            defined,
            #[trigger] parts[i],
            enclosing,
            steps,
        )
}

/// Whether several schemas settle.
pub open spec fn are_settled(
    defined: Seq<Definition>,
    parts: Seq<SchemaShape>,
    enclosing: Option<Seq<char>>,
) -> bool {
    forall|i: int|
        0 <= i < parts.len() ==> settles(
            defined,
            #[trigger] parts[i],
            enclosing,
            defined.len(),
        )
}

/// Whether the fixed widths in a schema are within what can be asked of memory.
pub open spec fn widths_fit(s: SchemaShape) -> bool
    decreases s,
{
    match s {
        SchemaShape::FixedBytes(_, n) => n <= isize::MAX,
        SchemaShape::Parts(_, ps) => all_widths_fit(ps),
        SchemaShape::Record(_, fs) => all_widths_fit(fs),
        _ => true,
    }
}

/// Whether [`widths_fit`] holds of several schemas.
pub open spec fn all_widths_fit(parts: Seq<SchemaShape>) -> bool
    decreases parts,
{
    forall|i: int| 0 <= i < parts.len() ==> widths_fit(#[trigger] parts[i])
}

/// Whether no record of a schema leads back to itself without a byte being read, and no fixed width
/// is too large, whatever the bytes are.
pub open spec fn is_grounded(s: SchemaShape) -> bool {
    let defined = definitions(s, None);
    &&& forall|d: int|
        0 <= d < defined.len() ==> are_settled(
            defined,
            (#[trigger] defined[d]).fields,
            defined[d].name.namespace,
        )
    &&& widths_fit(s)
}

/// Whether bytes can hold the number of a branch of a union. A number is written in groups of
/// seven bits, the lowest first, and it is twice the number that is written.
pub open spec fn may_take(bytes: Seq<u8>, branch: int) -> bool {
    exists|k: int| 0 <= k < bytes.len() && (#[trigger] bytes[k]) % 128 == (2 * branch) % 128
}

/// Whether bytes can hold the size of an array or a map that is not empty: some group of its bits
/// is not zero.
pub open spec fn may_count(bytes: Seq<u8>) -> bool {
    exists|k: int| 0 <= k < bytes.len() && (#[trigger] bytes[k]) % 128 != 0
}

/// Whether bytes can hold a value of the part at `i`.
pub open spec fn may_enter(h: Holder, i: int, bytes: Seq<u8>) -> bool {
    match h {
        Holder::Union => may_take(bytes, i),
        _ => may_count(bytes),
    }
}

/// Whether all that a value of the schema can lead to, over no more than `hops` references,
/// settles wherever a byte was read, and no fixed width is beyond what can be asked of memory.
/// What the bytes cannot hold is left out.
pub open spec fn is_bounded(
    defined: Seq<Definition>,
    s: SchemaShape,
    enclosing: Option<Seq<char>>,
    hops: nat,
    bytes: Seq<u8>,
) -> bool
    decreases hops, s, 0nat,
{
    match s {
        SchemaShape::Plain | SchemaShape::Loose => true,
        SchemaShape::FixedBytes(_, n) => n <= isize::MAX,
        SchemaShape::Parts(h, ps) => entered_bounded(defined, h, ps, enclosing, hops, bytes),
        SchemaShape::Record(n, fs) => all_bounded(
            defined,
            fs,
            qualified(n, enclosing).namespace,
            hops,
            bytes,
        ),
        SchemaShape::Reference(n) => forall|d: int|
            0 <= d < defined.len() && (#[trigger] defined[d]).name == qualified(n, enclosing)
                && hops > 0 ==> all_bounded(
                defined,
                defined[d].fields,
                defined[d].name.namespace,
                (hops - 1) as nat,
                bytes,
            ),
    }
}

/// Whether the parts that the bytes can hold settle, and [`is_bounded`] holds of them.
pub open spec fn entered_bounded(
    defined: Seq<Definition>,
    h: Holder,
    parts: Seq<SchemaShape>,
    enclosing: Option<Seq<char>>,
    hops: nat,
    bytes: Seq<u8>,
) -> bool
    decreases hops, parts, 1nat,
{
    forall|i: int|
        0 <= i < parts.len() && may_enter(h, i, bytes) ==> settles(
            defined,
            #[trigger] parts[i],
            enclosing,
            defined.len(),
        ) && is_bounded(defined, parts[i], enclosing, hops, bytes)
}

/// Whether several schemas settle, and [`is_bounded`] holds of all of them.
pub open spec fn all_bounded(
    defined: Seq<Definition>,
    parts: Seq<SchemaShape>,
    enclosing: Option<Seq<char>>,
    hops: nat,
    bytes: Seq<u8>,
) -> bool
    decreases hops, parts, 1nat,
{
    forall|i: int|
        0 <= i < parts.len() ==> settles(
            defined,
            #[trigger] parts[i],
            enclosing,
            defined.len(),
        ) && is_bounded(defined, parts[i], enclosing, hops, bytes)
}

/// Whether decoding bytes under a schema comes to an end: no record that they can lead to leads
/// back to itself without a byte being read, and no fixed width is too large. Without a byte
/// being read, a chain of references that ends is no longer than there are definitions, and no
/// longer chain is needed to get anywhere.
///
/// Which branches of unions are taken is told from the numbers that stand anywhere in the bytes:
/// a branch whose number stands elsewhere counts as one that can be taken.
pub open spec fn is_decodable(s: SchemaShape, bytes: Seq<u8>) -> bool {
    let defined = definitions(s, None);
    settles(defined, s, None, defined.len()) && (is_grounded(s) || is_bounded(
        defined,
        s,
        None,
        defined.len(),
        bytes,
    ))
}

/// What is defined in a tree: a record with its fields, or byte strings of a fixed width.
struct Defined<'a> {
    name: TreeName,
    tree: &'a SchemaTree,
}

impl<'a> Defined<'a> {
    spec fn view(&self) -> Definition {
        Definition {
            name: self.name@,
            fields: match self.tree@ {
                SchemaShape::Record(_, fs) => fs,
                whole => seq![whole],
            },
        }
    }
}

spec fn defined_views(defined: Seq<Defined>) -> Seq<Definition> {
    defined.map_values(|d: Defined| d@)
}

fn clone_namespace(n: &Option<String>) -> (r: Option<String>)
    ensures
        namespace_view(r) == namespace_view(*n),
{
    match n {
        Some(n) => Some(n.clone()),
        None => None,
    }
}

fn is_empty(s: &String) -> (r: bool)
    ensures
        r == (s@.len() == 0),
{
    proof {
        reveal_strlit("");
        if s@.len() == 0 {
            assert(s@ =~= ""@);
        }
    }
    same_text(s.as_str(), "")
}

fn qualify(n: &TreeName, enclosing: &Option<String>) -> (r: TreeName)
    ensures
        r@ == qualified(n@, namespace_view(*enclosing)),
{
    if let Some(e) = enclosing {
        if n.namespace.is_none() && !is_empty(e) {
            return TreeName { namespace: Some(e.clone()), name: n.name.clone() };
        }
    }
    TreeName { namespace: clone_namespace(&n.namespace), name: n.name.clone() }
}

fn same_name(a: &TreeName, b: &TreeName) -> (r: bool)
    ensures
        r == (a@ == b@),
{
    let same_namespace: bool = match (&a.namespace, &b.namespace) {
        (Some(m), Some(n)) => same_text(m.as_str(), n.as_str()),
        (None, None) => true,
        _ => false,
    };
    same_namespace && same_text(a.name.as_str(), b.name.as_str())
}

/// Appends what is defined in a tree.
fn collect<'a>(t: &'a SchemaTree, enclosing: &Option<String>, out: &mut Vec<Defined<'a>>)
    ensures
        defined_views(final(out)@) == defined_views(old(out)@) + definitions(
            t@,
            namespace_view(*enclosing),
        ),
    decreases t,
{
    let ghost before = defined_views(out@);
    match t {
        SchemaTree::Parts(h, ps) => {
            proof {
                parts_view(*h, *ps);
            }
            let mut i: usize = 0;
            assert(before + definitions_in(tree_views(ps@), 0, namespace_view(*enclosing))
                =~= before);
            while i < ps.len()
                invariant
                    t matches SchemaTree::Parts(_, parts) && parts == ps,
                    i <= ps@.len(),
                    defined_views(out@) == before + definitions_in(
                        tree_views(ps@),
                        i as nat,
                        namespace_view(*enclosing),
                    ),
                decreases ps@.len() - i,
            {
                let ghost so_far = definitions_in(
                    tree_views(ps@),
                    i as nat,
                    namespace_view(*enclosing),
                );
                collect(&ps[i], enclosing, out);
                assert(before + so_far + definitions(ps@[i as int]@, namespace_view(*enclosing))
                    =~= before + (so_far + definitions(
                    tree_views(ps@)[i as int],
                    namespace_view(*enclosing),
                )));
                i += 1;
            }
        },
        SchemaTree::Record(n, fs) => {
            proof {
                record_view(*n, *fs);
            }
            let name: TreeName = qualify(n, enclosing);
            let namespace: Option<String> = clone_namespace(&name.namespace);
            let ghost own = Definition { name: name@, fields: tree_views(fs@) };
            out.push(Defined { name, tree: t });
            assert(defined_views(out@) =~= before.push(own));
            let mut i: usize = 0;
            assert(before.push(own) + definitions_in(
                tree_views(fs@),
                0,
                namespace_view(namespace),
            ) =~= before.push(own));
            while i < fs.len()
                invariant
                    t matches SchemaTree::Record(_, fields) && fields == fs,
                    i <= fs@.len(),
                    defined_views(out@) == before.push(own) + definitions_in(
                        tree_views(fs@),
                        i as nat,
                        namespace_view(namespace),
                    ),
                decreases fs@.len() - i,
            {
                let ghost so_far = definitions_in(
                    tree_views(fs@),
                    i as nat,
                    namespace_view(namespace),
                );
                collect(&fs[i], &namespace, out);
                assert(before.push(own) + so_far + definitions(
                    fs@[i as int]@,
                    namespace_view(namespace),
                ) =~= before.push(own) + (so_far + definitions(
                    tree_views(fs@)[i as int],
                    namespace_view(namespace),
                )));
                i += 1;
            }
            assert(before.push(own) + definitions_in(
                tree_views(fs@),
                fs@.len(),
                namespace_view(namespace),
            ) =~= before + (seq![own] + definitions_in(
                tree_views(fs@),
                fs@.len(),
                namespace_view(namespace),
            )));
        },
        SchemaTree::FixedBytes(n, _) => {
            let name: TreeName = qualify(n, enclosing);
            let ghost own = Definition { name: name@, fields: seq![t@] };
            out.push(Defined { name, tree: t });
            assert(defined_views(out@) =~= before + seq![own]);
        },
        _ => {
            assert(before + Seq::<Definition>::empty() =~= before);
        },
    }
}

fn tree_takes_byte(t: &SchemaTree) -> (r: bool)
    ensures
        r == takes_byte(t@),
    decreases t,
{
    match t {
        SchemaTree::Plain => true,
        SchemaTree::Loose => false,
        SchemaTree::FixedBytes(_, n) => *n > 0,
        SchemaTree::Parts(h, _) => *h != Holder::Union,
        SchemaTree::Record(n, fs) => {
            proof {
                record_view(*n, *fs);
            }
            let ghost all = tree_views(fs@);
            let mut i: usize = 0;
            while i < fs.len()
                invariant
                    t matches SchemaTree::Record(_, own) && own == fs,
                    t@ == SchemaShape::Record(n@, all),
                    all == tree_views(fs@),
                    i <= fs@.len(),
                    forall|k: int| 0 <= k < i ==> !takes_byte(#[trigger] all[k]),
                decreases fs@.len() - i,
            {
                assert(all[i as int] == fs@[i as int]@);
                if tree_takes_byte(&fs[i]) {
                    return true;
                }
                i += 1;
            }
            false
        },
        SchemaTree::Reference(_) => false,
    }
}

fn tree_settles(
    defined: &Vec<Defined>,
    t: &SchemaTree,
    enclosing: &Option<String>,
    steps: usize,
) -> (r: bool)
    ensures
        r == settles(defined_views(defined@), t@, namespace_view(*enclosing), steps as nat),
    decreases steps, t, 0nat,
{
    match t {
        SchemaTree::Record(n, fs) => {
            proof {
                record_view(*n, *fs);
            }
            let name: TreeName = qualify(n, enclosing);
            trees_settle(defined, fs, &name.namespace, steps)
        },
        SchemaTree::Reference(n) => {
            let name: TreeName = qualify(n, enclosing);
            let ghost all = defined_views(defined@);
            let mut i: usize = 0;
            while i < defined.len()
                invariant
                    all == defined_views(defined@),
                    t@ == SchemaShape::Reference(n@),
                    name@ == qualified(n@, namespace_view(*enclosing)),
                    i <= defined@.len(),
                    forall|d: int|
                        0 <= d < i && (#[trigger] all[d]).name == name@ ==> steps > 0
                            && all_settle(
                            all,
                            all[d].fields,
                            all[d].name.namespace,
                            (steps - 1) as nat,
                        ),
                decreases defined@.len() - i,
            {
                assert(all[i as int] == defined@[i as int]@);
                if same_name(&defined[i].name, &name) {
                    if steps == 0 {
                        return false;
                    }
                    if !definition_settles(defined, &defined[i], steps - 1) {
                        return false;
                    }
                }
                i += 1;
            }
            true
        },
        _ => true,
    }
}

fn definition_settles(defined: &Vec<Defined>, d: &Defined, steps: usize) -> (r: bool)
    ensures
        r == all_settle(
            defined_views(defined@),
            d@.fields,
            d@.name.namespace,
            steps as nat,
        ),
    decreases steps, d.tree, 2nat,
{
    match d.tree {
        SchemaTree::Record(n, fs) => {
            proof {
                record_view(*n, *fs);
            }
            trees_settle(defined, fs, &d.name.namespace, steps)
        },
        t => {
            assert(d@.fields[0] == t@);
            assert(!is_behind_byte(d@.fields, 0));
            tree_settles(defined, t, &d.name.namespace, steps)
        },
    }
}

fn trees_settle(
    defined: &Vec<Defined>,
    parts: &Vec<SchemaTree>,
    enclosing: &Option<String>,
    steps: usize,
) -> (r: bool)
    ensures
        r == all_settle(
            defined_views(defined@),
            tree_views(parts@),
            namespace_view(*enclosing),
            steps as nat,
        ),
    decreases steps, parts, 1nat,
{
    let ghost all = tree_views(parts@);
    let mut i: usize = 0;
    while i < parts.len()
        invariant
            all == tree_views(parts@),
            i <= parts@.len(),
            !is_behind_byte(all, i as int),
            forall|k: int|
                0 <= k < i ==> settles(
                    defined_views(defined@),
                    #[trigger] all[k],
                    namespace_view(*enclosing),
                    steps as nat,
                ),
        decreases parts@.len() - i,
    {
        assert(all[i as int] == parts@[i as int]@);
        if !tree_settles(defined, &parts[i], enclosing, steps) {
            return false;
        }
        if tree_takes_byte(&parts[i]) {
            assert(forall|k: int| i < k < all.len() ==> is_behind_byte(all, k));
            return true;
        }
        i += 1;
    }
    true
}

fn tree_widths_fit(t: &SchemaTree) -> (r: bool)
    ensures
        r == widths_fit(t@),
    decreases t, 0nat,
{
    match t {
        SchemaTree::FixedBytes(_, n) => *n <= isize::MAX as usize,
        SchemaTree::Parts(h, ps) => {
            proof {
                parts_view(*h, *ps);
            }
            trees_widths_fit(ps)
        },
        SchemaTree::Record(n, fs) => {
            proof {
                record_view(*n, *fs);
            }
            trees_widths_fit(fs)
        },
        _ => true,
    }
}

fn trees_widths_fit(parts: &Vec<SchemaTree>) -> (r: bool)
    ensures
        r == all_widths_fit(tree_views(parts@)),
    decreases parts, 1nat,
{
    let ghost all = tree_views(parts@);
    let mut i: usize = 0;
    while i < parts.len()
        invariant
            all == tree_views(parts@),
            i <= parts@.len(),
            forall|k: int| 0 <= k < i ==> widths_fit(#[trigger] all[k]),
        decreases parts@.len() - i,
    {
        assert(all[i as int] == parts@[i as int]@);
        if !tree_widths_fit(&parts[i]) {
            return false;
        }
        i += 1;
    }
    true
}

fn trees_settled(
    defined: &Vec<Defined>,
    parts: &Vec<SchemaTree>,
    enclosing: &Option<String>,
) -> (r: bool)
    ensures
        r == are_settled(
            defined_views(defined@),
            tree_views(parts@),
            namespace_view(*enclosing),
        ),
{
    let ghost all = tree_views(parts@);
    let steps: usize = defined.len();
    let mut i: usize = 0;
    while i < parts.len()
        invariant
            all == tree_views(parts@),
            steps == defined@.len(),
            i <= parts@.len(),
            forall|k: int|
                0 <= k < i ==> settles(
                    defined_views(defined@),
                    #[trigger] all[k],
                    namespace_view(*enclosing),
                    defined@.len(),
                ),
        decreases parts@.len() - i,
    {
        assert(all[i as int] == parts@[i as int]@);
        if !tree_settles(defined, &parts[i], enclosing, steps) {
            return false;
        }
        i += 1;
    }
    true
}

/// Whether decoding comes to an end whatever the bytes are.
fn tree_grounded(defined: &Vec<Defined>, tree: &SchemaTree) -> (r: bool)
    requires
        defined_views(defined@) == definitions(tree@, None),
    ensures
        r == is_grounded(tree@),
{
    let ghost all = defined_views(defined@);
    let mut i: usize = 0;
    while i < defined.len()
        invariant
            all == defined_views(defined@),
            all == definitions(tree@, None),
            i <= defined@.len(),
            forall|d: int|
                0 <= d < i ==> are_settled(all, (#[trigger] all[d]).fields, all[d].name.namespace),
        decreases defined@.len() - i,
    {
        assert(all[i as int] == defined@[i as int]@);
        let settled: bool = match defined[i].tree {
            SchemaTree::Record(n, fs) => {
                proof {
                    record_view(*n, *fs);
                }
                trees_settled(defined, fs, &defined[i].name.namespace)
            },
            t => {
                let steps: usize = defined.len();
                assert(all[i as int].fields[0] == t@);
                tree_settles(defined, t, &defined[i].name.namespace, steps)
            },
        };
        if !settled {
            return false;
        }
        i += 1;
    }
    tree_widths_fit(tree)
}

fn holds_branch(bytes: &[u8], branch: usize) -> (r: bool)
    ensures
        r == may_take(bytes@, branch as int),
{
    let low: u8 = (branch % 64) as u8;
    assert((2 * branch) % 128 == 2 * low);
    let mut k: usize = 0;
    while k < bytes.len()
        invariant
            (2 * branch) % 128 == 2 * low,
            low < 64,
            k <= bytes@.len(),
            forall|j: int| 0 <= j < k ==> (#[trigger] bytes@[j]) % 128 != (2 * branch) % 128,
        decreases bytes@.len() - k,
    {
        if bytes[k] % 128 == 2 * low {
            assert(bytes@[k as int] % 128 == (2 * branch) % 128);
            return true;
        }
        k += 1;
    }
    false
}

fn holds_count(bytes: &[u8]) -> (r: bool)
    ensures
        r == may_count(bytes@),
{
    let mut k: usize = 0;
    while k < bytes.len()
        invariant
            k <= bytes@.len(),
            forall|j: int| 0 <= j < k ==> (#[trigger] bytes@[j]) % 128 == 0,
        decreases bytes@.len() - k,
    {
        if bytes[k] % 128 != 0 {
            assert(bytes@[k as int] % 128 != 0);
            return true;
        }
        k += 1;
    }
    false
}

fn tree_bounded(
    defined: &Vec<Defined>,
    t: &SchemaTree,
    enclosing: &Option<String>,
    hops: usize,
    bytes: &[u8],
) -> (r: bool)
    ensures
        r == is_bounded(
            defined_views(defined@),
            t@,
            namespace_view(*enclosing),
            hops as nat,
            bytes@,
        ),
    decreases hops, t, 0nat,
{
    let ghost all = defined_views(defined@);
    match t {
        SchemaTree::Plain | SchemaTree::Loose => true,
        SchemaTree::FixedBytes(_, n) => *n <= isize::MAX as usize,
        SchemaTree::Parts(h, ps) => {
            proof {
                parts_view(*h, *ps);
            }
            let ghost parts = tree_views(ps@);
            let mut i: usize = 0;
            while i < ps.len()
                invariant
                    t matches SchemaTree::Parts(_, own) && own == ps,
                    t@ == SchemaShape::Parts(*h, parts),
                    parts == tree_views(ps@),
                    all == defined_views(defined@),
                    i <= ps@.len(),
                    forall|k: int|
                        0 <= k < i && may_enter(*h, k, bytes@) ==> settles(
                            all,
                            #[trigger] parts[k],
                            namespace_view(*enclosing),
                            all.len(),
                        ) && is_bounded(
                            all,
                            parts[k],
                            namespace_view(*enclosing),
                            hops as nat,
                            bytes@,
                        ),
                decreases ps@.len() - i,
            {
                assert(parts[i as int] == ps@[i as int]@);
                let entered: bool = match h {
                    Holder::Union => holds_branch(bytes, i),
                    _ => holds_count(bytes),
                };
                if entered {
                    let steps: usize = defined.len();
                    if !tree_settles(defined, &ps[i], enclosing, steps) {
                        return false;
                    }
                    if !tree_bounded(defined, &ps[i], enclosing, hops, bytes) {
                        return false;
                    }
                }
                i += 1;
            }
            true
        },
        SchemaTree::Record(n, fs) => {
            proof {
                record_view(*n, *fs);
            }
            let name: TreeName = qualify(n, enclosing);
            trees_bounded(defined, fs, &name.namespace, hops, bytes)
        },
        SchemaTree::Reference(n) => {
            let name: TreeName = qualify(n, enclosing);
            if hops == 0 {
                return true;
            }
            let mut i: usize = 0;
            while i < defined.len()
                invariant
                    hops > 0,
                    all == defined_views(defined@),
                    t@ == SchemaShape::Reference(n@),
                    name@ == qualified(n@, namespace_view(*enclosing)),
                    i <= defined@.len(),
                    forall|d: int|
                        0 <= d < i && (#[trigger] all[d]).name == name@ ==> all_bounded(
                            all,
                            all[d].fields,
                            all[d].name.namespace,
                            (hops - 1) as nat,
                            bytes@,
                        ),
                decreases defined@.len() - i,
            {
                assert(all[i as int] == defined@[i as int]@);
                if same_name(&defined[i].name, &name) {
                    if !definition_bounded(defined, &defined[i], hops - 1, bytes) {
                        return false;
                    }
                }
                i += 1;
            }
            true
        },
    }
}

fn definition_bounded(
    defined: &Vec<Defined>,
    d: &Defined,
    hops: usize,
    bytes: &[u8],
) -> (r: bool)
    ensures
        r == all_bounded(
            defined_views(defined@),
            d@.fields,
            d@.name.namespace,
            hops as nat,
            bytes@,
        ),
    decreases hops, d.tree, 2nat,
{
    match d.tree {
        SchemaTree::Record(n, fs) => {
            proof {
                record_view(*n, *fs);
            }
            trees_bounded(defined, fs, &d.name.namespace, hops, bytes)
        },
        t => {
            assert(d@.fields[0] == t@);
            let steps: usize = defined.len();
            tree_settles(defined, t, &d.name.namespace, steps) && tree_bounded(
                defined,
                t,
                &d.name.namespace,
                hops,
                bytes,
            )
        },
    }
}

fn trees_bounded(
    defined: &Vec<Defined>,
    parts: &Vec<SchemaTree>,
    enclosing: &Option<String>,
    hops: usize,
    bytes: &[u8],
) -> (r: bool)
    ensures
        r == all_bounded(
            defined_views(defined@),
            tree_views(parts@),
            namespace_view(*enclosing),
            hops as nat,
            bytes@,
        ),
    decreases hops, parts, 1nat,
{
    let ghost all = tree_views(parts@);
    let mut i: usize = 0;
    while i < parts.len()
        invariant
            all == tree_views(parts@),
            i <= parts@.len(),
            forall|k: int|
                0 <= k < i ==> settles(
                    defined_views(defined@),
                    #[trigger] all[k],
                    namespace_view(*enclosing),
                    defined@.len(),
                ) && is_bounded(
                    defined_views(defined@),
                    all[k],
                    namespace_view(*enclosing),
                    hops as nat,
                    bytes@,
                ),
        decreases parts@.len() - i,
    {
        assert(all[i as int] == parts@[i as int]@);
        let steps: usize = defined.len();
        if !tree_settles(defined, &parts[i], enclosing, steps) {
            return false;
        }
        if !tree_bounded(defined, &parts[i], enclosing, hops, bytes) {
            return false;
        }
        i += 1;
    }
    true
}

/// Whether decoding bytes under a schema comes to an end, as [`is_decodable`] tells it.
pub fn can_decode(schema: &apache_avro::Schema, bytes: &[u8]) -> (r: bool)
    ensures
        r == is_decodable(schema_shape(*schema), bytes@),
{
    let tree: SchemaTree = tree_of(schema);
    let mut defined: Vec<Defined> = Vec::new();
    assert(defined_views(defined@) =~= Seq::empty());
    collect(&tree, &None, &mut defined);
    let ghost all = defined_views(defined@);
    assert(all =~= definitions(tree@, None));
    let most: usize = defined.len();
    tree_settles(&defined, &tree, &None, most) && (tree_grounded(&defined, &tree) || tree_bounded(
        &defined,
        &tree,
        &None,
        most,
        bytes,
    ))
}

/// Whether a schema refers to no other: every part of it stands where it is used.
pub open spec fn is_spelt_out(s: SchemaShape) -> bool
    decreases s,
{
    match s {
        SchemaShape::Parts(_, ps) => all_spelt_out(ps),
        SchemaShape::Record(_, fs) => all_spelt_out(fs),
        SchemaShape::Reference(_) => false,
        _ => true,
    }
}

/// Whether [`is_spelt_out`] holds of several schemas.
pub open spec fn all_spelt_out(parts: Seq<SchemaShape>) -> bool
    decreases parts,
{
    forall|i: int| 0 <= i < parts.len() ==> is_spelt_out(#[trigger] parts[i])
}

/// Decoding comes to an end under every schema that refers to no other, whatever the bytes are, if
/// its fixed widths are within what can be asked of memory.
pub proof fn spelt_out_schemas_are_decodable(s: SchemaShape, bytes: Seq<u8>)
    requires
        is_spelt_out(s),
        widths_fit(s),
    ensures
        is_decodable(s, bytes),
{
    let defined = definitions(s, None);
    spelt_out_settles(defined, s, None, defined.len());
    spelt_out_is_bounded(defined, s, None, defined.len(), bytes);
}

proof fn spelt_out_settles(
    defined: Seq<Definition>,
    s: SchemaShape,
    enclosing: Option<Seq<char>>,
    steps: nat,
)
    requires
        is_spelt_out(s),
    ensures
        settles(defined, s, enclosing, steps),
    decreases s,
{
    if let SchemaShape::Record(n, fs) = s {
        let inside = qualified(n, enclosing).namespace;
        assert forall|i: int| 0 <= i < fs.len() && !is_behind_byte(fs, i) implies settles(
            defined,
            #[trigger] fs[i],
            inside,
            steps,
        ) by {
            assert(is_spelt_out(fs[i]));
            part_is_smaller(s, fs, i);
            spelt_out_settles(defined, fs[i], inside, steps);
        }
        assert(all_settle(defined, fs, inside, steps));
    }
}

proof fn spelt_out_is_bounded(
    defined: Seq<Definition>,
    s: SchemaShape,
    enclosing: Option<Seq<char>>,
    hops: nat,
    bytes: Seq<u8>,
)
    requires
        is_spelt_out(s),
        widths_fit(s),
    ensures
        is_bounded(defined, s, enclosing, hops, bytes),
    decreases s,
{
    match s {
        SchemaShape::Parts(h, ps) => {
            assert forall|i: int| 0 <= i < ps.len() && may_enter(h, i, bytes) implies settles(
                defined,
                #[trigger] ps[i],
                enclosing,
                defined.len(),
            ) && is_bounded(defined, ps[i], enclosing, hops, bytes) by {
                assert(is_spelt_out(ps[i]) && widths_fit(ps[i]));
                part_is_smaller(s, ps, i);
                spelt_out_settles(defined, ps[i], enclosing, defined.len());
                spelt_out_is_bounded(defined, ps[i], enclosing, hops, bytes);
            }
            assert(entered_bounded(defined, h, ps, enclosing, hops, bytes));
        },
        SchemaShape::Record(n, fs) => {
            let inside = qualified(n, enclosing).namespace;
            assert forall|i: int| 0 <= i < fs.len() implies settles(
                defined,
                #[trigger] fs[i],
                inside,
                defined.len(),
            ) && is_bounded(defined, fs[i], inside, hops, bytes) by {
                assert(is_spelt_out(fs[i]) && widths_fit(fs[i]));
                part_is_smaller(s, fs, i);
                spelt_out_settles(defined, fs[i], inside, defined.len());
                spelt_out_is_bounded(defined, fs[i], inside, hops, bytes);
            }
            assert(all_bounded(defined, fs, inside, hops, bytes));
        },
        _ => {},
    }
}

/// Whether a schema refers to others only in unions, arrays and maps, not in fields of records.
pub open spec fn refers_in_holders(s: SchemaShape) -> bool
    decreases s,
{
    match s {
        SchemaShape::Parts(_, ps) => are_held(ps),
        SchemaShape::Record(_, fs) => all_refer_in_holders(fs),
        SchemaShape::Reference(_) => false,
        _ => true,
    }
}

/// Whether [`refers_in_holders`] holds of several schemas.
pub open spec fn all_refer_in_holders(parts: Seq<SchemaShape>) -> bool
    decreases parts,
{
    forall|i: int| 0 <= i < parts.len() ==> refers_in_holders(#[trigger] parts[i])
}

/// Whether the parts of a union, array or map are references, or [`refers_in_holders`] holds of
/// them.
pub open spec fn are_held(parts: Seq<SchemaShape>) -> bool
    decreases parts,
{
    forall|i: int|
        0 <= i < parts.len() ==> #[trigger] parts[i] is Reference || refers_in_holders(parts[i])
}

/// Decoding comes to an end under every schema whose records lead back to themselves in unions,
/// arrays and maps only, as those of lists and trees do, whatever the bytes are.
pub proof fn lists_and_trees_are_decodable(s: SchemaShape, bytes: Seq<u8>)
    requires
        refers_in_holders(s),
        widths_fit(s),
    ensures
        is_decodable(s, bytes),
{
    let defined = definitions(s, None);
    holders_settle(defined, s, None, defined.len());
    definitions_refer_in_holders(s, None);
    assert forall|d: int| 0 <= d < defined.len() implies are_settled(
        defined,
        (#[trigger] defined[d]).fields,
        defined[d].name.namespace,
    ) by {
        let fields = defined[d].fields;
        assert forall|i: int| 0 <= i < fields.len() implies settles(
            defined,
            #[trigger] fields[i],
            defined[d].name.namespace,
            defined.len(),
        ) by {
            holders_settle(defined, fields[i], defined[d].name.namespace, defined.len());
        }
    }
    assert(is_grounded(s));
}

proof fn holders_settle(
    defined: Seq<Definition>,
    s: SchemaShape,
    enclosing: Option<Seq<char>>,
    steps: nat,
)
    requires
        refers_in_holders(s),
    ensures
        settles(defined, s, enclosing, steps),
    decreases s,
{
    if let SchemaShape::Record(n, fs) = s {
        let inside = qualified(n, enclosing).namespace;
        assert forall|i: int| 0 <= i < fs.len() && !is_behind_byte(fs, i) implies settles(
            defined,
            #[trigger] fs[i],
            inside,
            steps,
        ) by {
            assert(refers_in_holders(fs[i]));
            part_is_smaller(s, fs, i);
            holders_settle(defined, fs[i], inside, steps);
        }
        assert(all_settle(defined, fs, inside, steps));
    }
}

proof fn definitions_refer_in_holders(s: SchemaShape, enclosing: Option<Seq<char>>)
    requires
        refers_in_holders(s) || s is Reference,
    ensures
        forall|d: int|
            0 <= d < definitions(s, enclosing).len() ==> all_refer_in_holders(
                (#[trigger] definitions(s, enclosing)[d]).fields,
            ),
    decreases s, 0nat,
{
    match s {
        SchemaShape::Parts(_, ps) => {
            assert(decreases_to!(s => ps));
            definitions_of_parts(ps, ps.len(), enclosing);
        },
        SchemaShape::Record(n, fs) => {
            assert(decreases_to!(s => fs));
            let name = qualified(n, enclosing);
            assert forall|i: int| 0 <= i < fs.len() implies #[trigger] fs[i] is Reference
                || refers_in_holders(fs[i]) by {
                assert(refers_in_holders(fs[i]));
            }
            assert(are_held(fs));
            definitions_of_parts(fs, fs.len(), name.namespace);
            let inner = definitions_in(fs, fs.len(), name.namespace);
            let all = definitions(s, enclosing);
            assert forall|d: int| 0 <= d < all.len() implies all_refer_in_holders(
                (#[trigger] all[d]).fields,
            ) by {
                if d > 0 {
                    assert(all[d] == inner[d - 1]);
                }
            }
        },
        SchemaShape::FixedBytes(n, _) => {
            let own = seq![s];
            assert forall|i: int| 0 <= i < own.len() implies refers_in_holders(
                #[trigger] own[i],
            ) by {}
            assert(all_refer_in_holders(own));
        },
        _ => {},
    }
}

proof fn definitions_of_parts(parts: Seq<SchemaShape>, n: nat, enclosing: Option<Seq<char>>)
    requires
        n <= parts.len(),
        are_held(parts),
    ensures
        forall|d: int|
            0 <= d < definitions_in(parts, n, enclosing).len() ==> all_refer_in_holders(
                (#[trigger] definitions_in(parts, n, enclosing)[d]).fields,
            ),
    decreases parts, n,
{
    if n > 0 {
        definitions_of_parts(parts, (n - 1) as nat, enclosing);
        assert(decreases_to!(parts => parts[n - 1]));
        assert(parts[n - 1] is Reference || refers_in_holders(parts[n - 1]));
        definitions_refer_in_holders(parts[n - 1], enclosing);
        let before = definitions_in(parts, (n - 1) as nat, enclosing);
        let last = definitions(parts[n - 1], enclosing);
        let all = definitions_in(parts, n, enclosing);
        assert forall|d: int| 0 <= d < all.len() implies all_refer_in_holders(
            (#[trigger] all[d]).fields,
        ) by {
            if d < before.len() {
                assert(all[d] == before[d]);
            } else {
                assert(all[d] == last[d - before.len()]);
            }
        }
    }
}

/// A record that holds itself has no end, whatever the bytes are.
pub proof fn record_in_itself_has_no_end(n: SchemaName, bytes: Seq<u8>)
    ensures
        !is_decodable(SchemaShape::Record(n, seq![SchemaShape::Reference(n)]), bytes),
{
    let own = SchemaShape::Reference(n);
    let fields = seq![own];
    let s = SchemaShape::Record(n, fields);
    let defined = definitions(s, None);
    let name = qualified(n, None);
    assert(definitions(own, name.namespace).len() == 0);
    assert(definitions_in(fields, 0, name.namespace).len() == 0);
    assert(definitions_in(fields, 1, name.namespace).len() == 0);
    assert(defined =~= seq![Definition { name, fields }]);
    assert(defined[0].name == qualified(n, name.namespace));
    assert(!is_behind_byte(fields, 0));
    assert(fields[0] == own);
    assert(!settles(defined, own, name.namespace, 0));
    assert(!all_settle(defined, fields, name.namespace, 0));
    assert(!settles(defined, own, name.namespace, 1));
    assert(!all_settle(defined, fields, name.namespace, 1));
}

} // verus!
