//! Key generators: how a table derives partition paths, and which columns it is partitioned by.

use vstd::prelude::*;
use vstd::utf8::is_ascii_chars;
use crate::config::{HudiConfigs, HudiTableConfig};
use crate::error::CoreError;
use crate::expr::Filter;
use crate::text::{
    ascii_upper, contains, has_substring, has_suffix, is_white_space, joined, joined_then_split,
    same_text, split_on, split_once, split_text, text_views, to_uppercase, trim, trimmed,
    trimming_takes_white_space_off, uppercase,
};

verus! {

/// The kind of key generator that a table is configured with.
///
/// It comes from `hoodie.table.keygenerator.type` or, failing that, from the Java class name in
/// `hoodie.table.keygenerator.class`. The Avro variants are of the same kinds as the others.
#[derive(Debug, Clone, Copy, PartialEq, Eq, Structural)]
pub enum KeyGeneratorType {
    /// One record key field, one partition field.
    Simple,
    /// Several record key or partition fields.
    Complex,
    /// The partition path is a formatted timestamp.
    Timestamp,
    /// A type for each partition field, for instance `field1:SIMPLE,field2:TIMESTAMP`.
    Custom,
    /// No partition fields.
    NonPartition,
    /// Global deletes, by record key alone.
    GlobalDelete,
}

/// The kind with the given upper-case name.
pub open spec fn type_named(name: Seq<char>) -> Option<KeyGeneratorType> {
    if name == "SIMPLE"@ || name == "SIMPLE_AVRO"@ {
        Some(KeyGeneratorType::Simple)
    } else if name == "COMPLEX"@ || name == "COMPLEX_AVRO"@ {
        Some(KeyGeneratorType::Complex)
    } else if name == "TIMESTAMP"@ || name == "TIMESTAMP_AVRO"@ {
        Some(KeyGeneratorType::Timestamp)
    } else if name == "CUSTOM"@ || name == "CUSTOM_AVRO"@ {
        Some(KeyGeneratorType::Custom)
    } else if name == "NON_PARTITION"@ || name == "NON_PARTITION_AVRO"@ {
        Some(KeyGeneratorType::NonPartition)
    } else if name == "GLOBAL_DELETE"@ || name == "GLOBAL_DELETE_AVRO"@ {
        Some(KeyGeneratorType::GlobalDelete)
    } else {
        None
    }
}

/// The kind that a `hoodie.table.keygenerator.type` value names: white space around it and the
/// case of its letters make no difference.
pub open spec fn type_of(s: Seq<char>) -> Option<KeyGeneratorType> {
    type_named(uppercase(trimmed(s).map_values(|c: char| ascii_upper(c))))
}

/// What [`type_of`] is of ASCII text.
pub open spec fn ascii_type_of(s: Seq<char>) -> Option<KeyGeneratorType> {
    type_named(trimmed(s).map_values(|c: char| ascii_upper(c)))
}

/// The kind that a Java class name stands for, by the most specific word in it.
pub open spec fn type_of_class(s: Seq<char>) -> Option<KeyGeneratorType> {
    if has_substring(s, "Nonpartitioned"@) {
        Some(KeyGeneratorType::NonPartition)
    } else if has_substring(s, "GlobalDelete"@) {
        Some(KeyGeneratorType::GlobalDelete)
    } else if has_substring(s, "TimestampBased"@) {
        Some(KeyGeneratorType::Timestamp)
    } else if has_substring(s, "Complex"@) {
        Some(KeyGeneratorType::Complex)
    } else if has_substring(s, "Custom"@) {
        Some(KeyGeneratorType::Custom)
    } else if has_substring(s, "Simple"@) {
        Some(KeyGeneratorType::Simple)
    } else {
        None
    }
}

/// The kind that the options of a table set: by the type, or else by the class name.
pub open spec fn resolved_type(configs: HudiConfigs) -> Option<KeyGeneratorType> {
    let by_type = match configs.value_of(HudiTableConfig::KeyGeneratorType) {
        Some(v) => type_of(v),
        None => None,
    };
    let by_class = match configs.value_of(HudiTableConfig::KeyGeneratorClass) {
        Some(v) => type_of_class(v),
        None => None,
    };
    if by_type is Some {
        by_type
    } else {
        by_class
    }
}

/// Trimming keeps nothing but characters of the text.
proof fn trimmed_within(s: Seq<char>)
    ensures
        is_ascii_chars(s) ==> is_ascii_chars(trimmed(s)),
    decreases s.len(),
{
    if s.len() > 0 && is_white_space(s[0]) {
        trimmed_within(s.drop_first());
        assert(is_ascii_chars(s) ==> is_ascii_chars(s.drop_first()));
    } else if s.len() > 0 && is_white_space(s.last()) {
        trimmed_within(s.drop_last());
        assert(is_ascii_chars(s) ==> is_ascii_chars(s.drop_last()));
    }
}

impl KeyGeneratorType {
    /// The kind with the given upper-case name.
    pub fn from_upper_name(name: &str) -> (r: Option<KeyGeneratorType>)
        ensures
            r == type_named(name@),
    {
        if same_text(name, "SIMPLE") || same_text(name, "SIMPLE_AVRO") {
            Some(KeyGeneratorType::Simple)
        } else if same_text(name, "COMPLEX") || same_text(name, "COMPLEX_AVRO") {
            Some(KeyGeneratorType::Complex)
        } else if same_text(name, "TIMESTAMP") || same_text(name, "TIMESTAMP_AVRO") {
            Some(KeyGeneratorType::Timestamp)
        } else if same_text(name, "CUSTOM") || same_text(name, "CUSTOM_AVRO") {
            Some(KeyGeneratorType::Custom)
        } else if same_text(name, "NON_PARTITION") || same_text(name, "NON_PARTITION_AVRO") {
            Some(KeyGeneratorType::NonPartition)
        } else if same_text(name, "GLOBAL_DELETE") || same_text(name, "GLOBAL_DELETE_AVRO") {
            Some(KeyGeneratorType::GlobalDelete)
        } else {
            None
        }
    }

    /// The kind that a `hoodie.table.keygenerator.type` value names, in any case.
    pub fn from_type_str(s: &str) -> (r: Option<KeyGeneratorType>)
        ensures
            r == type_of(s@),
            is_ascii_chars(s@) ==> r == ascii_type_of(s@),
    {
        proof {
            trimmed_within(s@);
        }
        let upper: String = to_uppercase(trim(s));
        Self::from_upper_name(upper.as_str())
    }

    /// The kind that a `hoodie.table.keygenerator.class` value stands for. The most specific
    /// words come first, so that `NonpartitionedKeyGenerator` is not taken for another kind.
    pub fn from_class_name(s: &str) -> (r: Option<KeyGeneratorType>)
        ensures
            r == type_of_class(s@),
    {
        if contains(s, "Nonpartitioned") {
            Some(KeyGeneratorType::NonPartition)
        } else if contains(s, "GlobalDelete") {
            Some(KeyGeneratorType::GlobalDelete)
        } else if contains(s, "TimestampBased") {
            Some(KeyGeneratorType::Timestamp)
        } else if contains(s, "Complex") {
            Some(KeyGeneratorType::Complex)
        } else if contains(s, "Custom") {
            Some(KeyGeneratorType::Custom)
        } else if contains(s, "Simple") {
            Some(KeyGeneratorType::Simple)
        } else {
            None
        }
    }

    /// The kind that the table options set: the type is preferred, the class name comes second.
    /// `None` where neither is set or recognised.
    pub fn resolve(hudi_configs: &HudiConfigs) -> (r: Result<Option<KeyGeneratorType>, CoreError>)
        ensures
            r == Ok::<_, CoreError>(resolved_type(*hudi_configs)),
    {
        if let Some(v) = hudi_configs.get(HudiTableConfig::KeyGeneratorType) {
            if let Some(t) = Self::from_type_str(v.as_str()) {
                return Ok(Some(t));
            }
        }
        if let Some(v) = hudi_configs.get(HudiTableConfig::KeyGeneratorClass) {
            if let Some(t) = Self::from_class_name(v.as_str()) {
                return Ok(Some(t));
            }
        }
        Ok(None)
    }
}

/// The column of a partition field spec: what stands before the first colon, without white
/// space around it.
pub open spec fn spec_column(spec_text: Seq<char>) -> Seq<char> {
    if spec_text.contains(':') {
        trimmed(spec_text.take(spec_text.index_of_first(':')->0))
    } else {
        trimmed(spec_text)
    }
}

/// The type of a partition field spec: what stands behind the first colon names it.
pub open spec fn spec_type(spec_text: Seq<char>) -> Option<KeyGeneratorType> {
    if spec_text.contains(':') {
        type_of(spec_text.skip(spec_text.index_of_first(':')->0 + 1))
    } else {
        None
    }
}

/// A text with a separator between a part without it and another part is split there.
proof fn first_colon(before: Seq<char>, after: Seq<char>)
    requires
        !before.contains(':'),
    ensures
        (before.push(':') + after).contains(':'),
        (before.push(':') + after).index_of_first(':') == Some(before.len() as int),
        (before.push(':') + after).take(before.len() as int) == before,
        (before.push(':') + after).skip(before.len() as int + 1) == after,
{
    let s = before.push(':') + after;
    assert(s[before.len() as int] == ':');
    assert(s.contains(':'));
    s.index_of_first_ensures(':');
    let i = s.index_of_first(':')->0;
    if i < before.len() {
        assert(before[i] == ':');
    }
    assert(s.take(before.len() as int) =~= before);
    assert(s.skip(before.len() as int + 1) =~= after);
}

/// Splits a partition field spec into its column and the type behind the colon, if any.
///
/// The custom key generator writes `field:TYPE`, for instance `ts:TIMESTAMP`; the others write
/// the bare column name.
pub fn parse_partition_field_spec(spec_text: &str) -> (r: (&str, Option<KeyGeneratorType>))
    ensures
        r.0@ == spec_column(spec_text@),
        r.1 == spec_type(spec_text@),
{
    match split_once(spec_text, ':') {
        Some((field, type_str)) => {
            proof {
                first_colon(field@, type_str@);
            }
            (trim(field), KeyGeneratorType::from_type_str(type_str))
        },
        None => (trim(spec_text), None),
    }
}

/// The partition columns that the options of a table declare.
pub open spec fn declared_columns(configs: HudiConfigs) -> Seq<Seq<char>> {
    match configs.value_of(HudiTableConfig::PartitionFields) {
        Some(v) => split_on(v, ',').map_values(|s: Seq<char>| spec_column(s)),
        None => Seq::empty(),
    }
}

/// The partition columns that `hoodie.table.partition.fields` declares, without the types that
/// a custom key generator adds to them.
pub fn partition_column_names(hudi_configs: &HudiConfigs) -> (r: Vec<String>)
    ensures
        text_views(r@) == declared_columns(*hudi_configs),
{
    let mut names: Vec<String> = Vec::new();
    let specs: Vec<String> = match hudi_configs.get(HudiTableConfig::PartitionFields) {
        Some(v) => split_text(v.as_str(), ','),
        None => {
            assert(text_views(names@) =~= Seq::empty());
            return names;
        },
    };
    let mut i: usize = 0;
    while i < specs.len()
        invariant
            i <= specs@.len(),
            names@.len() == i,
            forall|k: int| 0 <= k < i ==> (#[trigger] names@[k])@ == spec_column(specs@[k]@),
        decreases specs@.len() - i,
    {
        names.push(parse_partition_field_spec(specs[i].as_str()).0.to_owned());
        i += 1;
    }
    assert(text_views(names@) =~= text_views(specs@).map_values(|s: Seq<char>| spec_column(s)));
    names
}

/// Whether the whole partition path is a formatted timestamp. A custom key generator with a
/// timestamp field among others is not meant.
pub fn is_timestamp_based_keygen(hudi_configs: &HudiConfigs) -> (r: Result<bool, CoreError>)
    ensures
        r == Ok::<_, CoreError>(resolved_type(*hudi_configs) == Some(KeyGeneratorType::Timestamp)),
{
    match KeyGeneratorType::resolve(hudi_configs) {
        Ok(Some(KeyGeneratorType::Timestamp)) => Ok(true),
        Ok(_) => Ok(false),
        Err(e) => Err(e),
    }
}

/// A key generator that turns filters on data columns into filters on partition columns.
pub trait KeyGeneratorFilterTransformer {
    /// The data column that the key generator works on.
    fn source_field(&self) -> &str;

    /// Turns a filter on the source column into filters on partition columns.
    fn transform_filter(&self, filter: &Filter) -> Result<Vec<Filter>, CoreError>;
}

/// The case of the letters `a` to `z`, and white space around them, make no difference to the
/// kind that a text names, whatever other characters it holds.
pub proof fn type_ignores_case(a: Seq<char>, b: Seq<char>)
    requires
        trimmed(a).map_values(|c: char| ascii_upper(c)) == trimmed(b).map_values(
            |c: char| ascii_upper(c),
        ),
    ensures
        type_of(a) == type_of(b),
        ascii_type_of(a) == ascii_type_of(b),
{
}

/// Texts that are the same but for the case of those letters name the same kind.
pub proof fn same_text_in_any_case(a: Seq<char>, b: Seq<char>)
    requires
        a.map_values(|c: char| ascii_upper(c)) == b.map_values(|c: char| ascii_upper(c)),
    ensures
        type_of(a) == type_of(b),
        ascii_type_of(a) == ascii_type_of(b),
{
    trimmed_upper(a);
    trimmed_upper(b);
}

proof fn trimmed_upper(s: Seq<char>)
    ensures
        trimmed(s).map_values(|c: char| ascii_upper(c)) == trimmed(
            s.map_values(|c: char| ascii_upper(c)),
        ),
    decreases s.len(),
{
    let f = |c: char| ascii_upper(c);
    let up = s.map_values(f);
    if s.len() > 0 {
        assert(up[0] == ascii_upper(s[0]));
        assert(up.last() == ascii_upper(s.last()));
        assert(is_white_space(up[0]) == is_white_space(s[0]));
        assert(is_white_space(up.last()) == is_white_space(s.last()));
        if is_white_space(s[0]) {
            trimmed_upper(s.drop_first());
            assert(s.drop_first().map_values(f) =~= up.drop_first());
        } else if is_white_space(s.last()) {
            trimmed_upper(s.drop_last());
            assert(s.drop_last().map_values(f) =~= up.drop_last());
        }
    } else {
        assert(up =~= s);
    }
}

/// White space around a text makes no difference to the kind that it names.
pub proof fn type_ignores_outer_space(s: Seq<char>)
    ensures
        type_of(trimmed(s)) == type_of(s),
        ascii_type_of(trimmed(s)) == ascii_type_of(s),
{
    trimmed_twice(s);
}

proof fn trimmed_twice(s: Seq<char>)
    ensures
        trimmed(trimmed(s)) == trimmed(s),
    decreases s.len(),
{
    if s.len() > 0 && is_white_space(s[0]) {
        trimmed_twice(s.drop_first());
    } else if s.len() > 0 && is_white_space(s.last()) {
        trimmed_twice(s.drop_last());
    }
}

/// The Avro variant of a name means the same kind as the name itself.
pub proof fn avro_variant_is_same_type(name: Seq<char>)
    requires
        type_named(name) is Some,
        !has_suffix(name, "_AVRO"@),
    ensures
        type_named(name + "_AVRO"@) == type_named(name),
{
    reveal_strlit("_AVRO");
    reveal_strlit("SIMPLE");
    reveal_strlit("SIMPLE_AVRO");
    reveal_strlit("COMPLEX");
    reveal_strlit("COMPLEX_AVRO");
    reveal_strlit("TIMESTAMP");
    reveal_strlit("TIMESTAMP_AVRO");
    reveal_strlit("CUSTOM");
    reveal_strlit("CUSTOM_AVRO");
    reveal_strlit("NON_PARTITION");
    reveal_strlit("NON_PARTITION_AVRO");
    reveal_strlit("GLOBAL_DELETE");
    reveal_strlit("GLOBAL_DELETE_AVRO");
    assert("SIMPLE"@ + "_AVRO"@ =~= "SIMPLE_AVRO"@);
    assert("COMPLEX"@ + "_AVRO"@ =~= "COMPLEX_AVRO"@);
    assert("TIMESTAMP"@ + "_AVRO"@ =~= "TIMESTAMP_AVRO"@);
    assert("CUSTOM"@ + "_AVRO"@ =~= "CUSTOM_AVRO"@);
    assert("NON_PARTITION"@ + "_AVRO"@ =~= "NON_PARTITION_AVRO"@);
    assert("GLOBAL_DELETE"@ + "_AVRO"@ =~= "GLOBAL_DELETE_AVRO"@);
    ends_in("COMPLEX"@, name);
    ends_in("SIMPLE"@, name);
    ends_in("TIMESTAMP"@, name);
    ends_in("CUSTOM"@, name);
    ends_in("NON_PARTITION"@, name);
    ends_in("GLOBAL_DELETE"@, name);
    assert(name == "SIMPLE"@ || name == "COMPLEX"@ || name == "TIMESTAMP"@ || name == "CUSTOM"@
        || name == "NON_PARTITION"@ || name == "GLOBAL_DELETE"@);
    let long = name + "_AVRO"@;
    assert(long[0] == name[0] && long[1] == name[1]);
}

proof fn ends_in(stem: Seq<char>, name: Seq<char>)
    ensures
        name == stem + "_AVRO"@ ==> has_suffix(name, "_AVRO"@),
{
    if name == stem + "_AVRO"@ {
        assert(name.subrange(name.len() - "_AVRO"@.len(), name.len() as int) =~= "_AVRO"@);
    }
}

/// A table whose type is recognised is of that kind, whatever its class name says.
pub proof fn explicit_type_wins(configs: HudiConfigs, value: Seq<char>)
    requires
        configs.value_of(HudiTableConfig::KeyGeneratorType) == Some(value),
        type_of(value) is Some,
    ensures
        resolved_type(configs) == type_of(value),
{
}

/// A class name that holds a word of a kind is of some kind: that of the word, or one whose word
/// is more specific. What stands before and after the word makes no difference to that.
pub proof fn class_word_is_recognised(before: Seq<char>, after: Seq<char>)
    ensures
        type_of_class(before + "Nonpartitioned"@ + after) == Some(KeyGeneratorType::NonPartition),
        type_of_class(before + "GlobalDelete"@ + after) matches Some(k) && (k
            == KeyGeneratorType::GlobalDelete || k == KeyGeneratorType::NonPartition),
        type_of_class(before + "TimestampBased"@ + after) matches Some(k) && (k
            == KeyGeneratorType::Timestamp || k == KeyGeneratorType::GlobalDelete || k
            == KeyGeneratorType::NonPartition),
        type_of_class(before + "Complex"@ + after) matches Some(k) && k
            != KeyGeneratorType::Custom && k != KeyGeneratorType::Simple,
        type_of_class(before + "Custom"@ + after) matches Some(k) && k
            != KeyGeneratorType::Simple,
        type_of_class(before + "Simple"@ + after) is Some,
{
    word_within(before, "Nonpartitioned"@, after);
    word_within(before, "GlobalDelete"@, after);
    word_within(before, "TimestampBased"@, after);
    word_within(before, "Complex"@, after);
    word_within(before, "Custom"@, after);
    word_within(before, "Simple"@, after);
}

/// A class name is of no kind whose word it does not hold.
pub proof fn class_kind_is_named(s: Seq<char>)
    ensures
        match type_of_class(s) {
            Some(KeyGeneratorType::NonPartition) => exists|before: Seq<char>, after: Seq<char>|
                s == #[trigger] (before + "Nonpartitioned"@ + after),
            Some(KeyGeneratorType::GlobalDelete) => exists|before: Seq<char>, after: Seq<char>|
                s == #[trigger] (before + "GlobalDelete"@ + after),
            Some(KeyGeneratorType::Timestamp) => exists|before: Seq<char>, after: Seq<char>|
                s == #[trigger] (before + "TimestampBased"@ + after),
            Some(KeyGeneratorType::Complex) => exists|before: Seq<char>, after: Seq<char>|
                s == #[trigger] (before + "Complex"@ + after),
            Some(KeyGeneratorType::Custom) => exists|before: Seq<char>, after: Seq<char>|
                s == #[trigger] (before + "Custom"@ + after),
            Some(KeyGeneratorType::Simple) => exists|before: Seq<char>, after: Seq<char>|
                s == #[trigger] (before + "Simple"@ + after),
            None => forall|before: Seq<char>, after: Seq<char>|
                {
                    &&& s != #[trigger] (before + "Nonpartitioned"@ + after)
                    &&& s != before + "GlobalDelete"@ + after
                    &&& s != before + "TimestampBased"@ + after
                    &&& s != before + "Complex"@ + after
                    &&& s != before + "Custom"@ + after
                    &&& s != before + "Simple"@ + after
                },
        },
{
    let kind = type_of_class(s);
    if kind == Some(KeyGeneratorType::NonPartition) {
        word_parts(s, "Nonpartitioned"@);
    }
    if kind == Some(KeyGeneratorType::GlobalDelete) {
        word_parts(s, "GlobalDelete"@);
    }
    if kind == Some(KeyGeneratorType::Timestamp) {
        word_parts(s, "TimestampBased"@);
    }
    if kind == Some(KeyGeneratorType::Complex) {
        word_parts(s, "Complex"@);
    }
    if kind == Some(KeyGeneratorType::Custom) {
        word_parts(s, "Custom"@);
    }
    if kind == Some(KeyGeneratorType::Simple) {
        word_parts(s, "Simple"@);
    }
    if kind is None {
        assert forall|before: Seq<char>, after: Seq<char>|
            {
                &&& s != #[trigger] (before + "Nonpartitioned"@ + after)
                &&& s != before + "GlobalDelete"@ + after
                &&& s != before + "TimestampBased"@ + after
                &&& s != before + "Complex"@ + after
                &&& s != before + "Custom"@ + after
                &&& s != before + "Simple"@ + after
            } by {
            class_word_is_recognised(before, after);
        }
    }
}

/// Behind a prefix that holds no word of a kind, such as a package name, the class of a kind and
/// its Avro variant are both of that kind.
pub proof fn avro_class_is_same_kind(prefix: Seq<char>)
    requires
        type_of_class(prefix) is None,
    ensures
        type_of_class(prefix + "Nonpartitioned"@ + "KeyGenerator"@) == Some(
            KeyGeneratorType::NonPartition,
        ),
        type_of_class(prefix + "Nonpartitioned"@ + "AvroKeyGenerator"@) == Some(
            KeyGeneratorType::NonPartition,
        ),
        type_of_class(prefix + "GlobalDelete"@ + "KeyGenerator"@) == Some(
            KeyGeneratorType::GlobalDelete,
        ),
        type_of_class(prefix + "GlobalDelete"@ + "AvroKeyGenerator"@) == Some(
            KeyGeneratorType::GlobalDelete,
        ),
        type_of_class(prefix + "TimestampBased"@ + "KeyGenerator"@) == Some(
            KeyGeneratorType::Timestamp,
        ),
        type_of_class(prefix + "TimestampBased"@ + "AvroKeyGenerator"@) == Some(
            KeyGeneratorType::Timestamp,
        ),
        type_of_class(prefix + "Complex"@ + "KeyGenerator"@) == Some(
            KeyGeneratorType::Complex,
        ),
        type_of_class(prefix + "Complex"@ + "AvroKeyGenerator"@) == Some(
            KeyGeneratorType::Complex,
        ),
        type_of_class(prefix + "Custom"@ + "KeyGenerator"@) == Some(
            KeyGeneratorType::Custom,
        ),
        type_of_class(prefix + "Custom"@ + "AvroKeyGenerator"@) == Some(
            KeyGeneratorType::Custom,
        ),
        type_of_class(prefix + "Simple"@ + "KeyGenerator"@) == Some(
            KeyGeneratorType::Simple,
        ),
        type_of_class(prefix + "Simple"@ + "AvroKeyGenerator"@) == Some(
            KeyGeneratorType::Simple,
        ),
{
    class_words_are_six();
    generator_words_apart(prefix, "GlobalDelete"@, "Nonpartitioned"@);
    generator_words_apart(prefix, "TimestampBased"@, "Nonpartitioned"@);
    generator_words_apart(prefix, "TimestampBased"@, "GlobalDelete"@);
    generator_words_apart(prefix, "Complex"@, "Nonpartitioned"@);
    generator_words_apart(prefix, "Complex"@, "GlobalDelete"@);
    generator_words_apart(prefix, "Complex"@, "TimestampBased"@);
    generator_words_apart(prefix, "Custom"@, "Nonpartitioned"@);
    generator_words_apart(prefix, "Custom"@, "GlobalDelete"@);
    generator_words_apart(prefix, "Custom"@, "TimestampBased"@);
    generator_words_apart(prefix, "Custom"@, "Complex"@);
    generator_words_apart(prefix, "Simple"@, "Nonpartitioned"@);
    generator_words_apart(prefix, "Simple"@, "GlobalDelete"@);
    generator_words_apart(prefix, "Simple"@, "TimestampBased"@);
    generator_words_apart(prefix, "Simple"@, "Complex"@);
    generator_words_apart(prefix, "Simple"@, "Custom"@);
    word_within(prefix, "Nonpartitioned"@, "KeyGenerator"@);
    word_within(prefix, "Nonpartitioned"@, "AvroKeyGenerator"@);
    word_within(prefix, "GlobalDelete"@, "KeyGenerator"@);
    word_within(prefix, "GlobalDelete"@, "AvroKeyGenerator"@);
    word_within(prefix, "TimestampBased"@, "KeyGenerator"@);
    word_within(prefix, "TimestampBased"@, "AvroKeyGenerator"@);
    word_within(prefix, "Complex"@, "KeyGenerator"@);
    word_within(prefix, "Complex"@, "AvroKeyGenerator"@);
    word_within(prefix, "Custom"@, "KeyGenerator"@);
    word_within(prefix, "Custom"@, "AvroKeyGenerator"@);
    word_within(prefix, "Simple"@, "KeyGenerator"@);
    word_within(prefix, "Simple"@, "AvroKeyGenerator"@);
}

/// No two class words are the same.
proof fn class_words_are_six()
    ensures
        "GlobalDelete"@ != "Nonpartitioned"@,
        "TimestampBased"@ != "Nonpartitioned"@,
        "TimestampBased"@ != "GlobalDelete"@,
        "Complex"@ != "Nonpartitioned"@,
        "Complex"@ != "GlobalDelete"@,
        "Complex"@ != "TimestampBased"@,
        "Custom"@ != "Nonpartitioned"@,
        "Custom"@ != "GlobalDelete"@,
        "Custom"@ != "TimestampBased"@,
        "Custom"@ != "Complex"@,
        "Simple"@ != "Nonpartitioned"@,
        "Simple"@ != "GlobalDelete"@,
        "Simple"@ != "TimestampBased"@,
        "Simple"@ != "Complex"@,
        "Simple"@ != "Custom"@,
{
    reveal_strlit("Nonpartitioned");
    reveal_strlit("GlobalDelete");
    reveal_strlit("TimestampBased");
    reveal_strlit("Complex");
    reveal_strlit("Custom");
    reveal_strlit("Simple");
    assert("Nonpartitioned"@.len() == 14 && "Nonpartitioned"@[0] == 'N');
    assert("GlobalDelete"@.len() == 12 && "GlobalDelete"@[0] == 'G');
    assert("TimestampBased"@.len() == 14 && "TimestampBased"@[0] == 'T');
    assert("Complex"@.len() == 7 && "Complex"@[0] == 'C');
    assert("Custom"@.len() == 6 && "Custom"@[0] == 'C');
    assert("Simple"@.len() == 6 && "Simple"@[0] == 'S');
}

spec fn is_class_word(word: Seq<char>) -> bool {
    ||| word == "Nonpartitioned"@
    ||| word == "GlobalDelete"@
    ||| word == "TimestampBased"@
    ||| word == "Complex"@
    ||| word == "Custom"@
    ||| word == "Simple"@
}

/// Whether a character begins a class word or what follows one.
spec fn is_initial(c: char) -> bool {
    c == 'N' || c == 'G' || c == 'T' || c == 'C' || c == 'S' || c == 'K' || c == 'A'
}

/// A class word begins with an initial and holds no other.
proof fn class_word_letters(word: Seq<char>)
    requires
        is_class_word(word),
    ensures
        word.len() > 1,
        is_initial(word[0]),
        forall|j: int| 0 < j < word.len() ==> !is_initial(#[trigger] word[j]),
{
    reveal_strlit("Nonpartitioned");
    reveal_strlit("GlobalDelete");
    reveal_strlit("TimestampBased");
    reveal_strlit("Complex");
    reveal_strlit("Custom");
    reveal_strlit("Simple");
}

/// Class words are told apart by their first two letters.
proof fn class_words_differ(word: Seq<char>, other: Seq<char>)
    requires
        is_class_word(word),
        is_class_word(other),
        word != other,
    ensures
        word[0] != other[0] || word[1] != other[1],
{
    reveal_strlit("Nonpartitioned");
    reveal_strlit("GlobalDelete");
    reveal_strlit("TimestampBased");
    reveal_strlit("Complex");
    reveal_strlit("Custom");
    reveal_strlit("Simple");
}

/// What follows a class word in the name of a generator holds no class word.
proof fn generator_holds_no_word(other: Seq<char>)
    requires
        is_class_word(other),
    ensures
        !has_substring("KeyGenerator"@, other),
        !has_substring("AvroKeyGenerator"@, other),
{
    reveal_strlit("Nonpartitioned");
    reveal_strlit("GlobalDelete");
    reveal_strlit("TimestampBased");
    reveal_strlit("Complex");
    reveal_strlit("Custom");
    reveal_strlit("Simple");
    reveal_strlit("KeyGenerator");
    reveal_strlit("AvroKeyGenerator");
    apart("KeyGenerator"@, other);
    apart("AvroKeyGenerator"@, other);
}

/// A class name of a kind, behind a prefix that holds no class word, holds no class word of
/// another kind.
proof fn generator_words_apart(prefix: Seq<char>, word: Seq<char>, other: Seq<char>)
    requires
        !has_substring(prefix, other),
        is_class_word(word),
        is_class_word(other),
        word != other,
    ensures
        !has_substring(prefix + word + "KeyGenerator"@, other),
        !has_substring(prefix + word + "AvroKeyGenerator"@, other),
{
    class_word_letters(word);
    class_word_letters(other);
    class_words_differ(word, other);
    apart(word, other);
    generator_holds_no_word(other);
    word_apart(prefix, word, other);
    assert("KeyGenerator"@.len() > 0 && "KeyGenerator"@[0] == 'K') by {
        reveal_strlit("KeyGenerator");
    }
    assert("AvroKeyGenerator"@.len() > 0 && "AvroKeyGenerator"@[0] == 'A') by {
        reveal_strlit("AvroKeyGenerator");
    }
    word_apart(prefix + word, "KeyGenerator"@, other);
    word_apart(prefix + word, "AvroKeyGenerator"@, other);
}

/// A text none of whose characters can begin a word does not hold the word.
proof fn apart(s: Seq<char>, word: Seq<char>)
    requires
        word.len() > 1,
        forall|i: int|
            0 <= i && i + word.len() <= s.len() ==> #[trigger] s[i] != word[0] || s[i + 1]
                != word[1],
    ensures
        !has_substring(s, word),
{
    if has_substring(s, word) {
        let i = choose|i: int|
            0 <= i && i + word.len() <= s.len() && #[trigger] s.subrange(i, i + word.len())
                == word;
        let found = s.subrange(i, i + word.len());
        assert(found[0] == s[i] && found[1] == s[i + 1]);
    }
}

/// A word that is in neither of two texts is not in both together, where it does not hold the
/// first character of the second one behind its own.
proof fn word_apart(s: Seq<char>, t: Seq<char>, word: Seq<char>)
    requires
        t.len() > 0,
        forall|j: int| 0 < j < word.len() ==> #[trigger] word[j] != t[0],
        !has_substring(s, word),
        !has_substring(t, word),
        word.len() > 0,
    ensures
        !has_substring(s + t, word),
{
    let all = s + t;
    if has_substring(all, word) {
        let i = choose|i: int|
            0 <= i && i + word.len() <= all.len() && #[trigger] all.subrange(i, i + word.len())
                == word;
        let found = all.subrange(i, i + word.len());
        if i + word.len() <= s.len() {
            assert(s.subrange(i, i + word.len()) =~= found);
        } else if i >= s.len() {
            assert(t.subrange(i - s.len(), i - s.len() + word.len()) =~= found);
        } else {
            assert(found[s.len() - i] == t[0]);
        }
    }
}

proof fn word_within(before: Seq<char>, word: Seq<char>, after: Seq<char>)
    ensures
        has_substring(before + word + after, word),
{
    let i = before.len() as int;
    assert((before + word + after).subrange(i, i + word.len()) =~= word);
}

proof fn word_parts(s: Seq<char>, word: Seq<char>)
    requires
        has_substring(s, word),
    ensures
        exists|before: Seq<char>, after: Seq<char>| s == #[trigger] (before + word + after),
{
    let i = choose|i: int|
        0 <= i && i + word.len() <= s.len() && #[trigger] s.subrange(i, i + word.len()) == word;
    assert(s =~= s.take(i) + word + s.skip(i + word.len()));
}

/// The names of the kinds: a text is taken for a kind if and only if it is the name of the kind or
/// its Avro variant, in any case and with any white space around it.
pub proof fn kinds_go_by_their_names(before: Seq<char>, s: Seq<char>, after: Seq<char>)
    requires
        forall|i: int| 0 <= i < before.len() ==> is_white_space(#[trigger] before[i]),
        forall|i: int| 0 <= i < after.len() ==> is_white_space(#[trigger] after[i]),
        s.len() > 0 ==> !is_white_space(s[0]) && !is_white_space(s.last()),
    ensures
        ({
            let kind = ascii_type_of(before + s + after);
            let upper = s.map_values(|c: char| ascii_upper(c));
            &&& kind == Some(KeyGeneratorType::Simple) <==> upper == "SIMPLE"@ || upper
                == "SIMPLE"@ + "_AVRO"@
            &&& kind == Some(KeyGeneratorType::Complex) <==> upper == "COMPLEX"@ || upper
                == "COMPLEX"@ + "_AVRO"@
            &&& kind == Some(KeyGeneratorType::Timestamp) <==> upper == "TIMESTAMP"@ || upper
                == "TIMESTAMP"@ + "_AVRO"@
            &&& kind == Some(KeyGeneratorType::Custom) <==> upper == "CUSTOM"@ || upper
                == "CUSTOM"@ + "_AVRO"@
            &&& kind == Some(KeyGeneratorType::NonPartition) <==> upper == "NON_PARTITION"@ || upper
                == "NON_PARTITION"@ + "_AVRO"@
            &&& kind == Some(KeyGeneratorType::GlobalDelete) <==> upper == "GLOBAL_DELETE"@ || upper
                == "GLOBAL_DELETE"@ + "_AVRO"@
        }),
        ({
            let kind = type_of(before + s + after);
            let upper = uppercase(s.map_values(|c: char| ascii_upper(c)));
            &&& kind == Some(KeyGeneratorType::Simple) <==> upper == "SIMPLE"@ || upper
                == "SIMPLE"@ + "_AVRO"@
            &&& kind == Some(KeyGeneratorType::Complex) <==> upper == "COMPLEX"@ || upper
                == "COMPLEX"@ + "_AVRO"@
            &&& kind == Some(KeyGeneratorType::Timestamp) <==> upper == "TIMESTAMP"@ || upper
                == "TIMESTAMP"@ + "_AVRO"@
            &&& kind == Some(KeyGeneratorType::Custom) <==> upper == "CUSTOM"@ || upper
                == "CUSTOM"@ + "_AVRO"@
            &&& kind == Some(KeyGeneratorType::NonPartition) <==> upper == "NON_PARTITION"@ || upper
                == "NON_PARTITION"@ + "_AVRO"@
            &&& kind == Some(KeyGeneratorType::GlobalDelete) <==> upper == "GLOBAL_DELETE"@ || upper
                == "GLOBAL_DELETE"@ + "_AVRO"@
        }),
{
    trimming_takes_white_space_off(before, s, after);
    reveal_strlit("_AVRO");
    reveal_strlit("SIMPLE");
    reveal_strlit("SIMPLE_AVRO");
    reveal_strlit("COMPLEX");
    reveal_strlit("COMPLEX_AVRO");
    reveal_strlit("TIMESTAMP");
    reveal_strlit("TIMESTAMP_AVRO");
    reveal_strlit("CUSTOM");
    reveal_strlit("CUSTOM_AVRO");
    reveal_strlit("NON_PARTITION");
    reveal_strlit("NON_PARTITION_AVRO");
    reveal_strlit("GLOBAL_DELETE");
    reveal_strlit("GLOBAL_DELETE_AVRO");
    assert("SIMPLE"@ + "_AVRO"@ =~= "SIMPLE_AVRO"@);
    assert("COMPLEX"@ + "_AVRO"@ =~= "COMPLEX_AVRO"@);
    assert("TIMESTAMP"@ + "_AVRO"@ =~= "TIMESTAMP_AVRO"@);
    assert("CUSTOM"@ + "_AVRO"@ =~= "CUSTOM_AVRO"@);
    assert("NON_PARTITION"@ + "_AVRO"@ =~= "NON_PARTITION_AVRO"@);
    assert("GLOBAL_DELETE"@ + "_AVRO"@ =~= "GLOBAL_DELETE_AVRO"@);
    assert("COMPLEX"@[1] == 'O' && "CUSTOM"@[1] == 'U');
    assert("COMPLEX_AVRO"@[1] == 'O' && "CUSTOM_AVRO"@[1] == 'U');
    assert("SIMPLE"@[0] == 'S' && "SIMPLE_AVRO"@[0] == 'S');
    assert("COMPLEX"@[0] == 'C' && "COMPLEX_AVRO"@[0] == 'C');
    assert("TIMESTAMP"@[0] == 'T' && "TIMESTAMP_AVRO"@[0] == 'T');
    assert("CUSTOM"@[0] == 'C' && "CUSTOM_AVRO"@[0] == 'C');
    assert("NON_PARTITION"@[0] == 'N' && "NON_PARTITION_AVRO"@[0] == 'N');
    assert("GLOBAL_DELETE"@[0] == 'G' && "GLOBAL_DELETE_AVRO"@[0] == 'G');
}

/// A table whose type is not set, or not recognised, is of the kind of its class name; without
/// either it is of no known kind.
pub proof fn class_decides_without_a_type(configs: HudiConfigs)
    requires
        configs.value_of(HudiTableConfig::KeyGeneratorType) matches Some(v) ==> type_of(v) is None,
    ensures
        configs.value_of(HudiTableConfig::KeyGeneratorClass) matches Some(class)
            ==> resolved_type(configs) == type_of_class(class),
        configs.value_of(HudiTableConfig::KeyGeneratorClass) is None ==> resolved_type(
            configs,
        ) is None,
{
}

/// A partition field spec is split at its first colon: the column stands before it and the type
/// behind it, white space aside. Without a colon it is all column.
pub proof fn spec_is_split_at_first_colon(column: Seq<char>, kind: Seq<char>)
    requires
        !column.contains(':'),
    ensures
        spec_column(column.push(':') + kind) == trimmed(column),
        spec_type(column.push(':') + kind) == type_of(kind),
        spec_column(column) == trimmed(column),
        spec_type(column) is None,
{
    first_colon(column, kind);
}

/// The partition columns are those that the option lists between its commas, in that order, each
/// without white space around it and without the type behind its colon.
pub proof fn columns_are_listed_between_commas(
    configs: HudiConfigs,
    columns: Seq<Seq<char>>,
    specs: Seq<Seq<char>>,
)
    requires
        specs.len() > 0,
        columns.len() == specs.len(),
        configs.value_of(HudiTableConfig::PartitionFields) == Some(joined(specs, ',')),
        forall|i: int|
            0 <= i < specs.len() ==> !(#[trigger] specs[i]).contains(',') && !columns[i].contains(
                ':',
            ) && (specs[i] == columns[i] || exists|kind: Seq<char>|
                specs[i] == #[trigger] (columns[i].push(':') + kind)),
    ensures
        declared_columns(configs).len() == columns.len(),
        forall|i: int|
            0 <= i < columns.len() ==> #[trigger] declared_columns(configs)[i] == trimmed(
                columns[i],
            ),
{
    joined_then_split(specs, ',');
    assert forall|i: int| 0 <= i < columns.len() implies #[trigger] declared_columns(configs)[i]
        == trimmed(columns[i]) by {
        assert(!specs[i].contains(','));
        if specs[i] == columns[i] {
            spec_is_split_at_first_colon(columns[i], columns[i]);
        } else {
            let kind = choose|kind: Seq<char>| specs[i] == #[trigger] (columns[i].push(':') + kind);
            spec_is_split_at_first_colon(columns[i], kind);
        }
    }
}

/// A table that does not list partition columns has none.
pub proof fn no_list_no_columns(configs: HudiConfigs)
    requires
        configs.value_of(HudiTableConfig::PartitionFields) is None,
    ensures
        declared_columns(configs).len() == 0,
{
}

} // verus!
