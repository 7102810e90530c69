//! Table options.

use vstd::prelude::*;
use crate::error::ConfigError;
use crate::text::{ascii_lower, chars_of, same_text};

verus! {

/// The table options that the library reads.
#[derive(Debug, Clone, Copy, PartialEq, Eq, Structural)]
pub enum HudiTableConfig {
    /// Whether change data capture is enabled. Off by default.
    CdcEnabled,
    /// How much change data is persisted. Before and after images by default.
    CdcSupplementalLoggingMode,
    /// The Java class name of the key generator.
    KeyGeneratorClass,
    /// The kind of the key generator.
    KeyGeneratorType,
    /// The partition fields, separated by commas. None by default.
    PartitionFields,
}

/// The key of an option in the table properties.
pub open spec fn key_of(config: HudiTableConfig) -> Seq<char> {
    match config {
        HudiTableConfig::CdcEnabled => "hoodie.table.cdc.enabled"@,
        HudiTableConfig::CdcSupplementalLoggingMode => "hoodie.table.cdc.supplemental.logging.mode"@,
        HudiTableConfig::KeyGeneratorClass => "hoodie.table.keygenerator.class"@,
        HudiTableConfig::KeyGeneratorType => "hoodie.table.keygenerator.type"@,
        HudiTableConfig::PartitionFields => "hoodie.table.partition.fields"@,
    }
}

impl HudiTableConfig {
    /// The key of the option in the table properties.
    pub fn key(&self) -> (r: &'static str)
        ensures
            r@ == key_of(*self),
    {
        match self {
            HudiTableConfig::CdcEnabled => "hoodie.table.cdc.enabled",
            HudiTableConfig::CdcSupplementalLoggingMode =>
            "hoodie.table.cdc.supplemental.logging.mode",
            HudiTableConfig::KeyGeneratorClass => "hoodie.table.keygenerator.class",
            HudiTableConfig::KeyGeneratorType => "hoodie.table.keygenerator.type",
            HudiTableConfig::PartitionFields => "hoodie.table.partition.fields",
        }
    }
}

/// Table options as they were set, by key.
#[derive(Debug)]
pub struct HudiConfigs {
    /// Keys and values in the order in which they were set; a later entry replaces an earlier
    /// one with the same key.
    entries: Vec<(String, String)>,
}

/// The value of the last entry with the given key.
pub open spec fn last_value(entries: Seq<(Seq<char>, Seq<char>)>, key: Seq<char>) -> Option<
    Seq<char>,
>
    decreases entries.len(),
{
    if entries.len() == 0 {
        None
    } else if entries.last().0 == key {
        Some(entries.last().1)
    } else {
        last_value(entries.drop_last(), key)
    }
}

impl HudiConfigs {
    /// The options that were set, in order.
    pub closed spec fn view(&self) -> Seq<(Seq<char>, Seq<char>)> {
        self.entries@.map_values(|e: (String, String)| (e.0@, e.1@))
    }

    /// The value that an option was set to.
    pub open spec fn value_of(&self, config: HudiTableConfig) -> Option<Seq<char>> {
        last_value(self@, key_of(config))
    }

    /// No options at all.
    pub fn empty() -> (r: HudiConfigs)
        ensures
            r@ == Seq::<(Seq<char>, Seq<char>)>::empty(),
    {
        let r: HudiConfigs = HudiConfigs { entries: Vec::new() };
        assert(r@ =~= Seq::<(Seq<char>, Seq<char>)>::empty());
        r
    }

    /// The given options.
    pub fn new(options: Vec<(HudiTableConfig, String)>) -> (r: HudiConfigs)
        ensures
            r@ == options@.map_values(|o: (HudiTableConfig, String)| (key_of(o.0), o.1@)),
    {
        let mut entries: Vec<(String, String)> = Vec::new();
        let mut i: usize = 0;
        while i < options.len()
            invariant
                i <= options@.len(),
                entries@.len() == i,
                forall|k: int|
                    0 <= k < i ==> (#[trigger] entries@[k]).0@ == key_of(options@[k].0)
                        && entries@[k].1@ == options@[k].1@,
            decreases options@.len() - i,
        {
            entries.push((options[i].0.key().to_owned(), options[i].1.clone()));
            i += 1;
        }
        let r: HudiConfigs = HudiConfigs { entries };
        assert(r@ =~= options@.map_values(|o: (HudiTableConfig, String)| (key_of(o.0), o.1@)));
        r
    }

    /// Sets one option by its key in the table properties.
    pub fn set(&mut self, key: String, value: String)
        ensures
            final(self)@ == old(self)@.push((key@, value@)),
    {
        self.entries.push((key, value));
        assert(self@ =~= old(self)@.push((key@, value@)));
    }

    /// The value that an option was set to.
    pub fn get(&self, config: HudiTableConfig) -> (r: Option<&String>)
        ensures
            match r {
                Some(v) => self.value_of(config) == Some(v@),
                None => self.value_of(config) is None,
            },
    {
        let key: &str = config.key();
        let mut i: usize = self.entries.len();
        assert(self@.take(i as int) =~= self@);
        while i > 0
            invariant
                i <= self.entries@.len(),
                key@ == key_of(config),
                last_value(self@.take(i as int), key@) == last_value(self@, key@),
            decreases i,
        {
            assert(self@.take(i as int).drop_last() =~= self@.take(i - 1));
            assert(self@.take(i as int).last() == self@[i - 1]);
            if same_text(self.entries[i - 1].0.as_str(), key) {
                return Some(&self.entries[i - 1].1);
            }
            i -= 1;
        }
        None
    }
}

/// Setting an option decides its value and no other.
pub proof fn set_then_get(
    entries: Seq<(Seq<char>, Seq<char>)>,
    key: Seq<char>,
    value: Seq<char>,
    other: Seq<char>,
)
    ensures
        last_value(entries.push((key, value)), key) == Some(value),
        other != key ==> last_value(entries.push((key, value)), other) == last_value(
            entries,
            other,
        ),
{
    assert(entries.push((key, value)).drop_last() =~= entries);
}

/// How much change data is persisted with a commit.
#[derive(Debug, Clone, Copy, PartialEq, Eq, Structural)]
pub enum CdcSupplementalLoggingModeValue {
    /// Only the operation and the record key.
    OpKeyOnly,
    /// Also the record before the change.
    DataBefore,
    /// Also the record before and after the change.
    DataBeforeAfter,
}

/// The logging mode with the given name; the case of ASCII letters makes no difference.
pub open spec fn logging_mode_named(name: Seq<char>) -> Option<CdcSupplementalLoggingModeValue> {
    let lower = name.map_values(|c: char| ascii_lower(c));
    if lower == "cdc_op_key"@ {
        Some(CdcSupplementalLoggingModeValue::OpKeyOnly)
    } else if lower == "cdc_data_before"@ {
        Some(CdcSupplementalLoggingModeValue::DataBefore)
    } else if lower == "cdc_data_before_after"@ {
        Some(CdcSupplementalLoggingModeValue::DataBeforeAfter)
    } else {
        None
    }
}

fn lower_case(s: &str) -> (r: String)
    ensures
        r@ == s@.map_values(|c: char| ascii_lower(c)),
{
    let chars: Vec<char> = chars_of(s);
    let mut r: String = String::new();
    let mut i: usize = 0;
    while i < chars.len()
        invariant
            chars@ == s@,
            i <= chars@.len(),
            r@ =~= chars@.take(i as int).map_values(|c: char| ascii_lower(c)),
        decreases chars@.len() - i,
    {
        let c: char = chars[i];
        if 'A' <= c && c <= 'Z' {
            r.push(((c as u8) + 32) as char);
        } else {
            r.push(c);
        }
        i += 1;
    }
    assert(chars@.take(i as int) =~= chars@);
    r
}

impl CdcSupplementalLoggingModeValue {
    /// The logging mode with the given name.
    pub fn from_name(name: &str) -> (r: Result<CdcSupplementalLoggingModeValue, ConfigError>)
        ensures
            match r {
                Ok(mode) => logging_mode_named(name@) == Some(mode),
                Err(ConfigError::UnsupportedValue(v)) => logging_mode_named(name@) is None && v@
                    == name@,
            },
    {
        let lower: String = lower_case(name);
        if same_text(lower.as_str(), "cdc_op_key") {
            Ok(CdcSupplementalLoggingModeValue::OpKeyOnly)
        } else if same_text(lower.as_str(), "cdc_data_before") {
            Ok(CdcSupplementalLoggingModeValue::DataBefore)
        } else if same_text(lower.as_str(), "cdc_data_before_after") {
            Ok(CdcSupplementalLoggingModeValue::DataBeforeAfter)
        } else {
            Err(ConfigError::UnsupportedValue(name.to_owned()))
        }
    }
}

/// An option has the value that its key was set to last, and that is not changed by setting any
/// other key.
pub proof fn option_follows_its_key(
    before: HudiConfigs,
    after: HudiConfigs,
    key: Seq<char>,
    value: Seq<char>,
)
    requires
        after@ == before@.push((key, value)),
    ensures
        after.value_of(HudiTableConfig::CdcEnabled) == (if key
            == "hoodie.table.cdc.enabled"@ {
            Some(value)
        } else {
            before.value_of(HudiTableConfig::CdcEnabled)
        }),
        after.value_of(HudiTableConfig::CdcSupplementalLoggingMode) == (if key
            == "hoodie.table.cdc.supplemental.logging.mode"@ {
            Some(value)
        } else {
            before.value_of(HudiTableConfig::CdcSupplementalLoggingMode)
        }),
        after.value_of(HudiTableConfig::KeyGeneratorClass) == (if key
            == "hoodie.table.keygenerator.class"@ {
            Some(value)
        } else {
            before.value_of(HudiTableConfig::KeyGeneratorClass)
        }),
        after.value_of(HudiTableConfig::KeyGeneratorType) == (if key
            == "hoodie.table.keygenerator.type"@ {
            Some(value)
        } else {
            before.value_of(HudiTableConfig::KeyGeneratorType)
        }),
        after.value_of(HudiTableConfig::PartitionFields) == (if key
            == "hoodie.table.partition.fields"@ {
            Some(value)
        } else {
            before.value_of(HudiTableConfig::PartitionFields)
        }),
{
    assert(after@.drop_last() =~= before@);
}

/// No two options have the same key.
pub proof fn keys_are_distinct(a: HudiTableConfig, b: HudiTableConfig)
    requires
        key_of(a) == key_of(b),
    ensures
        a == b,
{
    reveal_strlit("hoodie.table.cdc.enabled");
    reveal_strlit("hoodie.table.cdc.supplemental.logging.mode");
    reveal_strlit("hoodie.table.keygenerator.class");
    reveal_strlit("hoodie.table.keygenerator.type");
    reveal_strlit("hoodie.table.partition.fields");
    assert("hoodie.table.cdc.enabled"@.len() == 24);
    assert("hoodie.table.cdc.supplemental.logging.mode"@.len() == 42);
    assert("hoodie.table.keygenerator.class"@.len() == 31);
    assert("hoodie.table.keygenerator.type"@.len() == 30);
    assert("hoodie.table.partition.fields"@.len() == 29);
}

/// The value of an option is that of the last entry with its key, and there is none without one.
pub proof fn last_entry_is_the_value(
    entries: Seq<(Seq<char>, Seq<char>)>,
    key: Seq<char>,
    i: int,
)
    ensures
        0 <= i < entries.len() && entries[i].0 == key && (forall|j: int|
            i < j < entries.len() ==> (#[trigger] entries[j]).0 != key) ==> last_value(entries, key)
            == Some(entries[i].1),
        (forall|j: int| 0 <= j < entries.len() ==> (#[trigger] entries[j]).0 != key)
            ==> last_value(entries, key) is None,
    decreases entries.len(),
{
    if entries.len() > 0 {
        let shorter = entries.drop_last();
        last_entry_is_the_value(shorter, key, i);
        assert(entries[entries.len() - 1] == entries.last());
        assert forall|j: int| 0 <= j < shorter.len() implies #[trigger] shorter[j] == entries[j] by {}
    }
}

/// The case of ASCII letters makes no difference to the mode that a name stands for, and the
/// modes have three different names.
pub proof fn modes_go_by_their_names(name: Seq<char>, other: Seq<char>)
    ensures
        name.map_values(|c: char| ascii_lower(c)) == other.map_values(|c: char| ascii_lower(c))
            ==> logging_mode_named(name) == logging_mode_named(other),
        name.map_values(|c: char| ascii_lower(c)) == "cdc_op_key"@ ==> logging_mode_named(name)
            == Some(CdcSupplementalLoggingModeValue::OpKeyOnly),
        name.map_values(|c: char| ascii_lower(c)) == "cdc_data_before"@ ==> logging_mode_named(name)
            == Some(CdcSupplementalLoggingModeValue::DataBefore),
        name.map_values(|c: char| ascii_lower(c)) == "cdc_data_before"@ + "_after"@
            ==> logging_mode_named(name) == Some(CdcSupplementalLoggingModeValue::DataBeforeAfter),
        logging_mode_named(name) is Some && logging_mode_named(name) == logging_mode_named(other)
            ==> name.map_values(|c: char| ascii_lower(c)) == other.map_values(
            |c: char| ascii_lower(c),
        ),
{
    reveal_strlit("cdc_op_key");
    reveal_strlit("cdc_data_before");
    reveal_strlit("_after");
    reveal_strlit("cdc_data_before_after");
    assert("cdc_data_before"@ + "_after"@ =~= "cdc_data_before_after"@);
}

} // verus!
