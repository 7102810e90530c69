//! The errors of the library.

use vstd::prelude::*;
use vstd::string::*;
use crate::text::has_suffix;

verus! {

/// An error of the Arrow crates.
#[verifier::external_type_specification]
#[verifier::external_body]
pub struct ExArrowError(arrow_schema::ArrowError);

/// An error of the Avro crate.
#[verifier::external_type_specification]
#[verifier::external_body]
pub struct ExAvroError(apache_avro::Error);

/// A configuration value that cannot be used.
#[derive(Debug)]
pub enum ConfigError {
    /// The value is none of those that the option takes.
    UnsupportedValue(String),
}

/// What can go wrong in the library.
#[derive(Debug)]
pub enum CoreError {
    /// A table option holds an unusable value.
    Config(ConfigError),
    /// A column or field is not where it was expected.
    Schema(String),
    /// Arrow refused an operation.
    ArrowError(arrow_schema::ArrowError),
    /// A stored value is no Avro datum of its schema.
    Avro(apache_avro::Error),
    /// The metadata table could not be read.
    MetadataTable(String),
}

/// The message of an Arrow error.
pub uninterp spec fn arrow_message(e: arrow_schema::ArrowError) -> Seq<char>;

/// The message of an Avro error.
pub uninterp spec fn avro_message(e: apache_avro::Error) -> Seq<char>;

/// Formats an Arrow error with its `Display` implementation.
#[verifier::external_body]
fn arrow_text(e: &arrow_schema::ArrowError) -> (r: String)
    ensures
        r@ == arrow_message(*e),
{
    format!("{e}")
}

/// Formats an Avro error with its `Display` implementation.
#[verifier::external_body]
fn avro_text(e: &apache_avro::Error) -> (r: String)
    ensures
        r@ == avro_message(*e),
{
    format!("{e}")
}

/// The message of an error.
pub open spec fn message_of(e: CoreError) -> Seq<char> {
    match e {
        CoreError::Config(ConfigError::UnsupportedValue(v)) => "Unsupported value: "@ + v@,
        CoreError::Schema(m) => m@,
        CoreError::ArrowError(e) => arrow_message(e),
        CoreError::Avro(e) => avro_message(e),
        CoreError::MetadataTable(m) => m@,
    }
}

impl CoreError {
    /// The message of the error.
    pub fn message(&self) -> (r: String)
        ensures
            r@ == message_of(*self),
    {
        match self {
            CoreError::Config(ConfigError::UnsupportedValue(v)) => {
                let mut m: String = "Unsupported value: ".to_owned();
                m.append(v.as_str());
                m
            },
            CoreError::Schema(m) => m.clone(),
            CoreError::ArrowError(e) => arrow_text(e),
            CoreError::Avro(e) => avro_text(e),
            CoreError::MetadataTable(m) => m.clone(),
        }
    }
}

/// The message of an unusable value ends in the value.
pub proof fn message_gives_the_value(v: String)
    ensures
        has_suffix(message_of(CoreError::Config(ConfigError::UnsupportedValue(v))), v@),
{
    let m = message_of(CoreError::Config(ConfigError::UnsupportedValue(v)));
    assert(m.subrange(m.len() - v@.len(), m.len() as int) =~= v@);
}

} // verus!
