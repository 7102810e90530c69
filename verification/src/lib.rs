//! Read-side building blocks of a Hudi table client, verified with Verus.

pub mod avro;
pub mod avro_schema;
pub mod batch;
pub mod cast_bounds;
pub mod cdc;
pub mod config;
pub mod error;
pub mod expr;
pub mod fixture;
pub mod fixture_laws;
pub mod json;
pub mod keygen;
pub mod metadata;
pub mod named;
pub mod numeral;
pub mod order;
pub mod rows;
pub mod schema;
pub mod schema_laws;
pub mod stat_columns;
pub mod statistics;
pub mod text;
pub mod type_shape;
