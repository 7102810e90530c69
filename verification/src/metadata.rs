//! The metadata table: decoding its index partitions.

pub mod base_file;
pub mod column_stats;
pub mod record_index;
pub mod scan;
