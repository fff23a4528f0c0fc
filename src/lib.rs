//! Group-by aggregation over delimited tables: resolving columns in a
//! header, grouping records by composite keys, and assembling output lines.
pub mod text;
pub mod config;
pub mod header;
pub mod groups;
pub mod emit;
