//! Editing and conversion of genome annotation records in the two
//! tab-separated dialects (`key=value` and `key "value"` attributes).
pub mod text;
pub mod uid;
pub mod annotation;
pub mod attributes;
pub mod reader;
pub mod transform;
pub mod table;
pub mod schema;
pub mod cli;
pub mod laws;
pub mod round_trip;
