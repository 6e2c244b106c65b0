//! Verified core of a vehicle telemetry pipeline.
//!
//! The library defines the canonical record schema shared by both source
//! encodings, a loader that turns CSV or JSON text into canonical records,
//! a store that keeps an ordered record collection and its persisted JSON
//! document in step, and a filter/extractor that narrows records to a time
//! window and projects two named variables into parallel numeric series.

pub mod choice;
pub mod csv_doc;
pub mod errors;
pub mod json_doc;
pub mod loader;
pub mod num;
pub mod schema;
pub mod series;
pub mod store;
mod text;
