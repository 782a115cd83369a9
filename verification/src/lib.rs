//! A control-break outline report builder.
//!
//! The library turns a pre-sorted sequence of records (group, metric,
//! underscore-delimited hierarchical path, numeric value strings) into a
//! plan of spreadsheet sheets: one sheet per group, a label row per metric,
//! indented outline rows for new path segments, and a leaf row per record
//! carrying its numeric values.

pub mod record;
pub mod numeric;
pub mod outline;
pub mod driver;
pub mod laws;
pub mod render;
