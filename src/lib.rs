//! Conversion of tab-separated interval records into bedGraph lines: reading
//! a record from a line, choosing its value, and writing the output text.

pub mod decimal;
pub mod fields;
pub mod graph;
pub mod laws;
pub mod record;
pub mod select;
