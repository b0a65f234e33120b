//! Weekly and daily activity summaries built from per-participant
//! accelerometer day summaries.

pub mod text;
pub mod weekday;
pub mod date;
pub mod record;
pub mod order;
pub mod summary;
pub mod columns;
pub mod number;
pub mod group;
pub mod subject;
