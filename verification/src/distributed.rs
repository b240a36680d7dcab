//! Aggregation in parts: a partial aggregate for each partition, and their merge.

pub mod groups;
pub mod laws;
pub mod local;
pub mod merge;
pub mod merging;
pub mod partial;
pub mod partials;
pub mod placement;
pub mod run;
pub mod schedule;
pub mod spreading;
pub mod written;
