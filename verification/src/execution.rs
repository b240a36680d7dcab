//! What each operator of a physical plan does to batches of rows.

pub mod aggregate;
pub mod concat;
pub mod early;
pub mod join;
pub mod laws;
pub mod rows;
pub mod rowwise;
pub mod run;
pub mod sort;
pub mod state;
pub mod stream;
