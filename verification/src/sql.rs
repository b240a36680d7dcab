//! From parsed SQL to logical plans.
//!
//! [`syntax`] holds what the engine reads of a parsed statement, [`scalar`] turns its expressions
//! into those of the engine, and [`query`] its queries into plans.

pub mod query;
pub mod reader;
pub mod scalar;
pub mod syntax;
pub mod tree;
