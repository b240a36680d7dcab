//! What the operations are for, told of their inputs and results alone.

pub mod aggregation;
pub mod evaluation;
pub mod grouping;
pub mod joining;
pub mod messages;
pub mod moving;
pub mod operators;
pub mod optimizing;
pub mod queries;
pub mod reading;
pub mod results;
pub mod scheduling;
pub mod schemas;
pub mod storage;
pub mod tables;
pub mod values;
pub mod working;
