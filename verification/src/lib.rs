//! A small distributed SQL engine.
pub mod batch;
pub mod catalog;
pub mod cells;
pub mod cli;
pub mod cluster;
pub mod column;
pub mod control_plane;
pub mod coordinator;
pub mod distributed;
pub mod error;
pub mod evaluate;
pub mod execution;
pub mod expr;
pub mod floats;
pub mod fragment;
pub mod kernels;
pub mod logical;
pub mod meaning;
pub mod memory;
pub mod metrics;
pub mod optimizer;
pub mod physical;
pub mod plan_codec;
pub mod planner;
pub mod protocol;
pub mod pruning;
pub mod regrouping;
pub mod rejoining;
pub mod remote;
pub mod rewriting;
pub mod row_key;
pub mod scalar;
pub mod session;
pub mod simplify;
pub mod sql;
pub mod table;
pub mod text;
pub mod types;
pub mod values;
pub mod wire;
pub mod worker;

pub use error::SparkXError;
pub use memory::{MemoryReservation, QueryMemory, DEFAULT_MEMORY_LIMIT_BYTES};
pub use metrics::{MetricsSnapshot, OperatorMetricsSnapshot, QueryMetrics};
