//! The Protocol Buffers encoding of plan fragments.

pub mod exprs;
pub mod fields;
pub mod plans;
pub mod schema;
pub mod slots;
pub mod varint;
