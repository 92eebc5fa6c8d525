//! Flattening of nested execution traces into indexed arrays.
pub mod trace;
pub mod flat;
pub mod invariants;
pub mod rpc;
