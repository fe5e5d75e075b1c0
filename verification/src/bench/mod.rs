//! The decisions of the benchmark tools: the accounting of the load generator and
//! the answers of the HTTP origin.

pub mod loadgen;
pub mod origin;
