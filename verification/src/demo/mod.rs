//! The demo application's logic: order workloads for benchmarks, and the
//! interactive session (its state, its commands and how amounts are shown).
pub mod command;
pub mod session;
pub mod workload;
