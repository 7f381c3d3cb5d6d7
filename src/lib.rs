//! Planning and bookkeeping for a file I/O throughput benchmark.
//!
//! The library decides what a benchmark pass does: which blocks it visits and
//! in what order, which offsets each strategy submits, how the two concurrent
//! engines keep their window of in-flight operations, which buffers they use,
//! and how long the measurement loop runs. The operating-system calls that
//! carry these decisions out are made by the caller.
pub mod pattern;
pub mod strategy;
pub mod plan;
pub mod ring;
pub mod window;
pub mod tasks;
pub mod measure;
pub mod buffer;
