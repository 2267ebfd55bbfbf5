//! Deterministic, constant-time utilities for embedded and real-time kernels.
//!
//! * Search algorithms with low jitter.
//! * Memory allocators whose allocations take a bounded time.
//! * Collections that store their items in a small, fixed footprint.
//! * Checks for helpful CPU features, decided when the crate is built.
//!
//! Nothing here allocates, blocks or locks: whoever shares a value between threads serializes
//! the calls.

pub mod algorithms;
pub mod allocators;
pub mod collections;
pub mod cpu_features;
