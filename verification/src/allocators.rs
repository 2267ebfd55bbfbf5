//! Memory allocators with real-time guarantees.

pub mod alignment;
pub mod monotonic_allocator;
