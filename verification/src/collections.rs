//! Collections with a low memory footprint.

pub mod fast_bitfield;
