//! Search algorithms with low jitter.

pub mod bit_index;
pub mod debruijin;
