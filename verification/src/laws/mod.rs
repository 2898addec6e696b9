//! What holds of reading and writing, whatever the input.

pub mod chunks;
pub mod order;
pub mod round_trip;
pub mod tree;
pub mod truncation;
