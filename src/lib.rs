//! An accumulator of sampled call stacks that builds a wall-time profile in
//! the pprof format: interned strings, functions and locations, and one
//! sample per recorded stack.

pub mod encode;
pub mod laws;
pub mod model;
pub mod stats;
pub mod types;
pub mod wire;
