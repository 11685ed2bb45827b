//! Benchmark harness helpers: the shared mode selector and the deterministic
//! kernels that the benchmark programs time against each other.
pub mod byte_fill;
pub mod mode;
pub mod pair_sum;
pub mod vec_init;
pub mod vector_add;

pub use mode::ModeParser;
