//! Benchmark harness core for a 2D sparse-strip rasterizer: SIMD level
//! registry, benchmark catalogue and identifier parsing, the timing engine,
//! and the naming and ordering rules of stored reference sets.

mod text;
pub mod simd;
pub mod result;
pub mod runner;
pub mod catalogue;
pub mod workload;
pub mod dispatch;
pub mod references;
pub mod registry;
pub mod bencher;
