//! Monte Carlo estimation of π: a sampler that counts lattice points of the
//! square `[-SCALE, SCALE]²` falling inside the disc of radius `SCALE`, the
//! partition and aggregation arithmetic of the multi-worker mode, and the
//! command-line decisions of the benchmark program.
pub mod aggregate;
pub mod cli;
pub mod sampler;
