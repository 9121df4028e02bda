//! Measures and statistically characterizes the latency of time-measurement
//! primitives. The library holds the verified pipeline: bracket sampling,
//! calibration of a clock against a nanosecond reference, and reduction of a
//! sample set into summary statistics (min, percentiles, mean, standard
//! deviation). Reading the platform clocks and rendering the results are left
//! to the surrounding program.

pub mod calibrate;
pub mod clock;
pub mod dist;
pub mod fault;
pub mod hist;
pub mod sampler;
pub mod stats;
pub mod workload;
