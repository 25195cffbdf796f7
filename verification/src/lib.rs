//! Rolling-window statistics for periodically sampled host metrics.
//!
//! The crate keeps, for every metric, a bounded window of samples together
//! with its minimum, maximum and mean, and publishes the whole set as one
//! consistent snapshot.

pub mod cli;
pub mod cpu;
pub mod generic;
pub mod laws;
pub mod mem;
pub mod net;
pub mod opts;
pub mod registry;
pub mod ringbuf;
pub mod rolling;
pub mod sample;
pub mod schema;
pub mod systats;
pub mod text;
pub mod utils;

pub use opts::{init_opts, SysinfoOpts, CAPACITY, DEFAULT_WINDOW, MAX_WINDOW, MIN_WINDOW};
