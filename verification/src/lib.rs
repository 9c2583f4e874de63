//! Measurement of raw reads from the memory of a running process: finding the
//! process, reading its region map, choosing sample addresses on its heap and
//! keeping the statistics of timed runs over them.
//!
//! Beside it, what a comparison of hashing speed needs: digests in hexadecimal,
//! file sizes as text and the default files.
//!
//! The library touches no file, no process and no clock. Where a decision
//! depends on one of them, the caller is told what to do and hands in what came
//! of it.

pub mod benchmark;
pub mod chars;
pub mod digest;
pub mod error;
pub mod number;
pub mod paths;
pub mod process;
pub mod reader;
pub mod region;
pub mod runner;
pub mod sampler;
pub mod size;
pub mod statistics;
pub mod trusted;
