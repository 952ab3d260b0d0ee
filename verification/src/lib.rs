//! Verified core of a rollup test client and of its latency report.
//!
//! `text` normalises raw transaction strings, `number` reads and writes
//! integers, `csv` handles the arrival log, `latency` matches arrivals with
//! send times and summarises them, `client` holds the decisions of the
//! request loop, and `clock` reads the wall clock.

pub mod client;
pub mod clock;
pub mod csv;
pub mod latency;
pub mod number;
pub mod text;
