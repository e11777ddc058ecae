//! Directory of game servers grouped by region, with live player counts.
//!
//! The library parses the pipe-delimited server directory, keeps the current
//! directory in a store that is swapped as a whole, decides what a server's
//! status reply means, maps the legacy bulk feed onto the same shape, and
//! assembles and encodes the per-request payload.
pub mod spec;
pub mod text;
pub mod config;
pub mod json;
pub mod fetch;
pub mod official;
pub mod aggregate;
pub mod encode;
pub mod store;
