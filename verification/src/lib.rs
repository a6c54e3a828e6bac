//! Core of a "looking glass" network diagnostic tool: parsers for the
//! line-oriented text that `traceroute` emits (per-hop hosts, round-trip
//! times, autonomous-system numbers) and the mapping from a requested
//! diagnostic command to the executable and argument vector to run.
//!
//! Everything here is pure computation on strings and plain values; running
//! the external tools and serving the results over HTTP live outside this
//! crate.

pub mod api;
pub mod asn;
pub mod error;
pub mod ip;
pub mod text;
pub mod traceroute;
