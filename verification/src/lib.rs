//! An active network-latency prober, as a library.
//!
//! A probe is a datagram that carries a sequence number and the time at which
//! it was sent. The library encodes and decodes probes, keeps the bounded
//! window of probes that are still awaited, matches replies to them by
//! sequence number alone, and summarises the observed latencies per calendar
//! minute.

pub mod checksum;
pub mod codec;
pub mod config;
pub mod frame;
pub mod prober;
pub mod render;
pub mod report;
pub mod tracker;
