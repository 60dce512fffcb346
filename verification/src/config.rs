//! The settings that a prober runs with.

use vstd::prelude::*;

verus! {

/// The settings of one run.
#[derive(Debug, Clone)]
pub struct Config {
    /// The name of the network interface to send from.
    pub alternative_interface: String,
    /// The time between two probes, in milliseconds.
    pub interval_millis: u64,
    /// The size of a probe's payload, in bytes.
    pub max_packet_size: usize,
    /// The most probes that the tracker keeps.
    pub max_queue_size: usize,
    /// The address of the target.
    pub public_ip_address: String,
    /// The UDP port of the target, and the port to listen on.
    pub target_port: u16,
    /// The port of the report.
    pub web_port: u16,
}

} // verus!
