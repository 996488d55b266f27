//! Network telemetry for a desktop dashboard: which interfaces are shown and
//! under what label, the SSID in the output of the system's Wi-Fi tools, and
//! the per-interface byte rates computed from cumulative counters between two
//! polls.

pub mod interface;
pub mod sampler;
pub mod ssid;
pub mod stats;
pub mod text;
