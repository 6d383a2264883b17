//! Network quality measurement: the verified core.
//!
//! The library decides, counts and computes; it performs no I/O. A driver
//! around it opens sockets, reads the clock and hands the library plain events.

pub mod time;
pub mod wide;
pub mod exact;
pub mod stats;
pub mod counter;
pub mod body;
pub mod text;
pub mod util;
pub mod relay;
pub mod headers;
pub mod uri;
pub mod scoped_headers;
pub mod connection;
pub mod connections;
pub mod client;
pub mod load;
pub mod rpm;
pub mod responsiveness;
pub mod settling;
pub mod latency;
pub mod ranks;
pub mod wire;
pub mod data_channel;
pub mod packet_loss;
pub mod args;
pub mod access;
pub mod proxy;
pub mod rpm_config;
pub mod saturate;
pub mod up_down;
pub mod report;
pub mod aim;
