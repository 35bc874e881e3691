//! A registry of a host's hardware network interfaces and their traffic
//! counters, refreshed from the platform interface table.

pub mod addr;
pub mod table;
pub mod data;
pub mod registry;
pub mod laws;

pub use addr::{IpAddress, IpNetwork, MacAddr};
pub use data::NetworkDataInner;
pub use registry::NetworksInner;
pub use table::{group_sizes, IfRow, InterfaceGuid, MEDIA_CONNECT_STATE_DISCONNECTED};
