//! Policy core of the VPN share gateway daemon.
pub mod text;
pub mod strset;
pub mod types;
pub mod android;
pub mod firewall;
pub mod engine;
pub mod bytes;
pub mod routing;
pub mod netlink;
pub mod device;
pub mod ipc;
pub mod envelope;
pub mod config;
pub mod keyed;
pub mod fingerprint;
