//! USB tethering: the protocols, the rules and the decisions behind a bridge from
//! a tethering phone to a virtual network interface.

pub mod arp;
pub mod bytes;
pub mod checksum;
pub mod config;
pub mod crypto;
pub mod daemon;
pub mod dhcp;
pub mod dns_proxy;
pub mod dnscrypt;
pub mod error;
pub mod frame;
pub mod ipc;
pub mod net_types;
pub mod proto_driver;
pub mod proto_rndis;
pub mod rndis;
pub mod session;
pub mod stats;
pub mod text;
pub mod usb_device;
pub mod usb_io;
pub mod utun;
