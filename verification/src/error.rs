//! The errors of the library.

use crate::net_types::Ipv4Addr;
use crate::text::{append_decimal, decimal};
use vstd::prelude::*;

verus! {

/// What can go wrong.
#[derive(Debug)]
pub enum TetherError {
    Usb(String),
    UsbTransfer(String),
    Rndis(String),
    DeviceNotFound(String),
    Network(String),
    Dhcp(String),
    Arp(String),
    Config(String),
    Ipc(String),
    Io(String),
    InvalidIp(String),
    UnsupportedProtocol(String),
    BufferTooSmall { need: usize, got: usize },
    Timeout,
}

/// A [`TetherError`] with its text as a sequence of characters.
pub enum TetherErrorView {
    Usb(Seq<char>),
    UsbTransfer(Seq<char>),
    Rndis(Seq<char>),
    DeviceNotFound(Seq<char>),
    Network(Seq<char>),
    Dhcp(Seq<char>),
    Arp(Seq<char>),
    Config(Seq<char>),
    Ipc(Seq<char>),
    Io(Seq<char>),
    InvalidIp(Seq<char>),
    UnsupportedProtocol(Seq<char>),
    BufferTooSmall { need: nat, got: nat },
    Timeout,
}

impl View for TetherError {
    type V = TetherErrorView;

    open spec fn view(&self) -> TetherErrorView {
        match *self {
            TetherError::Usb(s) => TetherErrorView::Usb(s@),
            TetherError::UsbTransfer(s) => TetherErrorView::UsbTransfer(s@),
            TetherError::Rndis(s) => TetherErrorView::Rndis(s@),
            TetherError::DeviceNotFound(s) => TetherErrorView::DeviceNotFound(s@),
            TetherError::Network(s) => TetherErrorView::Network(s@),
            TetherError::Dhcp(s) => TetherErrorView::Dhcp(s@),
            TetherError::Arp(s) => TetherErrorView::Arp(s@),
            TetherError::Config(s) => TetherErrorView::Config(s@),
            TetherError::Ipc(s) => TetherErrorView::Ipc(s@),
            TetherError::Io(s) => TetherErrorView::Io(s@),
            TetherError::InvalidIp(s) => TetherErrorView::InvalidIp(s@),
            TetherError::UnsupportedProtocol(s) => TetherErrorView::UnsupportedProtocol(s@),
            TetherError::BufferTooSmall { need, got } => TetherErrorView::BufferTooSmall {
                need: need as nat,
                got: got as nat,
            },
            TetherError::Timeout => TetherErrorView::Timeout,
        }
    }
}

/// The error for a buffer of `got` bytes where `need` are needed.
pub open spec fn too_small(need: nat, got: nat) -> TetherErrorView {
    TetherErrorView::BufferTooSmall { need, got }
}

impl TetherErrorView {
    /// The message that a user reads.
    pub open spec fn text(self) -> Seq<char> {
        match self {
            TetherErrorView::Usb(s) => "USB error: "@ + s,
            TetherErrorView::UsbTransfer(s) => "USB transfer error: "@ + s,
            TetherErrorView::Rndis(s) => "RNDIS protocol error: "@ + s,
            TetherErrorView::DeviceNotFound(s) => "Device not found: "@ + s,
            TetherErrorView::Network(s) => "Network interface error: "@ + s,
            TetherErrorView::Dhcp(s) => "DHCP failed: "@ + s,
            TetherErrorView::Arp(s) => "ARP error: "@ + s,
            TetherErrorView::Config(s) => "Configuration error: "@ + s,
            TetherErrorView::Ipc(s) => "IPC error: "@ + s,
            TetherErrorView::Io(s) => "IO error: "@ + s,
            TetherErrorView::InvalidIp(s) => "Invalid IP address: "@ + s,
            TetherErrorView::UnsupportedProtocol(s) => "Protocol "@ + s + " not supported"@,
            TetherErrorView::BufferTooSmall { need, got } => "Buffer too small: need "@ + decimal(
                need,
            ) + " got "@ + decimal(got),
            TetherErrorView::Timeout => "Operation timed out"@,
        }
    }
}

fn labelled(label: &str, detail: &str) -> (r: String)
    ensures
        r@ == label@ + detail@,
{
    let mut out = label.to_owned();
    out.append(detail);
    out
}

impl TetherError {
    /// The message that a user reads.
    pub fn message(&self) -> (r: String)
        ensures
            r@ == self@.text(),
    {
        match self {
            TetherError::Usb(s) => labelled("USB error: ", s.as_str()),
            TetherError::UsbTransfer(s) => labelled("USB transfer error: ", s.as_str()),
            TetherError::Rndis(s) => labelled("RNDIS protocol error: ", s.as_str()),
            TetherError::DeviceNotFound(s) => labelled("Device not found: ", s.as_str()),
            TetherError::Network(s) => labelled("Network interface error: ", s.as_str()),
            TetherError::Dhcp(s) => labelled("DHCP failed: ", s.as_str()),
            TetherError::Arp(s) => labelled("ARP error: ", s.as_str()),
            TetherError::Config(s) => labelled("Configuration error: ", s.as_str()),
            TetherError::Ipc(s) => labelled("IPC error: ", s.as_str()),
            TetherError::Io(s) => labelled("IO error: ", s.as_str()),
            TetherError::InvalidIp(s) => labelled("Invalid IP address: ", s.as_str()),
            TetherError::UnsupportedProtocol(s) => {
                let mut out = labelled("Protocol ", s.as_str());
                out.append(" not supported");
                out
            },
            TetherError::BufferTooSmall { need, got } => {
                let mut out = "Buffer too small: need ".to_owned();
                append_decimal(&mut out, *need as u64);
                out.append(" got ");
                append_decimal(&mut out, *got as u64);
                out
            },
            TetherError::Timeout => "Operation timed out".to_owned(),
        }
    }
}

/// Reads a dotted-decimal address.
pub fn parse_ip4(s: &str) -> (r: Result<Ipv4Addr, TetherError>)
    ensures
        match Ipv4Addr::from_text(s@) {
            Some(ip) => r == Ok::<Ipv4Addr, TetherError>(ip),
            None => r matches Err(e) && e@ == TetherErrorView::InvalidIp(s@),
        },
{
    match Ipv4Addr::parse(s) {
        Some(ip) => Ok(ip),
        None => Err(TetherError::InvalidIp(s.to_owned())),
    }
}

/// The message for an error names its kind and then what is known of it, as it
/// is.
pub proof fn lemma_messages(s: Seq<char>, need: nat, got: nat)
    ensures
        TetherErrorView::Usb(s).text() == "USB error: "@ + s,
        TetherErrorView::UsbTransfer(s).text() == "USB transfer error: "@ + s,
        TetherErrorView::Rndis(s).text() == "RNDIS protocol error: "@ + s,
        TetherErrorView::DeviceNotFound(s).text() == "Device not found: "@ + s,
        TetherErrorView::Network(s).text() == "Network interface error: "@ + s,
        TetherErrorView::Dhcp(s).text() == "DHCP failed: "@ + s,
        TetherErrorView::Arp(s).text() == "ARP error: "@ + s,
        TetherErrorView::Config(s).text() == "Configuration error: "@ + s,
        TetherErrorView::Ipc(s).text() == "IPC error: "@ + s,
        TetherErrorView::Io(s).text() == "IO error: "@ + s,
        TetherErrorView::InvalidIp(s).text() == "Invalid IP address: "@ + s,
        TetherErrorView::UnsupportedProtocol(s).text() == "Protocol "@ + s + " not supported"@,
        too_small(need, got).text() == "Buffer too small: need "@ + decimal(need) + " got "@
            + decimal(got),
        TetherErrorView::Timeout.text() == "Operation timed out"@,
{
}

} // verus!
