//! Counting what goes through.

use vstd::prelude::*;

verus! {

/// What has gone through so far.
#[derive(Debug, Clone, Copy, PartialEq, Eq, Structural)]
pub struct TetherStats {
    pub tx_bytes: u64,
    pub rx_bytes: u64,
    pub tx_pkts: u64,
    pub rx_pkts: u64,
}

/// The counters. They start again at zero behind the largest number.
#[derive(Debug, Clone, Copy, PartialEq, Eq, Structural)]
pub struct SharedStats {
    pub tx_bytes: u64,
    pub rx_bytes: u64,
    pub tx_pkts: u64,
    pub rx_pkts: u64,
}

impl Default for SharedStats {
    fn default() -> (r: Self)
        ensures
            r == (SharedStats { tx_bytes: 0, rx_bytes: 0, tx_pkts: 0, rx_pkts: 0 }),
    {
        SharedStats { tx_bytes: 0, rx_bytes: 0, tx_pkts: 0, rx_pkts: 0 }
    }
}

/// `a + b`, starting again at zero behind the largest number.
pub open spec fn wrapped_sum(a: u64, b: int) -> u64 {
    ((a + b) % 0x1_0000_0000_0000_0000) as u64
}

impl SharedStats {
    /// The counters after a packet of `len` bytes has been sent.
    pub open spec fn sent(self, len: int) -> SharedStats {
        SharedStats {
            tx_pkts: wrapped_sum(self.tx_pkts, 1),
            tx_bytes: wrapped_sum(self.tx_bytes, len),
            ..self
        }
    }

    /// The counters after a packet of `len` bytes has been received.
    pub open spec fn received(self, len: int) -> SharedStats {
        SharedStats {
            rx_pkts: wrapped_sum(self.rx_pkts, 1),
            rx_bytes: wrapped_sum(self.rx_bytes, len),
            ..self
        }
    }

    /// Counts a packet of `len` bytes that has been sent.
    pub fn record_tx(&mut self, len: usize)
        ensures
            *final(self) == old(self).sent(len as int),
    {
        self.tx_pkts = self.tx_pkts.wrapping_add(1);
        self.tx_bytes = self.tx_bytes.wrapping_add(len as u64);
    }

    /// Counts a packet of `len` bytes that has been received.
    pub fn record_rx(&mut self, len: usize)
        ensures
            *final(self) == old(self).received(len as int),
    {
        self.rx_pkts = self.rx_pkts.wrapping_add(1);
        self.rx_bytes = self.rx_bytes.wrapping_add(len as u64);
    }

    /// What has gone through so far.
    pub fn snapshot(&self) -> (r: TetherStats)
        ensures
            r == (TetherStats {
                tx_bytes: self.tx_bytes,
                rx_bytes: self.rx_bytes,
                tx_pkts: self.tx_pkts,
                rx_pkts: self.rx_pkts,
            }),
    {
        TetherStats {
            tx_bytes: self.tx_bytes,
            rx_bytes: self.rx_bytes,
            tx_pkts: self.tx_pkts,
            rx_pkts: self.rx_pkts,
        }
    }
}

impl TetherStats {
    /// The bytes that were sent and received since `earlier`.
    pub fn bytes_since(&self, earlier: &TetherStats) -> (r: (u64, u64))
        requires
            earlier.tx_bytes <= self.tx_bytes,
            earlier.rx_bytes <= self.rx_bytes,
        ensures
            r.0 == self.tx_bytes - earlier.tx_bytes,
            r.1 == self.rx_bytes - earlier.rx_bytes,
    {
        (self.tx_bytes - earlier.tx_bytes, self.rx_bytes - earlier.rx_bytes)
    }
}

/// Each packet is counted once, with its bytes, on the side where it went
/// through; the other side stays as it is. A counter that would pass the largest
/// number goes on from zero.
pub proof fn lemma_packets_are_counted(stats: SharedStats, len: nat)
    ensures
        stats.sent(len as int).rx_pkts == stats.rx_pkts,
        stats.sent(len as int).rx_bytes == stats.rx_bytes,
        stats.received(len as int).tx_pkts == stats.tx_pkts,
        stats.received(len as int).tx_bytes == stats.tx_bytes,
        stats.tx_pkts + 1 <= u64::MAX ==> stats.sent(len as int).tx_pkts == stats.tx_pkts + 1,
        stats.tx_bytes + len <= u64::MAX ==> stats.sent(len as int).tx_bytes == stats.tx_bytes
            + len,
        stats.rx_pkts + 1 <= u64::MAX ==> stats.received(len as int).rx_pkts == stats.rx_pkts + 1,
        stats.rx_bytes + len <= u64::MAX ==> stats.received(len as int).rx_bytes == stats.rx_bytes
            + len,
        stats.tx_pkts == u64::MAX ==> stats.sent(len as int).tx_pkts == 0,
        stats.rx_pkts == u64::MAX ==> stats.received(len as int).rx_pkts == 0,
        stats.tx_bytes + len > u64::MAX && len <= u64::MAX ==> stats.sent(len as int).tx_bytes
            == stats.tx_bytes + len - u64::MAX - 1,
        stats.rx_bytes + len > u64::MAX && len <= u64::MAX ==> stats.received(len as int).rx_bytes
            == stats.rx_bytes + len - u64::MAX - 1,
{
}

} // verus!
