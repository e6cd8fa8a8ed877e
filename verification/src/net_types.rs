//! Addresses, headers and constants of the network protocols in use.

use crate::bytes::{
    append, be16, be16_at, be16_bytes, be32, be32_bytes, lemma_be16_bytes, lemma_be16_roundtrip,
    lemma_be32_bytes, lemma_be32_roundtrip, read_be16, read_be32,
};
use crate::text::{
    append_decimal, append_hex_pair, chars_of, decimal, decimal_digit, digit_value, hex_pair,
    is_digit, lemma_decimal_short,
};
use vstd::prelude::*;

verus! {

pub const RNDIS_BUF_SIZE: usize = 32768;

pub const ETH_BUF_SIZE: usize = 2048;

pub const ETH_HDR_SIZE: usize = 14;

pub const ARP_PACKET_SIZE: usize = 28;

pub const IPV4_ETHERTYPE: u16 = 0x0800;

pub const IPV6_ETHERTYPE: u16 = 0x86DD;

pub const ARP_ETHERTYPE: u16 = 0x0806;

pub const ARP_HW_ETHERNET: u16 = 1;

pub const ARP_OP_REQUEST: u16 = 1;

pub const ARP_OP_REPLY: u16 = 2;

pub const DHCP_SERVER_PORT: u16 = 67;

pub const DHCP_CLIENT_PORT: u16 = 68;

pub const DHCP_MAGIC_COOKIE: u32 = 0x63825363;

pub const DEFAULT_STATIC_IP: &'static str = "192.168.42.100";

pub const DEFAULT_GATEWAY: &'static str = "192.168.42.129";

pub const DEFAULT_NETMASK: &'static str = "255.255.255.0";

pub const DEFAULT_DNS1: &'static str = "8.8.8.8";

pub const DEFAULT_DNS2: &'static str = "8.8.4.4";

/// An IPv4 address: its four octets as one number, the first octet on top.
#[derive(Debug, Clone, Copy, PartialEq, Eq, Structural)]
pub struct Ipv4Addr {
    pub bits: u32,
}

/// Whether the text of the number `a` stands in `s` from `i` to `j` with no
/// further digit behind it.
spec fn octet_at(s: Seq<char>, i: int, a: u8, j: int) -> bool {
    &&& 0 <= i <= j <= s.len()
    &&& s.subrange(i, j) == decimal(a as nat)
    &&& (j < s.len() ==> !is_digit(s[j]))
}

proof fn lemma_octet_text(a: u8)
    ensures
        1 <= decimal(a as nat).len() <= 3,
        forall|k: int| 0 <= k < decimal(a as nat).len() ==> is_digit(#[trigger] decimal(a as nat)[k]),
        decimal(a as nat).len() > 1 ==> digit_value(decimal(a as nat)[0]) != 0,
        decimal(a as nat).len() == 1 ==> a == digit_value(decimal(a as nat)[0]),
        decimal(a as nat).len() == 2 ==> a == 10 * digit_value(decimal(a as nat)[0]) + digit_value(
            decimal(a as nat)[1],
        ),
        decimal(a as nat).len() == 3 ==> a == 100 * digit_value(decimal(a as nat)[0]) + 10
            * digit_value(decimal(a as nat)[1]) + digit_value(decimal(a as nat)[2]),
{
    lemma_decimal_short(a as nat);
}

proof fn lemma_octet_unique(s: Seq<char>, i: int, a: u8, j: int, b: u8, k: int)
    requires
        octet_at(s, i, a, j),
        octet_at(s, i, b, k),
    ensures
        a == b,
        j == k,
{
    lemma_octet_text(a);
    lemma_octet_text(b);
    let da = decimal(a as nat);
    let db = decimal(b as nat);
    assert(s.subrange(i, j).len() == j - i);
    assert(s.subrange(i, k).len() == k - i);
    if j < k {
        assert(s[j] == s.subrange(i, k)[j - i]);
        assert(is_digit(db[j - i]));
    }
    if k < j {
        assert(s[k] == s.subrange(i, j)[k - i]);
        assert(is_digit(da[k - i]));
    }
}

/// Reads the decimal number below 256 that starts at `i`.
fn read_octet(s: &[char], i: usize) -> (r: Option<(u8, usize)>)
    requires
        i <= s@.len(),
    ensures
        match r {
            Some((a, j)) => octet_at(s@, i as int, a, j as int),
            None => forall|a: u8, j: int| !octet_at(s@, i as int, a, j),
        },
{
    proof {
        assert forall|a: u8, j: int| octet_at(s@, i as int, a, j) implies 1 <= j - i <= 3 && (
        forall|k: int| i <= k < j ==> is_digit(#[trigger] s@[k])) && (j - i > 1 ==> digit_value(
            s@[i as int],
        ) != 0) && (j - i == 1 ==> a == digit_value(s@[i as int])) && (j - i == 2 ==> a == 10
            * digit_value(s@[i as int]) + digit_value(s@[i + 1])) && (j - i == 3 ==> a == 100
            * digit_value(s@[i as int]) + 10 * digit_value(s@[i + 1]) + digit_value(s@[i + 2])) by {
            lemma_octet_text(a);
            let d = decimal(a as nat);
            assert(s@.subrange(i as int, j).len() == j - i);
            assert forall|k: int| i <= k < j implies is_digit(#[trigger] s@[k]) by {
                assert(s@[k] == s@.subrange(i as int, j)[k - i]);
                assert(is_digit(d[k - i]));
            }
            assert(s@[i as int] == s@.subrange(i as int, j)[0]);
            if j - i > 1 {
                assert(s@[i + 1] == s@.subrange(i as int, j)[1]);
            }
            if j - i > 2 {
                assert(s@[i + 2] == s@.subrange(i as int, j)[2]);
            }
        }
    }
    let n = s.len();
    if i >= n {
        return None;
    }
    let d0 = match decimal_digit(s[i]) {
        Some(d) => d,
        None => return None,
    };
    let second: Option<u8> = if n - i > 1 {
        decimal_digit(s[i + 1])
    } else {
        None
    };
    let d1 = match second {
        None => {
            proof {
                lemma_decimal_short(d0 as nat);
                assert(s@.subrange(i as int, i + 1) =~= decimal(d0 as nat));
            }
            return Some((d0, i + 1));
        },
        Some(d) => d,
    };
    let third: Option<u8> = if n - i > 2 {
        decimal_digit(s[i + 2])
    } else {
        None
    };
    if d0 == 0 {
        return None;
    }
    let d2 = match third {
        None => {
            let v: u8 = d0 * 10 + d1;
            proof {
                lemma_decimal_short(v as nat);
                assert(v / 10 == d0 && v % 10 == d1);
                assert(s@.subrange(i as int, i + 2) =~= decimal(v as nat));
            }
            return Some((v, i + 2));
        },
        Some(d) => d,
    };
    if n - i > 3 && decimal_digit(s[i + 3]).is_some() {
        return None;
    }
    let v: u32 = (d0 as u32) * 100 + (d1 as u32) * 10 + d2 as u32;
    if v > 255 {
        return None;
    }
    proof {
        lemma_decimal_short(v as nat);
        assert(v / 100 == d0 && v / 10 % 10 == d1 && v % 10 == d2);
        assert(s@.subrange(i as int, i + 3) =~= decimal(v as nat));
    }
    Some((v as u8, i + 3))
}

impl Ipv4Addr {
    /// One of the four octets, the first of them at index zero.
    pub open spec fn octet(self, i: int) -> u8 {
        be32(self.bits)[i]
    }

    /// The dotted-decimal form.
    pub open spec fn text(self) -> Seq<char> {
        decimal(self.octet(0) as nat) + seq!['.'] + decimal(self.octet(1) as nat) + seq!['.']
            + decimal(self.octet(2) as nat) + seq!['.'] + decimal(self.octet(3) as nat)
    }

    /// The address whose dotted-decimal form is `s`, if there is one.
    pub open spec fn from_text(s: Seq<char>) -> Option<Ipv4Addr> {
        if exists|ip: Ipv4Addr| #[trigger] ip.text() == s {
            Some(choose|ip: Ipv4Addr| #[trigger] ip.text() == s)
        } else {
            None
        }
    }

    /// The address with the given octets.
    pub fn new(a: u8, b: u8, c: u8, d: u8) -> (r: Ipv4Addr)
        ensures
            be32(r.bits) == seq![a, b, c, d],
    {
        let octets = [a, b, c, d];
        let bits = read_be32(&octets, 0);
        proof {
            lemma_be32_bytes(octets@, 0);
            assert(octets@.subrange(0, 4) =~= seq![a, b, c, d]);
        }
        Ipv4Addr { bits }
    }

    /// The four octets.
    pub fn octets(&self) -> (r: [u8; 4])
        ensures
            r@ == be32(self.bits),
    {
        be32_bytes(self.bits)
    }

    /// Appends the dotted-decimal form.
    pub fn append_text(&self, out: &mut String)
        ensures
            final(out)@ == old(out)@ + self.text(),
    {
        let ghost before = out@;
        proof {
            reveal_strlit(".");
        }
        let o = self.octets();
        append_decimal(out, o[0] as u64);
        out.append(".");
        append_decimal(out, o[1] as u64);
        out.append(".");
        append_decimal(out, o[2] as u64);
        out.append(".");
        append_decimal(out, o[3] as u64);
        assert("."@ =~= seq!['.']);
        assert(out@ =~= before + self.text());
    }

    /// The dotted-decimal form.
    pub fn to_text(&self) -> (r: String)
        ensures
            r@ == self.text(),
    {
        let mut out = String::new();
        self.append_text(&mut out);
        assert(out@ =~= self.text());
        out
    }

    /// Reads a dotted-decimal address: four numbers below 256 without leading
    /// zeros, with dots between them and nothing else.
    pub fn parse(s: &str) -> (r: Option<Ipv4Addr>)
        ensures
            r == Ipv4Addr::from_text(s@),
    {
        let chars = chars_of(s);
        Ipv4Addr::parse_chars(chars.as_slice())
    }

    /// Reads a dotted-decimal address.
    pub fn parse_chars(c: &[char]) -> (r: Option<Ipv4Addr>)
        ensures
            r == Ipv4Addr::from_text(c@),
    {
        let ghost s = c;
        proof {
            assert forall|ip: Ipv4Addr| #[trigger] ip.text() == s@ implies exists|
                j0: int,
                j1: int,
                j2: int,
            | ip.laid_out(s@, j0, j1, j2) by {
                ip.lemma_layout();
            }
        }
        let (a, j0) = match read_octet(c, 0) {
            Some(p) => p,
            None => return None,
        };
        if j0 >= c.len() || c[j0] != '.' {
            proof {
                Ipv4Addr::lemma_stuck(s@, a, j0 as int);
            }
            return None;
        }
        let (b, j1) = match read_octet(c, j0 + 1) {
            Some(p) => p,
            None => {
                proof {
                    Ipv4Addr::lemma_stuck(s@, a, j0 as int);
                }
                return None;
            },
        };
        proof {
            Ipv4Addr::lemma_stuck(s@, a, j0 as int);
            Ipv4Addr::lemma_stuck_second(s@, a, j0 as int, b, j1 as int);
        }
        if j1 >= c.len() || c[j1] != '.' {
            return None;
        }
        let (d, j2) = match read_octet(c, j1 + 1) {
            Some(p) => p,
            None => return None,
        };
        proof {
            Ipv4Addr::lemma_stuck_third(s@, a, j0 as int, b, j1 as int, d, j2 as int);
        }
        if j2 >= c.len() || c[j2] != '.' {
            return None;
        }
        let (e, j3) = match read_octet(c, j2 + 1) {
            Some(p) => p,
            None => return None,
        };
        if j3 != c.len() {
            proof {
                assert forall|ip: Ipv4Addr| #[trigger] ip.text() == s@ implies false by {
                    ip.lemma_layout();
                    lemma_octet_unique(
                        s@,
                        j2 + 1,
                        e,
                        j3 as int,
                        ip.octet(3),
                        s@.len() as int,
                    );
                }
            }
            return None;
        }
        let ip = Ipv4Addr::new(a, b, d, e);
        proof {
            assert(ip.octet(0) == a && ip.octet(1) == b && ip.octet(2) == d && ip.octet(3) == e);
            assert(s@.subrange(0, j0 as int) + seq!['.'] + s@.subrange(j0 + 1, j1 as int) + seq![
                '.',
            ] + s@.subrange(j1 + 1, j2 as int) + seq!['.'] + s@.subrange(j2 + 1, j3 as int) =~= s@);
            assert(ip.text() == s@);
            let found = choose|x: Ipv4Addr| #[trigger] x.text() == s@;
            lemma_text_injective(ip, found);
        }
        Some(ip)
    }

    /// Where the octets of this address stand in its text.
    spec fn laid_out(self, s: Seq<char>, j0: int, j1: int, j2: int) -> bool {
        &&& octet_at(s, 0, self.octet(0), j0)
        &&& j0 < s.len() && s[j0] == '.'
        &&& octet_at(s, j0 + 1, self.octet(1), j1)
        &&& j1 < s.len() && s[j1] == '.'
        &&& octet_at(s, j1 + 1, self.octet(2), j2)
        &&& j2 < s.len() && s[j2] == '.'
        &&& octet_at(s, j2 + 1, self.octet(3), s.len() as int)
    }

    proof fn lemma_layout(self)
        ensures
            exists|j0: int, j1: int, j2: int| self.laid_out(self.text(), j0, j1, j2),
    {
        let s = self.text();
        let d0 = decimal(self.octet(0) as nat);
        let d1 = decimal(self.octet(1) as nat);
        let d2 = decimal(self.octet(2) as nat);
        let d3 = decimal(self.octet(3) as nat);
        let j0 = d0.len() as int;
        let j1 = j0 + 1 + d1.len();
        let j2 = j1 + 1 + d2.len();
        assert(s.subrange(0, j0) =~= d0);
        assert(s.subrange(j0 + 1, j1) =~= d1);
        assert(s.subrange(j1 + 1, j2) =~= d2);
        assert(s.subrange(j2 + 1, s.len() as int) =~= d3);
        assert(s[j0] == '.' && s[j1] == '.' && s[j2] == '.');
        assert(!is_digit('.'));
        assert(self.laid_out(s, j0, j1, j2));
    }

    proof fn lemma_stuck(s: Seq<char>, a: u8, j0: int)
        requires
            octet_at(s, 0, a, j0),
        ensures
            forall|ip: Ipv4Addr, k0: int, k1: int, k2: int| #[trigger]
                ip.laid_out(s, k0, k1, k2) ==> ip.octet(0) == a && k0 == j0,
    {
        assert forall|ip: Ipv4Addr, k0: int, k1: int, k2: int| #[trigger]
            ip.laid_out(s, k0, k1, k2) implies ip.octet(0) == a && k0 == j0 by {
            lemma_octet_unique(s, 0, a, j0, ip.octet(0), k0);
        }
    }

    proof fn lemma_stuck_second(s: Seq<char>, a: u8, j0: int, b: u8, j1: int)
        requires
            octet_at(s, 0, a, j0),
            octet_at(s, j0 + 1, b, j1),
        ensures
            forall|ip: Ipv4Addr, k0: int, k1: int, k2: int| #[trigger]
                ip.laid_out(s, k0, k1, k2) ==> k0 == j0 && k1 == j1,
    {
        Ipv4Addr::lemma_stuck(s, a, j0);
        assert forall|ip: Ipv4Addr, k0: int, k1: int, k2: int| #[trigger]
            ip.laid_out(s, k0, k1, k2) implies k0 == j0 && k1 == j1 by {
            lemma_octet_unique(s, j0 + 1, b, j1, ip.octet(1), k1);
        }
    }

    proof fn lemma_stuck_third(s: Seq<char>, a: u8, j0: int, b: u8, j1: int, d: u8, j2: int)
        requires
            octet_at(s, 0, a, j0),
            octet_at(s, j0 + 1, b, j1),
            octet_at(s, j1 + 1, d, j2),
        ensures
            forall|ip: Ipv4Addr, k0: int, k1: int, k2: int| #[trigger]
                ip.laid_out(s, k0, k1, k2) ==> k0 == j0 && k1 == j1 && k2 == j2,
    {
        Ipv4Addr::lemma_stuck_second(s, a, j0, b, j1);
        assert forall|ip: Ipv4Addr, k0: int, k1: int, k2: int| #[trigger]
            ip.laid_out(s, k0, k1, k2) implies k0 == j0 && k1 == j1 && k2 == j2 by {
            lemma_octet_unique(s, j1 + 1, d, j2, ip.octet(2), k2);
        }
    }
}

/// Two addresses with the same dotted-decimal form are the same address.
pub proof fn lemma_text_injective(a: Ipv4Addr, b: Ipv4Addr)
    requires
        a.text() == b.text(),
    ensures
        a == b,
{
    let s = a.text();
    a.lemma_layout();
    b.lemma_layout();
    let (i0, i1, i2) = choose|j0: int, j1: int, j2: int| a.laid_out(s, j0, j1, j2);
    let (k0, k1, k2) = choose|j0: int, j1: int, j2: int| b.laid_out(s, j0, j1, j2);
    lemma_octet_unique(s, 0, a.octet(0), i0, b.octet(0), k0);
    lemma_octet_unique(s, i0 + 1, a.octet(1), i1, b.octet(1), k1);
    lemma_octet_unique(s, i1 + 1, a.octet(2), i2, b.octet(2), k2);
    lemma_octet_unique(s, i2 + 1, a.octet(3), s.len() as int, b.octet(3), s.len() as int);
    assert(be32(a.bits) =~= be32(b.bits));
    lemma_be32_roundtrip(a.bits);
    lemma_be32_roundtrip(b.bits);
}

/// Reading the dotted-decimal form of an address gives the address back.
pub proof fn lemma_ipv4_text_roundtrip(ip: Ipv4Addr)
    ensures
        Ipv4Addr::from_text(ip.text()) == Some(ip),
{
    let found = choose|x: Ipv4Addr| #[trigger] x.text() == ip.text();
    lemma_text_injective(ip, found);
}

/// The address that [`DEFAULT_STATIC_IP`] reads as.
pub open spec fn static_ip_default() -> Ipv4Addr {
    Ipv4Addr { bits: 0xC0A8_2A64 }
}

/// The address that [`DEFAULT_GATEWAY`] reads as.
pub open spec fn gateway_default() -> Ipv4Addr {
    Ipv4Addr { bits: 0xC0A8_2A81 }
}

/// The address that [`DEFAULT_NETMASK`] reads as.
pub open spec fn netmask_default() -> Ipv4Addr {
    Ipv4Addr { bits: 0xFFFF_FF00 }
}

/// The address that [`DEFAULT_DNS1`] reads as.
pub open spec fn dns1_default() -> Ipv4Addr {
    Ipv4Addr { bits: 0x0808_0808 }
}

/// The address that [`DEFAULT_DNS2`] reads as.
pub open spec fn dns2_default() -> Ipv4Addr {
    Ipv4Addr { bits: 0x0808_0404 }
}

proof fn lemma_default_texts()
    ensures
        static_ip_default().text() == DEFAULT_STATIC_IP@,
        gateway_default().text() == DEFAULT_GATEWAY@,
        netmask_default().text() == DEFAULT_NETMASK@,
        dns1_default().text() == DEFAULT_DNS1@,
        dns2_default().text() == DEFAULT_DNS2@,
{
    reveal_strlit("192.168.42.100");
    reveal_strlit("192.168.42.129");
    reveal_strlit("255.255.255.0");
    reveal_strlit("8.8.8.8");
    reveal_strlit("8.8.4.4");
    lemma_decimal_short(192);
    lemma_decimal_short(168);
    lemma_decimal_short(42);
    lemma_decimal_short(100);
    lemma_decimal_short(129);
    lemma_decimal_short(255);
    lemma_decimal_short(0);
    lemma_decimal_short(8);
    lemma_decimal_short(4);
    assert(static_ip_default().text() =~= DEFAULT_STATIC_IP@);
    assert(gateway_default().text() =~= DEFAULT_GATEWAY@);
    assert(netmask_default().text() =~= DEFAULT_NETMASK@);
    assert(dns1_default().text() =~= DEFAULT_DNS1@);
    assert(dns2_default().text() =~= DEFAULT_DNS2@);
}

/// The default addresses are what their texts read as.
pub proof fn lemma_default_addresses()
    ensures
        Ipv4Addr::from_text(DEFAULT_STATIC_IP@) == Some(static_ip_default()),
        Ipv4Addr::from_text(DEFAULT_GATEWAY@) == Some(gateway_default()),
        Ipv4Addr::from_text(DEFAULT_NETMASK@) == Some(netmask_default()),
        Ipv4Addr::from_text(DEFAULT_DNS1@) == Some(dns1_default()),
        Ipv4Addr::from_text(DEFAULT_DNS2@) == Some(dns2_default()),
{
    lemma_default_texts();
    lemma_ipv4_text_roundtrip(static_ip_default());
    lemma_ipv4_text_roundtrip(gateway_default());
    lemma_ipv4_text_roundtrip(netmask_default());
    lemma_ipv4_text_roundtrip(dns1_default());
    lemma_ipv4_text_roundtrip(dns2_default());
}

/// An address and a port.
#[derive(Debug, Clone, Copy, PartialEq, Eq, Structural)]
pub struct SocketAddr {
    pub ip: Ipv4Addr,
    pub port: u16,
}

/// The six bytes from `at` on.
pub fn array6(buf: &[u8], at: usize) -> (r: [u8; 6])
    requires
        at + 6 <= buf@.len(),
    ensures
        r@ == buf@.subrange(at as int, at + 6),
{
    let r = [buf[at], buf[at + 1], buf[at + 2], buf[at + 3], buf[at + 4], buf[at + 5]];
    assert(r@ =~= buf@.subrange(at as int, at + 6));
    r
}

/// An Ethernet header.
#[derive(Debug, Clone, Copy)]
pub struct EthHdr {
    pub dst: [u8; 6],
    pub src: [u8; 6],
    pub ethertype: u16,
}

impl EthHdr {
    /// The header on the wire.
    pub open spec fn bytes(self) -> Seq<u8> {
        self.dst@ + self.src@ + be16(self.ethertype)
    }

    /// Appends the header as it stands on the wire.
    pub fn append_to(&self, out: &mut Vec<u8>)
        ensures
            final(out)@ == old(out)@ + self.bytes(),
    {
        let ghost before = out@;
        append(out, &self.dst);
        append(out, &self.src);
        append(out, &be16_bytes(self.ethertype));
        assert(out@ =~= before + self.bytes());
    }

    /// Reads the header at the start of a frame.
    pub fn read(frame: &[u8]) -> (r: EthHdr)
        requires
            frame@.len() >= ETH_HDR_SIZE,
        ensures
            r.bytes() == frame@.subrange(0, 14),
            r.dst@ == frame@.subrange(0, 6),
            r.src@ == frame@.subrange(6, 12),
            r.ethertype == be16_at(frame@, 12),
    {
        let r = EthHdr {
            dst: array6(frame, 0),
            src: array6(frame, 6),
            ethertype: read_be16(frame, 12),
        };
        proof {
            lemma_be16_bytes(frame@, 12);
            assert(r.bytes() =~= frame@.subrange(0, 14));
        }
        r
    }
}

/// An ARP packet for IPv4 over Ethernet.
#[derive(Debug, Clone, Copy)]
pub struct ArpPacket {
    pub hw_type: u16,
    pub proto_type: u16,
    pub hw_len: u8,
    pub proto_len: u8,
    pub opcode: u16,
    pub sender_mac: [u8; 6],
    pub sender_ip: u32,
    pub target_mac: [u8; 6],
    pub target_ip: u32,
}

impl ArpPacket {
    /// The packet on the wire.
    pub open spec fn bytes(self) -> Seq<u8> {
        be16(self.hw_type) + be16(self.proto_type) + seq![self.hw_len, self.proto_len] + be16(
            self.opcode,
        ) + self.sender_mac@ + be32(self.sender_ip) + self.target_mac@ + be32(self.target_ip)
    }

    /// Appends the packet as it stands on the wire.
    pub fn append_to(&self, out: &mut Vec<u8>)
        ensures
            final(out)@ == old(out)@ + self.bytes(),
    {
        let ghost before = out@;
        append(out, &be16_bytes(self.hw_type));
        append(out, &be16_bytes(self.proto_type));
        out.push(self.hw_len);
        out.push(self.proto_len);
        append(out, &be16_bytes(self.opcode));
        append(out, &self.sender_mac);
        append(out, &be32_bytes(self.sender_ip));
        append(out, &self.target_mac);
        append(out, &be32_bytes(self.target_ip));
        assert(out@ =~= before + self.bytes());
    }

    /// Reads the packet that starts at `at`.
    pub fn read(buf: &[u8], at: usize) -> (r: ArpPacket)
        requires
            at + ARP_PACKET_SIZE <= buf@.len(),
        ensures
            r.bytes() == buf@.subrange(at as int, at + 28),
    {
        let size = buf.len();
        assert(at + 28 <= size);
        let r = ArpPacket {
            hw_type: read_be16(buf, at),
            proto_type: read_be16(buf, at + 2),
            hw_len: buf[at + 4],
            proto_len: buf[at + 5],
            opcode: read_be16(buf, at + 6),
            sender_mac: array6(buf, at + 8),
            sender_ip: read_be32(buf, at + 14),
            target_mac: array6(buf, at + 18),
            target_ip: read_be32(buf, at + 24),
        };
        proof {
            lemma_be16_bytes(buf@, at as int);
            lemma_be16_bytes(buf@, at + 2);
            lemma_be16_bytes(buf@, at + 6);
            lemma_be32_bytes(buf@, at + 14);
            lemma_be32_bytes(buf@, at + 24);
            assert(r.bytes() =~= buf@.subrange(at as int, at + 28));
        }
        r
    }
}

/// Two ARP packets that read the same on the wire are the same packet.
pub proof fn lemma_arp_bytes_injective(a: ArpPacket, b: ArpPacket)
    requires
        a.bytes() == b.bytes(),
    ensures
        a.hw_type == b.hw_type,
        a.proto_type == b.proto_type,
        a.hw_len == b.hw_len,
        a.proto_len == b.proto_len,
        a.opcode == b.opcode,
        a.sender_mac@ == b.sender_mac@,
        a.sender_ip == b.sender_ip,
        a.target_mac@ == b.target_mac@,
        a.target_ip == b.target_ip,
{
    let s = a.bytes();
    let t = b.bytes();
    assert(be16(a.hw_type) =~= s.subrange(0, 2));
    assert(be16(b.hw_type) =~= t.subrange(0, 2));
    assert(be16(a.proto_type) =~= s.subrange(2, 4));
    assert(be16(b.proto_type) =~= t.subrange(2, 4));
    assert(s[4] == a.hw_len && t[4] == b.hw_len);
    assert(s[5] == a.proto_len && t[5] == b.proto_len);
    assert(be16(a.opcode) =~= s.subrange(6, 8));
    assert(be16(b.opcode) =~= t.subrange(6, 8));
    assert(a.sender_mac@ =~= s.subrange(8, 14));
    assert(b.sender_mac@ =~= t.subrange(8, 14));
    assert(be32(a.sender_ip) =~= s.subrange(14, 18));
    assert(be32(b.sender_ip) =~= t.subrange(14, 18));
    assert(a.target_mac@ =~= s.subrange(18, 24));
    assert(b.target_mac@ =~= t.subrange(18, 24));
    assert(be32(a.target_ip) =~= s.subrange(24, 28));
    assert(be32(b.target_ip) =~= t.subrange(24, 28));
    lemma_be16_roundtrip(a.hw_type);
    lemma_be16_roundtrip(b.hw_type);
    lemma_be16_roundtrip(a.proto_type);
    lemma_be16_roundtrip(b.proto_type);
    lemma_be16_roundtrip(a.opcode);
    lemma_be16_roundtrip(b.opcode);
    lemma_be32_roundtrip(a.sender_ip);
    lemma_be32_roundtrip(b.sender_ip);
    lemma_be32_roundtrip(a.target_ip);
    lemma_be32_roundtrip(b.target_ip);
}

/// A DHCP message.
pub struct DhcpPacket {
    pub op: u8,
    pub htype: u8,
    pub hlen: u8,
    pub hops: u8,
    pub xid: u32,
    pub secs: u16,
    pub flags: u16,
    pub ciaddr: u32,
    pub yiaddr: u32,
    pub siaddr: u32,
    pub giaddr: u32,
    pub chaddr: [u8; 16],
    pub sname: [u8; 64],
    pub file: [u8; 128],
    pub magic: u32,
    pub options: [u8; 312],
}

/// `n` zero bytes.
pub open spec fn zeros(n: nat) -> Seq<u8> {
    Seq::new(n, |i: int| 0u8)
}

impl DhcpPacket {
    /// The part in front of the options, on the wire.
    pub open spec fn fixed_bytes(self) -> Seq<u8> {
        seq![self.op, self.htype, self.hlen, self.hops] + be32(self.xid) + be16(self.secs) + be16(
            self.flags,
        ) + be32(self.ciaddr) + be32(self.yiaddr) + be32(self.siaddr) + be32(self.giaddr)
            + self.chaddr@ + self.sname@ + self.file@ + be32(self.magic)
    }

    /// Appends the part in front of the options as it stands on the wire.
    pub fn append_fixed_to(&self, out: &mut Vec<u8>)
        ensures
            final(out)@ == old(out)@ + self.fixed_bytes(),
    {
        let ghost before = out@;
        out.push(self.op);
        out.push(self.htype);
        out.push(self.hlen);
        out.push(self.hops);
        append(out, &be32_bytes(self.xid));
        append(out, &be16_bytes(self.secs));
        append(out, &be16_bytes(self.flags));
        append(out, &be32_bytes(self.ciaddr));
        append(out, &be32_bytes(self.yiaddr));
        append(out, &be32_bytes(self.siaddr));
        append(out, &be32_bytes(self.giaddr));
        append(out, &self.chaddr);
        append(out, &self.sname);
        append(out, &self.file);
        append(out, &be32_bytes(self.magic));
        assert(out@ =~= before + self.fixed_bytes());
    }
}

impl Default for DhcpPacket {
    fn default() -> (r: Self)
        ensures
            r.op == 0 && r.htype == 0 && r.hlen == 0 && r.hops == 0,
            r.xid == 0 && r.secs == 0 && r.flags == 0,
            r.ciaddr == 0 && r.yiaddr == 0 && r.siaddr == 0 && r.giaddr == 0,
            r.chaddr@ == zeros(16),
            r.sname@ == zeros(64),
            r.file@ == zeros(128),
            r.magic == 0,
            r.options@ == zeros(312),
    {
        let r = DhcpPacket {
            op: 0,
            htype: 0,
            hlen: 0,
            hops: 0,
            xid: 0,
            secs: 0,
            flags: 0,
            ciaddr: 0,
            yiaddr: 0,
            siaddr: 0,
            giaddr: 0,
            chaddr: [0u8; 16],
            sname: [0u8; 64],
            file: [0u8; 128],
            magic: 0,
            options: [0u8; 312],
        };
        assert(r.chaddr@ =~= zeros(16));
        assert(r.sname@ =~= zeros(64));
        assert(r.file@ =~= zeros(128));
        assert(r.options@ =~= zeros(312));
        r
    }
}

/// A hardware address.
#[derive(Debug, Clone, Copy)]
pub struct MacAddr(pub [u8; 6]);

impl MacAddr {
    /// Two digits for each byte, with colons between them.
    pub open spec fn text(self) -> Seq<char> {
        hex_pair(self.0@[0]) + seq![':'] + hex_pair(self.0@[1]) + seq![':'] + hex_pair(self.0@[2])
            + seq![':'] + hex_pair(self.0@[3]) + seq![':'] + hex_pair(self.0@[4]) + seq![':']
            + hex_pair(self.0@[5])
    }

    /// The address with these bytes.
    pub fn new(bytes: [u8; 6]) -> (r: Self)
        ensures
            r.0 == bytes,
    {
        MacAddr(bytes)
    }

    /// The address of everyone.
    pub fn broadcast() -> (r: Self)
        ensures
            r.0@ == Seq::new(6, |i: int| 0xFFu8),
    {
        let r = MacAddr([0xFF, 0xFF, 0xFF, 0xFF, 0xFF, 0xFF]);
        assert(r.0@ =~= Seq::new(6, |i: int| 0xFFu8));
        r
    }

    /// Whether this is the address of everyone.
    pub fn is_broadcast(&self) -> (r: bool)
        ensures
            r == (self.0@ == Seq::new(6, |i: int| 0xFFu8)),
    {
        let b = self.0;
        let r = b[0] == 0xFF && b[1] == 0xFF && b[2] == 0xFF && b[3] == 0xFF && b[4] == 0xFF && b[5]
            == 0xFF;
        proof {
            let all = Seq::new(6, |i: int| 0xFFu8);
            if r {
                assert(self.0@ =~= all);
            }
            assert(all[0] == 0xFF && all[1] == 0xFF && all[2] == 0xFF && all[3] == 0xFF && all[4]
                == 0xFF && all[5] == 0xFF);
        }
        r
    }

    /// Two digits for each byte, with colons between them.
    pub fn to_text(&self) -> (r: String)
        ensures
            r@ == self.text(),
    {
        proof {
            reveal_strlit(":");
        }
        let b = self.0;
        let mut out = String::new();
        append_hex_pair(&mut out, b[0]);
        out.append(":");
        append_hex_pair(&mut out, b[1]);
        out.append(":");
        append_hex_pair(&mut out, b[2]);
        out.append(":");
        append_hex_pair(&mut out, b[3]);
        out.append(":");
        append_hex_pair(&mut out, b[4]);
        out.append(":");
        append_hex_pair(&mut out, b[5]);
        assert(":"@ =~= seq![':']);
        assert(out@ =~= self.text());
        out
    }
}

impl From<[u8; 6]> for MacAddr {
    fn from(b: [u8; 6]) -> (r: Self) {
        MacAddr(b)
    }
}

impl vstd::std_specs::convert::FromSpecImpl<[u8; 6]> for MacAddr {
    open spec fn obeys_from_spec() -> bool {
        true
    }

    open spec fn from_spec(b: [u8; 6]) -> Self {
        MacAddr(b)
    }
}

/// What a DHCP server has handed out.
#[derive(Debug, Clone, Copy, PartialEq, Eq, Structural)]
pub struct DhcpLease {
    pub ip: Ipv4Addr,
    pub gateway: Ipv4Addr,
    pub netmask: Ipv4Addr,
    pub dns1: Ipv4Addr,
    pub dns2: Ipv4Addr,
}

/// The dotted-decimal form of an address is never empty.
pub proof fn lemma_text_not_empty(ip: Ipv4Addr)
    ensures
        ip.text().len() >= 7,
{
    lemma_octet_text(ip.octet(0));
    lemma_octet_text(ip.octet(1));
    lemma_octet_text(ip.octet(2));
    lemma_octet_text(ip.octet(3));
}

/// An address is read from a text only if the text is its dotted-decimal form:
/// its four bytes in decimal, the first one first, with dots between them.
pub proof fn lemma_address_text(ip: Ipv4Addr, s: Seq<char>)
    ensures
        ip.text() == decimal(be32(ip.bits)[0] as nat) + seq!['.'] + decimal(
            be32(ip.bits)[1] as nat,
        ) + seq!['.'] + decimal(be32(ip.bits)[2] as nat) + seq!['.'] + decimal(
            be32(ip.bits)[3] as nat,
        ),
        Ipv4Addr::from_text(s) == Some(ip) <==> s == ip.text(),
{
    if s == ip.text() {
        lemma_ipv4_text_roundtrip(ip);
    }
    if Ipv4Addr::from_text(s) == Some(ip) {
        let found = choose|x: Ipv4Addr| #[trigger] x.text() == s;
        assert(found == ip);
    }
}

/// A hardware address as text: two digits for each byte, in their order, with a
/// colon behind each but the last.
pub proof fn lemma_hardware_address_text(mac: MacAddr, i: int)
    requires
        0 <= i < 6,
    ensures
        mac.text().len() == 17,
        mac.text().subrange(3 * i, 3 * i + 2) == hex_pair(mac.0@[i]),
        i < 5 ==> mac.text()[3 * i + 2] == ':',
{
    let s = mac.text();
    assert(s.subrange(0, 2) =~= hex_pair(mac.0@[0]));
    assert(s.subrange(3, 5) =~= hex_pair(mac.0@[1]));
    assert(s.subrange(6, 8) =~= hex_pair(mac.0@[2]));
    assert(s.subrange(9, 11) =~= hex_pair(mac.0@[3]));
    assert(s.subrange(12, 14) =~= hex_pair(mac.0@[4]));
    assert(s.subrange(15, 17) =~= hex_pair(mac.0@[5]));
}

/// The headers on the wire, part by part.
pub proof fn lemma_headers_on_the_wire(eth: EthHdr, arp: ArpPacket, dhcp: DhcpPacket)
    ensures
        eth.bytes().subrange(0, 6) == eth.dst@,
        eth.bytes().subrange(6, 12) == eth.src@,
        eth.bytes().subrange(12, 14) == be16(eth.ethertype),
        eth.bytes().len() == 14,
        arp.bytes().len() == 28,
        arp.bytes().subrange(0, 4) == be16(arp.hw_type) + be16(arp.proto_type),
        arp.bytes().subrange(4, 8) == seq![arp.hw_len, arp.proto_len] + be16(arp.opcode),
        arp.bytes().subrange(8, 14) == arp.sender_mac@,
        arp.bytes().subrange(14, 18) == be32(arp.sender_ip),
        arp.bytes().subrange(18, 24) == arp.target_mac@,
        arp.bytes().subrange(24, 28) == be32(arp.target_ip),
        dhcp.fixed_bytes().len() == 240,
        dhcp.fixed_bytes().subrange(0, 4) == seq![dhcp.op, dhcp.htype, dhcp.hlen, dhcp.hops],
        dhcp.fixed_bytes().subrange(4, 8) == be32(dhcp.xid),
        dhcp.fixed_bytes().subrange(8, 12) == be16(dhcp.secs) + be16(dhcp.flags),
        dhcp.fixed_bytes().subrange(12, 16) == be32(dhcp.ciaddr),
        dhcp.fixed_bytes().subrange(16, 20) == be32(dhcp.yiaddr),
        dhcp.fixed_bytes().subrange(20, 24) == be32(dhcp.siaddr),
        dhcp.fixed_bytes().subrange(24, 28) == be32(dhcp.giaddr),
        dhcp.fixed_bytes().subrange(28, 44) == dhcp.chaddr@,
        dhcp.fixed_bytes().subrange(44, 108) == dhcp.sname@,
        dhcp.fixed_bytes().subrange(108, 236) == dhcp.file@,
        dhcp.fixed_bytes().subrange(236, 240) == be32(dhcp.magic),
{
    let e = eth.bytes();
    assert(e.subrange(0, 6) =~= eth.dst@);
    assert(e.subrange(6, 12) =~= eth.src@);
    assert(e.subrange(12, 14) =~= be16(eth.ethertype));
    let a = arp.bytes();
    assert(a.subrange(0, 4) =~= be16(arp.hw_type) + be16(arp.proto_type));
    assert(a.subrange(4, 8) =~= seq![arp.hw_len, arp.proto_len] + be16(arp.opcode));
    assert(a.subrange(8, 14) =~= arp.sender_mac@);
    assert(a.subrange(14, 18) =~= be32(arp.sender_ip));
    assert(a.subrange(18, 24) =~= arp.target_mac@);
    assert(a.subrange(24, 28) =~= be32(arp.target_ip));
    let d = dhcp.fixed_bytes();
    assert(d.subrange(0, 4) =~= seq![dhcp.op, dhcp.htype, dhcp.hlen, dhcp.hops]);
    assert(d.subrange(4, 8) =~= be32(dhcp.xid));
    assert(d.subrange(8, 12) =~= be16(dhcp.secs) + be16(dhcp.flags));
    assert(d.subrange(12, 16) =~= be32(dhcp.ciaddr));
    assert(d.subrange(16, 20) =~= be32(dhcp.yiaddr));
    assert(d.subrange(20, 24) =~= be32(dhcp.siaddr));
    assert(d.subrange(24, 28) =~= be32(dhcp.giaddr));
    assert(d.subrange(28, 44) =~= dhcp.chaddr@);
    assert(d.subrange(44, 108) =~= dhcp.sname@);
    assert(d.subrange(108, 236) =~= dhcp.file@);
    assert(d.subrange(236, 240) =~= be32(dhcp.magic));
}

} // verus!
