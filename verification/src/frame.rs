//! Ethernet frames from packets of the virtual interface, and back.

use crate::bytes::{
    be16, be16_at, be32, be32_at, be32_bytes, lemma_be16_bytes, lemma_be16_roundtrip,
    lemma_be32_bytes, lemma_be32_roundtrip, lemma_overlay_append, lemma_read_values, overlay, put,
    read_be16, read_be32,
};
use crate::error::TetherError;
use crate::net_types::{EthHdr, ETH_HDR_SIZE, IPV4_ETHERTYPE, IPV6_ETHERTYPE};
use vstd::prelude::*;

verus! {

/// The address family of IPv4 packets.
pub const AF_INET: u32 = 2;

/// The address family of IPv6 packets.
pub const AF_INET6: u32 = 30;

/// The ethertype for a packet of the virtual interface: by its address family,
/// or by the version in its IP header where the family is neither.
pub open spec fn ethertype_of(pkt: Seq<u8>) -> Option<u16> {
    let af = be32_at(pkt, 0);
    let version = pkt[4] / 16;
    if af == AF_INET {
        Some(IPV4_ETHERTYPE)
    } else if af == AF_INET6 {
        Some(IPV6_ETHERTYPE)
    } else if version == 4 {
        Some(IPV4_ETHERTYPE)
    } else if version == 6 {
        Some(IPV6_ETHERTYPE)
    } else {
        None
    }
}

/// The Ethernet frame for a packet of the virtual interface, if it is one of
/// IP.
pub open spec fn eth_frame_of(pkt: Seq<u8>, src: Seq<u8>, dst: Seq<u8>) -> Option<Seq<u8>> {
    if pkt.len() < 5 {
        None
    } else {
        match ethertype_of(pkt) {
            Some(t) => Some(dst + src + be16(t) + pkt.subrange(4, pkt.len() as int)),
            None => None,
        }
    }
}

/// Writes the Ethernet frame for a packet of the virtual interface at the start
/// of `eth_buf`. A packet that is none of IP, or a frame that does not fit,
/// is dropped.
pub fn ip_to_eth(
    utun_pkt: &[u8],
    eth_buf: &mut [u8],
    src_mac: &[u8; 6],
    gateway_mac: &[u8; 6],
) -> (r: Result<usize, TetherError>)
    ensures
        match eth_frame_of(utun_pkt@, src_mac@, gateway_mac@) {
            Some(frame) if frame.len() <= old(eth_buf)@.len() => {
                &&& r matches Ok(n) && n == frame.len()
                &&& final(eth_buf)@ == overlay(old(eth_buf)@, 0, frame)
            },
            _ => {
                &&& r == Ok::<usize, TetherError>(0)
                &&& final(eth_buf)@ == old(eth_buf)@
            },
        },
{
    if utun_pkt.len() < 5 {
        return Ok(0);
    }
    let af = read_be32(utun_pkt, 0);
    let ip_len = utun_pkt.len() - 4;
    if eth_buf.len() < ETH_HDR_SIZE || ip_len > eth_buf.len() - ETH_HDR_SIZE {
        return Ok(0);
    }
    let total = ETH_HDR_SIZE + ip_len;
    let version = utun_pkt[4] / 16;
    let ethertype: u16 = if af == AF_INET {
        IPV4_ETHERTYPE
    } else if af == AF_INET6 {
        IPV6_ETHERTYPE
    } else if version == 4 {
        IPV4_ETHERTYPE
    } else if version == 6 {
        IPV6_ETHERTYPE
    } else {
        return Ok(0);
    };
    let eth = EthHdr { dst: *gateway_mac, src: *src_mac, ethertype };
    let mut header: Vec<u8> = Vec::new();
    eth.append_to(&mut header);
    let ghost base = eth_buf@;
    let ip = &utun_pkt[4..utun_pkt.len()];
    assert(header@ =~= eth.bytes());
    put(eth_buf, 0, header.as_slice());
    put(eth_buf, ETH_HDR_SIZE, ip);
    proof {
        lemma_overlay_append(base, 0, header@, ip@);
        assert(header@ + ip@ =~= gateway_mac@ + src_mac@ + be16(ethertype) + ip@);
    }
    Ok(total)
}

/// The packet of the virtual interface for an Ethernet frame, if it is one of
/// IP.
pub open spec fn utun_packet_of(frame: Seq<u8>) -> Option<Seq<u8>> {
    if frame.len() < ETH_HDR_SIZE {
        None
    } else if be16_at(frame, 12) == IPV4_ETHERTYPE {
        Some(be32(AF_INET) + frame.subrange(14, frame.len() as int))
    } else if be16_at(frame, 12) == IPV6_ETHERTYPE {
        Some(be32(AF_INET6) + frame.subrange(14, frame.len() as int))
    } else {
        None
    }
}

/// Writes the packet of the virtual interface for an Ethernet frame at the
/// start of `utun_buf`. A frame that is none of IP, or a packet that does not
/// fit, is dropped.
pub fn eth_to_utun(eth_frame: &[u8], utun_buf: &mut [u8]) -> (r: Result<usize, TetherError>)
    ensures
        match utun_packet_of(eth_frame@) {
            Some(pkt) if pkt.len() <= old(utun_buf)@.len() => {
                &&& r matches Ok(n) && n == pkt.len()
                &&& final(utun_buf)@ == overlay(old(utun_buf)@, 0, pkt)
            },
            _ => {
                &&& r == Ok::<usize, TetherError>(0)
                &&& final(utun_buf)@ == old(utun_buf)@
            },
        },
{
    if eth_frame.len() < ETH_HDR_SIZE {
        return Ok(0);
    }
    let ethertype = read_be16(eth_frame, 12);
    let ip_len = eth_frame.len() - ETH_HDR_SIZE;
    let total = 4 + ip_len;
    if total > utun_buf.len() {
        return Ok(0);
    }
    let af = if ethertype == IPV4_ETHERTYPE {
        AF_INET
    } else if ethertype == IPV6_ETHERTYPE {
        AF_INET6
    } else {
        return Ok(0);
    };
    let ghost base = utun_buf@;
    let ip = &eth_frame[ETH_HDR_SIZE..eth_frame.len()];
    let family = be32_bytes(af);
    put(utun_buf, 0, &family);
    put(utun_buf, 4, ip);
    proof {
        lemma_overlay_append(base, 0, be32(af), ip@);
    }
    Ok(total)
}

/// The address family that the virtual interface uses for a packet.
pub open spec fn family_of(pkt: Seq<u8>) -> u32 {
    if ethertype_of(pkt) == Some(IPV4_ETHERTYPE) {
        AF_INET
    } else {
        AF_INET6
    }
}

/// A packet that goes out as an Ethernet frame and comes back is the same
/// packet, with the address family that belongs to its ethertype in front.
pub proof fn lemma_packet_returns(pkt: Seq<u8>, src: Seq<u8>, dst: Seq<u8>)
    requires
        src.len() == 6,
        dst.len() == 6,
        pkt.len() >= 5,
        ethertype_of(pkt) is Some,
    ensures
        utun_packet_of(eth_frame_of(pkt, src, dst)->0) == Some(
            be32(family_of(pkt)) + pkt.subrange(4, pkt.len() as int),
        ),
        be32_at(pkt, 0) == AF_INET || be32_at(pkt, 0) == AF_INET6 ==> utun_packet_of(
            eth_frame_of(pkt, src, dst)->0,
        ) == Some(pkt),
{
    let t = ethertype_of(pkt)->0;
    let frame = eth_frame_of(pkt, src, dst)->0;
    let ip = pkt.subrange(4, pkt.len() as int);
    lemma_be16_roundtrip(t);
    assert(frame[12] == be16(t)[0] && frame[13] == be16(t)[1]);
    assert(frame.subrange(14, frame.len() as int) =~= ip);
    if be32_at(pkt, 0) == AF_INET || be32_at(pkt, 0) == AF_INET6 {
        lemma_be32_bytes(pkt, 0);
        assert(pkt.subrange(0, 4) + ip =~= pkt);
    }
}

/// An Ethernet frame of IP that goes to the virtual interface and comes back is
/// the same frame, with the addresses of the way back.
pub proof fn lemma_frame_returns(frame: Seq<u8>, src: Seq<u8>, dst: Seq<u8>)
    requires
        src.len() == 6,
        dst.len() == 6,
        frame.len() > ETH_HDR_SIZE,
        utun_packet_of(frame) is Some,
    ensures
        eth_frame_of(utun_packet_of(frame)->0, src, dst) == Some(
            dst + src + frame.subrange(12, frame.len() as int),
        ),
{
    let pkt = utun_packet_of(frame)->0;
    let af = if be16_at(frame, 12) == IPV4_ETHERTYPE {
        AF_INET
    } else {
        AF_INET6
    };
    lemma_be32_roundtrip(af);
    assert(pkt[0] == be32(af)[0] && pkt[1] == be32(af)[1] && pkt[2] == be32(af)[2] && pkt[3]
        == be32(af)[3]);
    assert(be32_at(pkt, 0) == af);
    let t = be16_at(frame, 12);
    lemma_be16_bytes(frame, 12);
    assert(pkt.subrange(4, pkt.len() as int) =~= frame.subrange(14, frame.len() as int));
    assert(be16(t) + frame.subrange(14, frame.len() as int) =~= frame.subrange(
        12,
        frame.len() as int,
    ));
    assert(dst + src + be16(t) + pkt.subrange(4, pkt.len() as int) =~= dst + src + frame.subrange(
        12,
        frame.len() as int,
    ));
}

/// A packet of the virtual interface becomes a frame from `src` to `dst` with the
/// same bytes of IP. Its type is that of IPv4 or IPv6 by the packet's family, or
/// by the version in the IP header where the family is another one; a packet
/// that is neither by both becomes no frame.
pub proof fn lemma_packets_become_frames(
    family: Seq<u8>,
    ip: Seq<u8>,
    src: Seq<u8>,
    dst: Seq<u8>,
)
    requires
        family.len() == 4,
        ip.len() > 0,
    ensures
        eth_frame_of(seq![0u8, 0, 0, 2] + ip, src, dst) == Some(dst + src + seq![8u8, 0] + ip),
        eth_frame_of(seq![0u8, 0, 0, 30] + ip, src, dst) == Some(
            dst + src + seq![0x86u8, 0xDD] + ip,
        ),
        family != seq![0u8, 0, 0, 2] && family != seq![0u8, 0, 0, 30] ==> {
            let frame = eth_frame_of(family + ip, src, dst);
            &&& 0x40 <= ip[0] <= 0x4F ==> frame == Some(dst + src + seq![8u8, 0] + ip)
            &&& 0x60 <= ip[0] <= 0x6F ==> frame == Some(dst + src + seq![0x86u8, 0xDD] + ip)
            &&& !(0x40 <= ip[0] <= 0x4F) && !(0x60 <= ip[0] <= 0x6F) ==> frame is None
        },
{
    let a = seq![0u8, 0, 0, 2] + ip;
    let b = seq![0u8, 0, 0, 30] + ip;
    let c = family + ip;
    assert(be16(0x0800) =~= seq![8u8, 0]);
    assert(be16(0x86DD) =~= seq![0x86u8, 0xDD]);
    lemma_read_values(a, 0);
    lemma_read_values(b, 0);
    lemma_read_values(c, 0);
    assert(a.subrange(4, a.len() as int) =~= ip);
    assert(b.subrange(4, b.len() as int) =~= ip);
    assert(c.subrange(4, c.len() as int) =~= ip);
    assert(c[4] == ip[0]);
    assert forall|i: int| 0 <= i < 4 implies c[i] == family[i] by {}
    if be32_at(c, 0) == 2 {
        assert(family =~= seq![0u8, 0, 0, 2]);
    }
    if be32_at(c, 0) == 30 {
        assert(family =~= seq![0u8, 0, 0, 30]);
    }
}

/// A frame of IPv4 or IPv6 becomes a packet of the virtual interface with the
/// same bytes of IP, whoever it comes from and goes to; a frame of another type
/// or one that is cut off becomes none.
pub proof fn lemma_frames_become_packets(addresses: Seq<u8>, kind: Seq<u8>, ip: Seq<u8>)
    requires
        addresses.len() == 12,
        kind.len() == 2,
    ensures
        utun_packet_of(addresses + seq![8u8, 0] + ip) == Some(seq![0u8, 0, 0, 2] + ip),
        utun_packet_of(addresses + seq![0x86u8, 0xDD] + ip) == Some(seq![0u8, 0, 0, 30] + ip),
        kind != seq![8u8, 0] && kind != seq![0x86u8, 0xDD] ==> utun_packet_of(
            addresses + kind + ip,
        ) is None,
        forall|frame: Seq<u8>| frame.len() < 14 ==> #[trigger] utun_packet_of(frame) is None,
{
    let a = addresses + seq![8u8, 0] + ip;
    let b = addresses + seq![0x86u8, 0xDD] + ip;
    let c = addresses + kind + ip;
    assert(a[12] == 8 && a[13] == 0);
    assert(b[12] == 0x86 && b[13] == 0xDD);
    assert(c[12] == kind[0] && c[13] == kind[1]);
    assert(be32(2) =~= seq![0u8, 0, 0, 2]);
    assert(be32(30) =~= seq![0u8, 0, 0, 30]);
    assert(a.subrange(14, a.len() as int) =~= ip);
    assert(b.subrange(14, b.len() as int) =~= ip);
    if be16_at(c, 12) == 0x0800 {
        assert(kind =~= seq![8u8, 0]);
    }
    if be16_at(c, 12) == 0x86DD {
        assert(kind =~= seq![0x86u8, 0xDD]);
    }
}

} // verus!
