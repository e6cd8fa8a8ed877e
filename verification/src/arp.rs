//! ARP packets: answers to requests, and announcements.

use crate::bytes::{
    be16, be16_at, be32, be32_at, lemma_be16_roundtrip, lemma_be32_bytes, lemma_be32_roundtrip,
    lemma_read_in_row, lemma_read_values, overlay, put, read_be16, read_be32,
};
use crate::error::{too_small, TetherError};
use crate::net_types::{
    array6, ArpPacket, EthHdr, Ipv4Addr, ARP_ETHERTYPE, ARP_HW_ETHERNET, ARP_OP_REPLY,
    ARP_OP_REQUEST, IPV4_ETHERTYPE,
};
use crate::rndis::{data_packet, packet_of};
use vstd::prelude::*;

verus! {

/// The size of an Ethernet frame with an ARP packet.
pub const ARP_FRAME_SIZE: usize = 42;

/// The ARP packet for IPv4 over Ethernet with these parts, on the wire.
pub open spec fn arp_bytes(
    opcode: u16,
    sender_mac: Seq<u8>,
    sender_ip: Ipv4Addr,
    target_mac: Seq<u8>,
    target_ip: Ipv4Addr,
) -> Seq<u8> {
    be16(ARP_HW_ETHERNET) + be16(IPV4_ETHERTYPE) + seq![6u8, 4] + be16(opcode) + sender_mac + be32(
        sender_ip.bits,
    ) + target_mac + be32(target_ip.bits)
}

/// The Ethernet frame with an ARP packet.
pub open spec fn arp_frame(dst: Seq<u8>, src: Seq<u8>, arp: Seq<u8>) -> Seq<u8> {
    dst + src + be16(ARP_ETHERTYPE) + arp
}

/// The frame that tells `their_mac` where `our_ip` is.
pub open spec fn reply_frame(
    our_mac: Seq<u8>,
    our_ip: Ipv4Addr,
    their_mac: Seq<u8>,
    their_ip: Ipv4Addr,
) -> Seq<u8> {
    arp_frame(their_mac, our_mac, arp_bytes(ARP_OP_REPLY, our_mac, our_ip, their_mac, their_ip))
}

fn make_frame(
    opcode: u16,
    dst: &[u8; 6],
    src: &[u8; 6],
    sender_ip: Ipv4Addr,
    target_mac: &[u8; 6],
    target_ip: Ipv4Addr,
) -> (r: Vec<u8>)
    ensures
        r@ == arp_frame(dst@, src@, arp_bytes(opcode, src@, sender_ip, target_mac@, target_ip)),
        r@.len() == 42,
{
    let eth = EthHdr { dst: *dst, src: *src, ethertype: ARP_ETHERTYPE };
    let arp = ArpPacket {
        hw_type: ARP_HW_ETHERNET,
        proto_type: IPV4_ETHERTYPE,
        hw_len: 6,
        proto_len: 4,
        opcode,
        sender_mac: *src,
        sender_ip: sender_ip.bits,
        target_mac: *target_mac,
        target_ip: target_ip.bits,
    };
    let mut out: Vec<u8> = Vec::new();
    eth.append_to(&mut out);
    arp.append_to(&mut out);
    assert(out@ =~= arp_frame(
        dst@,
        src@,
        arp_bytes(opcode, src@, sender_ip, target_mac@, target_ip),
    ));
    out
}

/// Writes the frame that tells `their_mac` where `our_ip` is at the start of
/// `buf`.
pub fn build_reply(
    buf: &mut [u8],
    our_mac: &[u8; 6],
    our_ip: Ipv4Addr,
    their_mac: &[u8; 6],
    their_ip: Ipv4Addr,
) -> (r: Result<usize, TetherError>)
    ensures
        old(buf)@.len() < ARP_FRAME_SIZE ==> {
            &&& r matches Err(e) && e@ == too_small(42, old(buf)@.len())
            &&& final(buf)@ == old(buf)@
        },
        old(buf)@.len() >= ARP_FRAME_SIZE ==> {
            &&& r == Ok::<usize, TetherError>(ARP_FRAME_SIZE)
            &&& final(buf)@ == overlay(
                old(buf)@,
                0,
                reply_frame(our_mac@, our_ip, their_mac@, their_ip),
            )
        },
{
    let total = ARP_FRAME_SIZE;
    if buf.len() < total {
        return Err(TetherError::BufferTooSmall { need: total, got: buf.len() });
    }
    let frame = make_frame(ARP_OP_REPLY, their_mac, our_mac, our_ip, their_mac, their_ip);
    put(buf, 0, frame.as_slice());
    Ok(total)
}

/// Whether a frame asks who has `ip`.
pub open spec fn asks_for(frame: Seq<u8>, ip: Ipv4Addr) -> bool {
    &&& frame.len() >= ARP_FRAME_SIZE
    &&& be16_at(frame, 12) == ARP_ETHERTYPE
    &&& be16_at(frame, 20) == ARP_OP_REQUEST
    &&& be32_at(frame, 38) == ip.bits
}

/// The answer to a frame that asks for our address.
pub open spec fn answer_to(frame: Seq<u8>, our_mac: Seq<u8>, our_ip: Ipv4Addr) -> Seq<u8> {
    reply_frame(
        our_mac,
        our_ip,
        frame.subrange(22, 28),
        Ipv4Addr { bits: be32_at(frame, 28) },
    )
}

/// Writes the answer to a frame that asks for our address at the start of
/// `reply_buf`; other frames get no answer.
pub fn handle_request(
    frame: &[u8],
    reply_buf: &mut [u8],
    our_mac: &[u8; 6],
    our_ip: Ipv4Addr,
) -> (r: Result<usize, TetherError>)
    ensures
        !asks_for(frame@, our_ip) ==> {
            &&& r == Ok::<usize, TetherError>(0)
            &&& final(reply_buf)@ == old(reply_buf)@
        },
        asks_for(frame@, our_ip) && old(reply_buf)@.len() < ARP_FRAME_SIZE ==> {
            &&& r matches Err(e) && e@ == too_small(42, old(reply_buf)@.len())
            &&& final(reply_buf)@ == old(reply_buf)@
        },
        asks_for(frame@, our_ip) && old(reply_buf)@.len() >= ARP_FRAME_SIZE ==> {
            &&& r == Ok::<usize, TetherError>(ARP_FRAME_SIZE)
            &&& final(reply_buf)@ == overlay(
                old(reply_buf)@,
                0,
                answer_to(frame@, our_mac@, our_ip),
            )
        },
{
    if frame.len() < ARP_FRAME_SIZE {
        return Ok(0);
    }
    if read_be16(frame, 12) != ARP_ETHERTYPE {
        return Ok(0);
    }
    let op = read_be16(frame, 20);
    let target_ip = read_be32(frame, 38);
    if op == ARP_OP_REQUEST && target_ip == our_ip.bits {
        let sender_ip = Ipv4Addr { bits: read_be32(frame, 28) };
        let sender_mac = array6(frame, 22);
        build_reply(reply_buf, our_mac, our_ip, &sender_mac, sender_ip)
    } else {
        Ok(0)
    }
}

/// Six bytes with all bits set.
pub open spec fn everyone() -> Seq<u8> {
    Seq::new(6, |i: int| 0xFFu8)
}

/// The frame that announces an address to everyone.
pub open spec fn gratuitous_frame(mac: Seq<u8>, ip: Ipv4Addr) -> Seq<u8> {
    arp_frame(everyone(), mac, arp_bytes(ARP_OP_REPLY, mac, ip, everyone(), ip))
}

/// The bytes to send to the device to announce an address to everyone.
pub fn send_gratuitous(mac: &[u8; 6], ip: Ipv4Addr) -> (r: Vec<u8>)
    ensures
        r@ == data_packet(gratuitous_frame(mac@, ip)),
{
    let all = [0xFFu8, 0xFF, 0xFF, 0xFF, 0xFF, 0xFF];
    assert(all@ =~= everyone());
    let frame = make_frame(ARP_OP_REPLY, &all, mac, ip, &all, ip);
    packet_of(frame.as_slice())
}

/// The frame by which everyone sees that we are still there: a request for the
/// address zero.
pub open spec fn presence_frame(mac: Seq<u8>, ip: Ipv4Addr) -> Seq<u8> {
    arp_frame(
        everyone(),
        mac,
        arp_bytes(ARP_OP_REQUEST, mac, ip, everyone(), Ipv4Addr { bits: 0 }),
    )
}

/// The frame by which everyone sees that we are still there.
pub fn build_presence(mac: &[u8; 6], ip: Ipv4Addr) -> (r: Vec<u8>)
    ensures
        r@ == presence_frame(mac@, ip),
{
    let all = [0xFFu8, 0xFF, 0xFF, 0xFF, 0xFF, 0xFF];
    assert(all@ =~= everyone());
    make_frame(ARP_OP_REQUEST, &all, mac, ip, &all, Ipv4Addr { bits: 0 })
}

/// The answer to a request goes to the one who asked, names the address that
/// was asked for with our hardware address, and is itself no request.
pub proof fn lemma_answer(frame: Seq<u8>, our_mac: Seq<u8>, our_ip: Ipv4Addr)
    requires
        our_mac.len() == 6,
        asks_for(frame, our_ip),
    ensures
        ({
            let answer = answer_to(frame, our_mac, our_ip);
            &&& answer.len() == ARP_FRAME_SIZE
            &&& answer.subrange(0, 6) == frame.subrange(22, 28)
            &&& answer.subrange(22, 28) == our_mac
            &&& be32_at(answer, 28) == be32_at(frame, 38)
            &&& answer.subrange(32, 38) == frame.subrange(22, 28)
            &&& be32_at(answer, 38) == be32_at(frame, 28)
            &&& be16_at(answer, 20) == ARP_OP_REPLY
            &&& forall|ip: Ipv4Addr| !asks_for(answer, ip)
        }),
{
    let answer = answer_to(frame, our_mac, our_ip);
    let theirs = frame.subrange(22, 28);
    assert(answer.subrange(0, 6) =~= theirs);
    assert(answer.subrange(22, 28) =~= our_mac);
    assert(answer.subrange(32, 38) =~= theirs);
    lemma_be16_roundtrip(ARP_OP_REPLY);
    lemma_be32_roundtrip(our_ip.bits);
    lemma_be32_roundtrip(be32_at(frame, 28));
    assert(answer.subrange(20, 22) =~= be16(ARP_OP_REPLY));
    assert(answer.subrange(28, 32) =~= be32(our_ip.bits));
    assert(answer.subrange(38, 42) =~= be32(be32_at(frame, 28)));
    assert(answer[20] == be16(ARP_OP_REPLY)[0] && answer[21] == be16(ARP_OP_REPLY)[1]);
    let a = be32(our_ip.bits);
    assert(answer[28] == a[0] && answer[29] == a[1] && answer[30] == a[2] && answer[31] == a[3]);
    let b = be32(be32_at(frame, 28));
    assert(answer[38] == b[0] && answer[39] == b[1] && answer[40] == b[2] && answer[41] == b[3]);
}

/// Whoever asks for our address is told, in a frame of its own, that it is at our
/// hardware address. It does not matter who else the request was sent to, what
/// it claims of itself in its first bytes, and what stands behind it.
pub proof fn lemma_request_is_answered(
    addresses: Seq<u8>,
    claims: Seq<u8>,
    sender_mac: Seq<u8>,
    sender_ip: Seq<u8>,
    target_mac: Seq<u8>,
    rest: Seq<u8>,
    our_mac: Seq<u8>,
    our_ip: Ipv4Addr,
)
    requires
        addresses.len() == 12,
        claims.len() == 6,
        sender_mac.len() == 6,
        sender_ip.len() == 4,
        target_mac.len() == 6,
    ensures
        ({
            let frame = addresses + seq![8u8, 6] + claims + seq![0u8, 1] + sender_mac + sender_ip
                + target_mac + be32(our_ip.bits) + rest;
            &&& asks_for(frame, our_ip)
            &&& answer_to(frame, our_mac, our_ip) == sender_mac + our_mac + seq![
                8u8,
                6,
                0,
                1,
                8,
                0,
                6,
                4,
                0,
                2,
            ] + our_mac + be32(our_ip.bits) + sender_mac + sender_ip
        }),
{
    let frame = addresses + seq![8u8, 6] + claims + seq![0u8, 1] + sender_mac + sender_ip
        + target_mac + be32(our_ip.bits) + rest;
    assert(frame[12] == 8 && frame[13] == 6 && frame[20] == 0 && frame[21] == 1);
    let before = addresses + seq![8u8, 6] + claims + seq![0u8, 1] + sender_mac + sender_ip
        + target_mac;
    assert(before.len() == 38);
    lemma_read_in_row(before, 0, our_ip.bits, rest);
    assert(frame.subrange(22, 28) =~= sender_mac);
    assert(frame.subrange(28, 32) =~= sender_ip);
    lemma_be32_bytes(frame, 28);
    assert(be16(0x0806) =~= seq![8u8, 6]);
    assert(be16(1) =~= seq![0u8, 1]);
    assert(be16(0x0800) =~= seq![8u8, 0]);
    assert(be16(2) =~= seq![0u8, 2]);
    assert(answer_to(frame, our_mac, our_ip) =~= sender_mac + our_mac + seq![
        8u8,
        6,
        0,
        1,
        8,
        0,
        6,
        4,
        0,
        2,
    ] + our_mac + be32(our_ip.bits) + sender_mac + sender_ip);
}

/// Only a whole ARP request that names an address asks for it.
pub proof fn lemma_only_requests_ask(frame: Seq<u8>, ip: Ipv4Addr)
    requires
        asks_for(frame, ip),
    ensures
        frame.len() >= 42,
        frame.subrange(12, 14) == seq![8u8, 6],
        frame.subrange(20, 22) == seq![0u8, 1],
        frame.subrange(38, 42) == be32(ip.bits),
{
    lemma_read_values(frame, 12);
    lemma_read_values(frame, 20);
    assert(frame.subrange(12, 14) =~= seq![8u8, 6]);
    assert(frame.subrange(20, 22) =~= seq![0u8, 1]);
    lemma_be32_bytes(frame, 38);
}

/// What is announced to everyone, byte for byte: that our address is at our
/// hardware address; and, to show that we are there, a request for the address
/// zero from the two.
pub proof fn lemma_announcement_bytes(mac: Seq<u8>, ip: Ipv4Addr)
    ensures
        gratuitous_frame(mac, ip) == seq![0xFFu8, 0xFF, 0xFF, 0xFF, 0xFF, 0xFF] + mac + seq![
            8u8,
            6,
            0,
            1,
            8,
            0,
            6,
            4,
            0,
            2,
        ] + mac + be32(ip.bits) + seq![0xFFu8, 0xFF, 0xFF, 0xFF, 0xFF, 0xFF] + be32(ip.bits),
        presence_frame(mac, ip) == seq![0xFFu8, 0xFF, 0xFF, 0xFF, 0xFF, 0xFF] + mac + seq![
            8u8,
            6,
            0,
            1,
            8,
            0,
            6,
            4,
            0,
            1,
        ] + mac + be32(ip.bits) + seq![0xFFu8, 0xFF, 0xFF, 0xFF, 0xFF, 0xFF, 0, 0, 0, 0],
{
    assert(be16(0x0806) =~= seq![8u8, 6]);
    assert(be16(1) =~= seq![0u8, 1]);
    assert(be16(0x0800) =~= seq![8u8, 0]);
    assert(be16(2) =~= seq![0u8, 2]);
    assert(be32(0) =~= seq![0u8, 0, 0, 0]);
    let all = seq![0xFFu8, 0xFF, 0xFF, 0xFF, 0xFF, 0xFF];
    assert(everyone() =~= all);
    assert(gratuitous_frame(mac, ip) =~= all + mac + seq![8u8, 6, 0, 1, 8, 0, 6, 4, 0, 2] + mac
        + be32(ip.bits) + all + be32(ip.bits));
    assert(presence_frame(mac, ip) =~= all + mac + seq![8u8, 6, 0, 1, 8, 0, 6, 4, 0, 1] + mac
        + be32(ip.bits) + seq![0xFFu8, 0xFF, 0xFF, 0xFF, 0xFF, 0xFF, 0, 0, 0, 0]);
}

} // verus!
