//! What happens with data from the device.

use crate::arp::{
    answer_to, asks_for, everyone, handle_request, lemma_only_requests_ask,
    lemma_request_is_answered,
};
use crate::bytes::{be16_at, be32, read_be16};
use crate::frame::{eth_to_utun, lemma_frames_become_packets, utun_packet_of};
use crate::net_types::{array6, Ipv4Addr, MacAddr, ARP_ETHERTYPE, ETH_HDR_SIZE, RNDIS_BUF_SIZE};
use crate::proto_driver::{frame_views, ProtocolDriver};
use crate::stats::SharedStats;
use vstd::prelude::*;
use vstd::slice::slice_to_vec;

verus! {

/// How many transfers from the device are under way at once.
pub const NUM_RX_BUFS: u32 = 16;

/// How many transfers to the device are under way at most.
pub const MAX_OUT_URBS: usize = 32;

/// The size of the buffer for a packet of the virtual interface.
pub const UTUN_BUF_SIZE: usize = 2052;

/// What frames from the device have led to.
pub struct RxView {
    /// The hardware address of the gateway.
    pub gateway: Seq<u8>,
    /// Packets for the virtual interface.
    pub packets: Seq<Seq<u8>>,
    /// Frames to send back.
    pub replies: Seq<Seq<u8>>,
    pub stats: SharedStats,
}

/// The hardware address of the gateway after a frame. It is that of everyone
/// until a frame has another sender, and that sender's from then on.
pub open spec fn learned_gateway(gateway: Seq<u8>, frame: Seq<u8>) -> Seq<u8> {
    if gateway == everyone() && frame.subrange(6, 12) != everyone() {
        frame.subrange(6, 12)
    } else {
        gateway
    }
}

/// What a frame adds. An ARP request for our address is answered; a frame of IP
/// goes to the virtual interface, unless it is too large, and is counted.
pub open spec fn after_frame(
    rx: RxView,
    frame: Seq<u8>,
    our_mac: Seq<u8>,
    our_ip: Ipv4Addr,
) -> RxView {
    if frame.len() < ETH_HDR_SIZE {
        rx
    } else {
        let seen = RxView { gateway: learned_gateway(rx.gateway, frame), ..rx };
        if be16_at(frame, 12) == ARP_ETHERTYPE {
            if asks_for(frame, our_ip) {
                RxView { replies: seen.replies.push(answer_to(frame, our_mac, our_ip)), ..seen }
            } else {
                seen
            }
        } else {
            match utun_packet_of(frame) {
                Some(pkt) if pkt.len() <= UTUN_BUF_SIZE => RxView {
                    packets: seen.packets.push(pkt),
                    stats: seen.stats.received(frame.len() as int),
                    ..seen
                },
                _ => seen,
            }
        }
    }
}

/// What a row of frames adds.
pub open spec fn after_frames(
    rx: RxView,
    frames: Seq<Seq<u8>>,
    our_mac: Seq<u8>,
    our_ip: Ipv4Addr,
) -> RxView
    decreases frames.len(),
{
    if frames.len() == 0 {
        rx
    } else {
        after_frame(
            after_frames(rx, frames.drop_last(), our_mac, our_ip),
            frames.last(),
            our_mac,
            our_ip,
        )
    }
}

/// Whether a frame tells a gateway's hardware address: it is whole, and its
/// sender is not everyone.
pub open spec fn names_sender(frame: Seq<u8>) -> bool {
    frame.len() >= ETH_HDR_SIZE && frame.subrange(6, 12) != everyone()
}

/// As long as no frame names a sender, the gateway's hardware address stays what
/// it is; and once it is not that of everyone, it stays whatever comes.
pub proof fn lemma_gateway_stays(
    rx: RxView,
    frames: Seq<Seq<u8>>,
    our_mac: Seq<u8>,
    our_ip: Ipv4Addr,
)
    requires
        rx.gateway != everyone() || forall|i: int|
            0 <= i < frames.len() ==> !names_sender(#[trigger] frames[i]),
    ensures
        after_frames(rx, frames, our_mac, our_ip).gateway == rx.gateway,
    decreases frames.len(),
{
    if frames.len() > 0 {
        let front = frames.drop_last();
        assert forall|i: int| 0 <= i < front.len() && !names_sender(frames[i]) implies
            !names_sender(#[trigger] front[i]) by {}
        lemma_gateway_stays(rx, front, our_mac, our_ip);
        assert(frames.last() == frames[frames.len() - 1]);
    }
}

/// The gateway's hardware address is learned from the first frame that names a
/// sender, and no later frame changes it.
pub proof fn lemma_gateway_from_first_sender(
    rx: RxView,
    frames: Seq<Seq<u8>>,
    first: int,
    our_mac: Seq<u8>,
    our_ip: Ipv4Addr,
)
    requires
        rx.gateway == everyone(),
        0 <= first < frames.len(),
        names_sender(frames[first]),
        forall|i: int| 0 <= i < first ==> !names_sender(#[trigger] frames[i]),
    ensures
        after_frames(rx, frames, our_mac, our_ip).gateway == frames[first].subrange(6, 12),
    decreases frames.len(),
{
    let front = frames.drop_last();
    assert(forall|i: int| 0 <= i < front.len() ==> front[i] == frames[i]);
    if first < front.len() {
        lemma_gateway_from_first_sender(rx, front, first, our_mac, our_ip);
    } else {
        lemma_gateway_stays(rx, front, our_mac, our_ip);
    }
}

/// The bytes that carry the frames of a row, without those that are too large
/// to be sent.
pub open spec fn carriers<D: ProtocolDriver>(drv: D, frames: Seq<Seq<u8>>) -> Seq<Seq<u8>>
    decreases frames.len(),
{
    if frames.len() == 0 {
        Seq::empty()
    } else {
        let front = carriers(drv, frames.drop_last());
        if drv.wrapped(frames.last()).len() <= RNDIS_BUF_SIZE {
            front.push(drv.wrapped(frames.last()))
        } else {
            front
        }
    }
}

/// What is to be done with data from the device.
#[derive(Debug)]
pub struct RxOutput {
    /// Packets to write to the virtual interface.
    pub utun_packets: Vec<Vec<u8>>,
    /// Bytes to send to the device.
    pub usb_packets: Vec<Vec<u8>>,
}

/// What one frame leads to.
enum FrameOutcome {
    Nothing,
    Packet(Vec<u8>),
    Reply(Vec<u8>),
}

fn process_frame(
    frame: &[u8],
    our_mac: &[u8; 6],
    our_ip: Ipv4Addr,
    gateway_mac: &mut [u8; 6],
    stats: &mut SharedStats,
    Ghost(packets): Ghost<Seq<Seq<u8>>>,
    Ghost(replies): Ghost<Seq<Seq<u8>>>,
) -> (r: FrameOutcome)
    ensures
        after_frame(
            RxView { gateway: old(gateway_mac)@, packets, replies, stats: *old(stats) },
            frame@,
            our_mac@,
            our_ip,
        ) == (RxView {
            gateway: final(gateway_mac)@,
            packets: match r {
                FrameOutcome::Packet(p) => packets.push(p@),
                _ => packets,
            },
            replies: match r {
                FrameOutcome::Reply(p) => replies.push(p@),
                _ => replies,
            },
            stats: *final(stats),
        }),
        r matches FrameOutcome::Reply(p) ==> p@.len() == 42,
{
    if frame.len() < ETH_HDR_SIZE {
        return FrameOutcome::Nothing;
    }
    let ethertype = read_be16(frame, 12);
    let sender = array6(frame, 6);
    if MacAddr(*gateway_mac).is_broadcast() && !MacAddr(sender).is_broadcast() {
        *gateway_mac = sender;
    }
    if ethertype == ARP_ETHERTYPE {
        let mut reply_buf = [0u8; 42];
        let ghost blank = reply_buf@;
        match handle_request(frame, &mut reply_buf, our_mac, our_ip) {
            Ok(n) => {
                if n > 0 {
                    let reply = slice_to_vec(&reply_buf);
                    assert(reply@ =~= answer_to(frame@, our_mac@, our_ip));
                    return FrameOutcome::Reply(reply);
                }
            },
            Err(_) => {},
        }
        return FrameOutcome::Nothing;
    }
    let mut utun_buf = [0u8; 2052];
    let ghost blank = utun_buf@;
    match eth_to_utun(frame, &mut utun_buf) {
        Ok(n) => {
            if n > 0 {
                let packet = slice_to_vec(&utun_buf[0..n]);
                assert(packet@ =~= utun_packet_of(frame@)->0);
                stats.record_rx(frame.len());
                return FrameOutcome::Packet(packet);
            }
        },
        Err(_) => {},
    }
    FrameOutcome::Nothing
}

/// Takes in data from the device.
pub fn process_rx<D: ProtocolDriver>(
    drv: &D,
    data: &[u8],
    our_mac: &[u8; 6],
    our_ip: Ipv4Addr,
    gateway_mac: &mut [u8; 6],
    stats: &mut SharedStats,
) -> (r: RxOutput)
    requires
        drv.fits(42),
    ensures
        ({
            let rx = after_frames(
                RxView {
                    gateway: old(gateway_mac)@,
                    packets: Seq::empty(),
                    replies: Seq::empty(),
                    stats: *old(stats),
                },
                drv.unwrapped(data@),
                our_mac@,
                our_ip,
            );
            &&& frame_views(r.utun_packets@) == rx.packets
            &&& frame_views(r.usb_packets@) == carriers(*drv, rx.replies)
            &&& final(gateway_mac)@ == rx.gateway
            &&& *final(stats) == rx.stats
        }),
{
    let frames = drv.unwrap_data(data);
    let ghost all = drv.unwrapped(data@);
    let ghost start = RxView {
        gateway: gateway_mac@,
        packets: Seq::empty(),
        replies: Seq::empty(),
        stats: *stats,
    };
    let mut utun_packets: Vec<Vec<u8>> = Vec::new();
    let mut replies: Vec<Vec<u8>> = Vec::new();
    let mut i: usize = 0;
    assert(all.take(0) =~= Seq::empty());
    assert(frame_views(utun_packets@) =~= Seq::empty());
    assert(frame_views(replies@) =~= Seq::empty());
    while i < frames.len()
        invariant
            i <= frames@.len(),
            frame_views(frames@) == all,
            all == drv.unwrapped(data@),
            after_frames(start, all.take(i as int), our_mac@, our_ip) == (RxView {
                gateway: gateway_mac@,
                packets: frame_views(utun_packets@),
                replies: frame_views(replies@),
                stats: *stats,
            }),
            forall|k: int| 0 <= k < replies@.len() ==> (#[trigger] replies@[k])@.len() == 42,
        decreases frames@.len() - i,
    {
        let ghost packets_before = utun_packets@;
        let ghost replies_before = replies@;
        proof {
            assert(all.take(i + 1).drop_last() =~= all.take(i as int));
            assert(all.take(i + 1).last() == frames@[i as int]@);
        }
        let outcome = process_frame(
            frames[i].as_slice(),
            our_mac,
            our_ip,
            gateway_mac,
            stats,
            Ghost(frame_views(utun_packets@)),
            Ghost(frame_views(replies@)),
        );
        match outcome {
            FrameOutcome::Nothing => {},
            FrameOutcome::Packet(p) => {
                utun_packets.push(p);
                assert(frame_views(utun_packets@) =~= frame_views(packets_before).push(p@));
            },
            FrameOutcome::Reply(p) => {
                replies.push(p);
                assert(frame_views(replies@) =~= frame_views(replies_before).push(p@));
            },
        }
        i = i + 1;
    }
    assert(all.take(frames@.len() as int) =~= all);
    let ghost answers = frame_views(replies@);
    let mut usb_packets: Vec<Vec<u8>> = Vec::new();
    let mut k: usize = 0;
    assert(answers.take(0) =~= Seq::empty());
    assert(frame_views(usb_packets@) =~= Seq::empty());
    while k < replies.len()
        invariant
            k <= replies@.len(),
            drv.fits(42),
            answers == frame_views(replies@),
            frame_views(usb_packets@) == carriers(*drv, answers.take(k as int)),
            forall|j: int| 0 <= j < replies@.len() ==> (#[trigger] replies@[j])@.len() == 42,
        decreases replies@.len() - k,
    {
        let ghost before = usb_packets@;
        proof {
            assert(answers.take(k + 1).drop_last() =~= answers.take(k as int));
            assert(answers.take(k + 1).last() == replies@[k as int]@);
        }
        let reply = replies[k].as_slice();
        let mut buf: Vec<u8> = vec![0u8; RNDIS_BUF_SIZE];
        match drv.wrap_frame(reply, buf.as_mut_slice()) {
            Ok(n) => {
                let packet = slice_to_vec(&buf.as_slice()[0..n]);
                assert(packet@ =~= drv.wrapped(reply@));
                usb_packets.push(packet);
                assert(frame_views(usb_packets@) =~= frame_views(before).push(packet@));
            },
            Err(_) => {},
        }
        k = k + 1;
    }
    assert(answers.take(replies@.len() as int) =~= answers);
    RxOutput { utun_packets, usb_packets }
}

/// What follows on the completion of a transfer from the device.
#[derive(Debug, Clone, Copy, PartialEq, Eq, Structural)]
pub enum RxStep {
    /// The transfer is lost: it is not started again.
    Lost,
    /// The transfer is started again.
    Restart,
    /// Its data is taken in, and the transfer is started again.
    ProcessThenRestart,
}

/// What follows on the completion of a transfer from the device, from whether it
/// succeeded and how many bytes came.
pub fn on_completion(ok: bool, len: usize) -> (r: RxStep)
    ensures
        r == (if !ok {
            RxStep::Lost
        } else if len == 0 {
            RxStep::Restart
        } else {
            RxStep::ProcessThenRestart
        }),
{
    if !ok {
        RxStep::Lost
    } else if len == 0 {
        RxStep::Restart
    } else {
        RxStep::ProcessThenRestart
    }
}

/// The transfers from the device that are still alive.
#[derive(Debug, Clone, Copy, PartialEq, Eq, Structural)]
pub struct RxWindow {
    pub active: u32,
}

impl RxWindow {
    /// All transfers are alive.
    pub fn new() -> (r: Self)
        ensures
            r.active == NUM_RX_BUFS,
    {
        RxWindow { active: NUM_RX_BUFS }
    }

    /// The transfers that are alive after one has been completed, and has been
    /// started again or not.
    pub open spec fn after(self, restarted: bool) -> RxWindow {
        if restarted || self.active == 0 {
            self
        } else {
            RxWindow { active: (self.active - 1) as u32 }
        }
    }

    /// The transfers that are alive after a row of completions.
    pub open spec fn after_all(self, restarts: Seq<bool>) -> RxWindow
        decreases restarts.len(),
    {
        if restarts.len() == 0 {
            self
        } else {
            self.after_all(restarts.drop_last()).after(restarts.last())
        }
    }

    /// A transfer has been completed, and may have been started again.
    pub fn completed(&mut self, restarted: bool)
        ensures
            *final(self) == old(self).after(restarted),
    {
        if !restarted {
            self.active = self.active.saturating_sub(1);
        }
    }

    /// Whether the device is gone: no transfer is alive.
    pub fn device_gone(&self) -> (r: bool)
        ensures
            r == (self.active == 0),
    {
        self.active == 0
    }
}

/// How many transfers of a row were not started again.
pub open spec fn losses(restarts: Seq<bool>) -> nat
    decreases restarts.len(),
{
    if restarts.len() == 0 {
        0
    } else {
        losses(restarts.drop_last()) + (if restarts.last() {
            0nat
        } else {
            1nat
        })
    }
}

/// The device counts as gone as soon as every transfer has been lost, and not
/// before.
pub proof fn lemma_gone_when_all_are_lost(window: RxWindow, restarts: Seq<bool>)
    requires
        window.active == NUM_RX_BUFS,
    ensures
        window.after_all(restarts).active == 0 <==> losses(restarts) >= NUM_RX_BUFS,
        losses(restarts) <= NUM_RX_BUFS ==> window.after_all(restarts).active == NUM_RX_BUFS
            - losses(restarts),
    decreases restarts.len(),
{
    if restarts.len() > 0 {
        lemma_gone_when_all_are_lost(window, restarts.drop_last());
    }
}

/// Whether one more transfer to the device can be started.
pub fn can_submit(pending: usize) -> (r: bool)
    ensures
        r == (pending < MAX_OUT_URBS),
{
    pending < MAX_OUT_URBS
}

/// Frames have the same effect in one row as in two rows one after the other.
pub proof fn lemma_rows_add_up(
    rx: RxView,
    a: Seq<Seq<u8>>,
    b: Seq<Seq<u8>>,
    our_mac: Seq<u8>,
    our_ip: Ipv4Addr,
)
    ensures
        after_frames(rx, a + b, our_mac, our_ip) == after_frames(
            after_frames(rx, a, our_mac, our_ip),
            b,
            our_mac,
            our_ip,
        ),
    decreases b.len(),
{
    if b.len() == 0 {
        assert(a + b =~= a);
    } else {
        lemma_rows_add_up(rx, a, b.drop_last(), our_mac, our_ip);
        assert((a + b).drop_last() =~= a + b.drop_last());
        assert((a + b).last() == b.last());
    }
}

proof fn lemma_single(rx: RxView, frame: Seq<u8>, our_mac: Seq<u8>, our_ip: Ipv4Addr)
    ensures
        after_frames(rx, seq![frame], our_mac, our_ip) == after_frame(rx, frame, our_mac, our_ip),
{
    let row = seq![frame];
    assert(row.drop_last() =~= Seq::empty());
    assert(after_frames(rx, row.drop_last(), our_mac, our_ip) == rx);
    assert(row.last() == frame);
}

/// The type that an Ethernet frame of IP has.
pub open spec fn ip_kind(six: bool) -> Seq<u8> {
    if six {
        seq![0x86u8, 0xDD]
    } else {
        seq![8u8, 0]
    }
}

/// The family that the virtual interface puts in front of a packet of IP.
pub open spec fn ip_family(six: bool) -> Seq<u8> {
    if six {
        seq![0u8, 0, 0, 30]
    } else {
        seq![0u8, 0, 0, 2]
    }
}

/// A frame of IP goes to the virtual interface as one more packet, behind those
/// from before, with the bytes of IP that it carries, and is counted with its
/// whole length. It is never answered. One whose packet does not fit is dropped
/// and not counted.
pub proof fn lemma_ip_frame_passes(
    rx: RxView,
    addresses: Seq<u8>,
    six: bool,
    ip: Seq<u8>,
    our_mac: Seq<u8>,
    our_ip: Ipv4Addr,
)
    requires
        addresses.len() == 12,
    ensures
        ({
            let frame = addresses + ip_kind(six) + ip;
            let after = after_frames(rx, seq![frame], our_mac, our_ip);
            &&& after.replies == rx.replies
            &&& ip.len() <= 2048 ==> {
                &&& after.packets == rx.packets.push(ip_family(six) + ip)
                &&& after.stats == rx.stats.received((14 + ip.len()) as int)
            }
            &&& ip.len() > 2048 ==> {
                &&& after.packets == rx.packets
                &&& after.stats == rx.stats
            }
        }),
{
    let frame = addresses + ip_kind(six) + ip;
    lemma_single(rx, frame, our_mac, our_ip);
    lemma_frames_become_packets(addresses, seq![8u8, 6], ip);
    assert(frame[12] == ip_kind(six)[0] && frame[13] == ip_kind(six)[1]);
}

/// A transfer that carries a row of frames of IP yields exactly their packets, in
/// their order, behind those from before, and nothing to send back.
pub proof fn lemma_ip_frames_pass_in_order(
    rx: RxView,
    addresses: Seq<Seq<u8>>,
    six: Seq<bool>,
    ips: Seq<Seq<u8>>,
    our_mac: Seq<u8>,
    our_ip: Ipv4Addr,
)
    requires
        addresses.len() == ips.len(),
        six.len() == ips.len(),
        forall|i: int| 0 <= i < ips.len() ==> (#[trigger] addresses[i]).len() == 12,
        forall|i: int| 0 <= i < ips.len() ==> (#[trigger] ips[i]).len() <= 2048,
    ensures
        ({
            let frames = Seq::new(
                ips.len(),
                |i: int| addresses[i] + ip_kind(six[i]) + ips[i],
            );
            let after = after_frames(rx, frames, our_mac, our_ip);
            &&& after.packets == rx.packets + Seq::new(
                ips.len(),
                |i: int| ip_family(six[i]) + ips[i],
            )
            &&& after.replies == rx.replies
        }),
    decreases ips.len(),
{
    let frames = Seq::new(ips.len(), |i: int| addresses[i] + ip_kind(six[i]) + ips[i]);
    let packets = Seq::new(ips.len(), |i: int| ip_family(six[i]) + ips[i]);
    if ips.len() == 0 {
        assert(frames =~= Seq::empty());
        assert(rx.packets + packets =~= rx.packets);
    } else {
        let n = ips.len() - 1;
        let a = addresses.drop_last();
        let s = six.drop_last();
        let p = ips.drop_last();
        assert forall|i: int| 0 <= i < p.len() implies (#[trigger] a[i]).len() == 12 by {
            assert(a[i] == addresses[i]);
        }
        assert forall|i: int| 0 <= i < p.len() implies (#[trigger] p[i]).len() <= 2048 by {
            assert(p[i] == ips[i]);
        }
        lemma_ip_frames_pass_in_order(rx, a, s, p, our_mac, our_ip);
        let front = Seq::new(p.len(), |i: int| a[i] + ip_kind(s[i]) + p[i]);
        let last = addresses[n] + ip_kind(six[n]) + ips[n];
        assert(frames =~= front + seq![last]);
        lemma_rows_add_up(rx, front, seq![last], our_mac, our_ip);
        lemma_ip_frame_passes(
            after_frames(rx, front, our_mac, our_ip),
            addresses[n],
            six[n],
            ips[n],
            our_mac,
            our_ip,
        );
        assert(rx.packets + Seq::new(p.len(), |i: int| ip_family(s[i]) + p[i]).push(
            ip_family(six[n]) + ips[n],
        ) =~= rx.packets + packets);
        assert((rx.packets + Seq::new(p.len(), |i: int| ip_family(s[i]) + p[i])).push(
            ip_family(six[n]) + ips[n],
        ) =~= rx.packets + packets);
    }
}

/// An ARP request for our address is answered with one more frame, behind those
/// from before: to the one who asked, with our hardware address. No packet comes
/// of it, and it is not counted.
pub proof fn lemma_arp_request_is_answered(
    rx: RxView,
    addresses: Seq<u8>,
    claims: Seq<u8>,
    sender_mac: Seq<u8>,
    sender_ip: Seq<u8>,
    target_mac: Seq<u8>,
    rest: Seq<u8>,
    our_mac: Seq<u8>,
    our_ip: Ipv4Addr,
)
    requires
        addresses.len() == 12,
        claims.len() == 6,
        sender_mac.len() == 6,
        sender_ip.len() == 4,
        target_mac.len() == 6,
    ensures
        ({
            let frame = addresses + seq![8u8, 6] + claims + seq![0u8, 1] + sender_mac + sender_ip
                + target_mac + be32(our_ip.bits) + rest;
            let after = after_frames(rx, seq![frame], our_mac, our_ip);
            &&& after.replies == rx.replies.push(
                sender_mac + our_mac + seq![8u8, 6, 0, 1, 8, 0, 6, 4, 0, 2] + our_mac + be32(
                    our_ip.bits,
                ) + sender_mac + sender_ip,
            )
            &&& after.packets == rx.packets
            &&& after.stats == rx.stats
        }),
{
    let frame = addresses + seq![8u8, 6] + claims + seq![0u8, 1] + sender_mac + sender_ip
        + target_mac + be32(our_ip.bits) + rest;
    lemma_single(rx, frame, our_mac, our_ip);
    lemma_request_is_answered(
        addresses,
        claims,
        sender_mac,
        sender_ip,
        target_mac,
        rest,
        our_mac,
        our_ip,
    );
    assert(frame[12] == 8 && frame[13] == 6);
}

/// Only frames of IP come out as packets and count, and only ARP requests for our
/// address are answered: any other frame changes nothing but the gateway's
/// hardware address, and one that is cut off nothing at all.
pub proof fn lemma_other_frames_do_nothing(
    rx: RxView,
    frame: Seq<u8>,
    our_mac: Seq<u8>,
    our_ip: Ipv4Addr,
)
    ensures
        ({
            let after = after_frames(rx, seq![frame], our_mac, our_ip);
            &&& frame.len() < 14 ==> after == rx
            &&& frame.len() >= 14 && frame.subrange(12, 14) != seq![8u8, 0] && frame.subrange(
                12,
                14,
            ) != seq![0x86u8, 0xDD] ==> after.packets == rx.packets && after.stats == rx.stats
            &&& frame.len() < 42 || frame.subrange(12, 14) != seq![8u8, 6] || frame.subrange(
                20,
                22,
            ) != seq![0u8, 1] || frame.subrange(38, 42) != be32(our_ip.bits) ==> after.replies
                == rx.replies
        }),
{
    lemma_single(rx, frame, our_mac, our_ip);
    if frame.len() >= 14 {
        let kind = frame.subrange(12, 14);
        assert(kind[0] == frame[12] && kind[1] == frame[13]);
        if be16_at(frame, 12) == 0x0800 {
            assert(kind =~= seq![8u8, 0]);
        }
        if be16_at(frame, 12) == 0x86DD {
            assert(kind =~= seq![0x86u8, 0xDD]);
        }
        if asks_for(frame, our_ip) {
            lemma_only_requests_ask(frame, our_ip);
        }
    }
}

/// Everything that is to be sent back is sent, in its order, as long as the bytes
/// that carry it fit.
pub proof fn lemma_replies_are_carried<D: ProtocolDriver>(drv: D, frames: Seq<Seq<u8>>)
    requires
        forall|i: int|
            0 <= i < frames.len() ==> drv.wrapped(#[trigger] frames[i]).len() <= 32768,
    ensures
        carriers(drv, frames).len() == frames.len(),
        forall|i: int|
            0 <= i < frames.len() ==> #[trigger] carriers(drv, frames)[i] == drv.wrapped(
                frames[i],
            ),
    decreases frames.len(),
{
    if frames.len() > 0 {
        let front = frames.drop_last();
        assert forall|i: int| 0 <= i < front.len() implies drv.wrapped(#[trigger] front[i]).len()
            <= 32768 by {
            assert(front[i] == frames[i]);
        }
        lemma_replies_are_carried(drv, front);
        assert(frames.last() == frames[frames.len() - 1]);
        assert(drv.wrapped(frames[frames.len() - 1]).len() <= 32768);
        assert forall|i: int| 0 <= i < frames.len() implies #[trigger] carriers(drv, frames)[i]
            == drv.wrapped(frames[i]) by {
            if i < front.len() {
                assert(front[i] == frames[i]);
                assert(carriers(drv, front)[i] == drv.wrapped(front[i]));
            }
        }
    }
}

} // verus!
