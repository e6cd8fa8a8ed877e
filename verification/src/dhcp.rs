//! The DHCP client: its messages, the options it reads, and the exchange with
//! a server.

use crate::bytes::{
    append, be16, be16_at, be16_bytes, be32, be32_at, be32_bytes, lemma_be32_bytes,
    lemma_be32_roundtrip, lemma_read_values, lemma_written_values, overlay, put, read_be16,
    read_be32,
};
use crate::checksum::{
    checksum_of, fold, header_total, lemma_checksum_completes, lemma_checksum_verifies,
    lemma_header_sum, lemma_word_sum_bound, sum_words, word_sum,
};
use crate::error::{too_small, TetherError, TetherErrorView};
use crate::net_types::{
    dns1_default, dns2_default, gateway_default, netmask_default, static_ip_default, zeros,
    DhcpLease, DhcpPacket, EthHdr, Ipv4Addr, MacAddr, DHCP_CLIENT_PORT, DHCP_MAGIC_COOKIE,
    DHCP_SERVER_PORT, IPV4_ETHERTYPE,
};
use crate::rndis::{
    carried_frames, data_packet, lemma_packet_roundtrip, lemma_packet_then, lemma_row_ends, packet_of,
    RndisPacketIter,
};
use vstd::prelude::*;

verus! {

/// The size of the Ethernet frame of a message.
pub const DHCP_FRAME_SIZE: usize = 314;

/// The transaction that the client works in.
pub const DHCP_XID: u32 = 0x12345678;

/// How often the client waits for an answer in each half of the exchange.
pub const DHCP_ATTEMPTS: u32 = 50;

/// The checksum of a header; a last single byte is left out.
pub fn checksum(iph: &[u8]) -> (r: u16)
    requires
        word_sum(iph@, iph@.len() / 2) <= u32::MAX,
    ensures
        r == checksum_of(word_sum(iph@, iph@.len() / 2)),
{
    fold(sum_words(iph))
}

/// `n` bytes with all bits set.
pub open spec fn ones(n: nat) -> Seq<u8> {
    Seq::new(n, |i: int| 0xFFu8)
}

/// The IP header of a message, with the place for the checksum left zero: 300
/// bytes of UDP to everyone.
pub open spec fn ip_header_blank() -> Seq<u8> {
    seq![0x45u8, 0x00] + be16(300) + zeros(4) + seq![64u8, 0x11] + zeros(2) + zeros(4) + ones(4)
}

/// The IP header of a message.
pub open spec fn ip_header() -> Seq<u8> {
    overlay(ip_header_blank(), 10, be16(checksum_of(word_sum(ip_header_blank(), 10))))
}

/// The UDP header of a message.
pub open spec fn udp_header() -> Seq<u8> {
    be16(DHCP_CLIENT_PORT) + be16(DHCP_SERVER_PORT) + be16(280) + zeros(2)
}

/// The part of a message in front of the options: a request for this hardware
/// address that asks for an answer by broadcast.
pub open spec fn dhcp_fixed_part(mac: Seq<u8>, xid: u32) -> Seq<u8> {
    seq![1u8, 1, 6, 0] + be32(xid) + be16(0) + be16(0x8000) + zeros(16) + mac + zeros(10) + zeros(
        192,
    ) + be32(DHCP_MAGIC_COOKIE)
}

/// The Ethernet frame of a message with these options.
pub open spec fn dhcp_frame(mac: Seq<u8>, xid: u32, options: Seq<u8>) -> Seq<u8> {
    ones(6) + mac + be16(IPV4_ETHERTYPE) + ip_header() + udp_header() + dhcp_fixed_part(mac, xid)
        + options + zeros((32 - options.len()) as nat)
}

/// The options of a message that looks for a server: its type, and the wish for
/// a netmask, a router and name servers.
pub open spec fn discover_options() -> Seq<u8> {
    seq![53u8, 1, 1, 55, 3, 1, 3, 6, 0xFF]
}

/// The options of a message that asks for the offered address.
pub open spec fn request_options(offered: Ipv4Addr, server: Ipv4Addr) -> Seq<u8> {
    seq![53u8, 1, 3, 50, 4] + be32(offered.bits) + seq![54u8, 4] + be32(server.bits) + seq![
        55u8,
        3,
        1,
        3,
        6,
        0xFF,
    ]
}

/// The frame that looks for a server.
pub open spec fn discover_frame(mac: Seq<u8>, xid: u32) -> Seq<u8> {
    dhcp_frame(mac, xid, discover_options())
}

/// The frame that asks for the offered address.
pub open spec fn request_frame(
    mac: Seq<u8>,
    xid: u32,
    offered: Ipv4Addr,
    server: Ipv4Addr,
) -> Seq<u8> {
    dhcp_frame(mac, xid, request_options(offered, server))
}

fn append_ip_header(out: &mut Vec<u8>)
    ensures
        final(out)@ == old(out)@ + ip_header(),
{
    let ghost before = out@;
    let mut hdr: Vec<u8> = Vec::new();
    hdr.push(0x45);
    hdr.push(0x00);
    append(&mut hdr, &be16_bytes(300));
    append(&mut hdr, &[0u8, 0, 0, 0, 64, 0x11, 0, 0, 0, 0, 0, 0, 0xFF, 0xFF, 0xFF, 0xFF]);
    assert(hdr@ =~= ip_header_blank());
    proof {
        lemma_word_sum_bound(hdr@, 10);
    }
    let sum = checksum(hdr.as_slice());
    let c = be16_bytes(sum);
    append(out, &hdr.as_slice()[0..10]);
    append(out, &c);
    append(out, &hdr.as_slice()[12..20]);
    assert(out@ =~= before + ip_header());
}

fn append_udp_header(out: &mut Vec<u8>)
    ensures
        final(out)@ == old(out)@ + udp_header(),
{
    let ghost before = out@;
    append(out, &be16_bytes(DHCP_CLIENT_PORT));
    append(out, &be16_bytes(DHCP_SERVER_PORT));
    append(out, &be16_bytes(280));
    append(out, &[0u8, 0]);
    assert(out@ =~= before + udp_header());
}

fn append_fixed_part(out: &mut Vec<u8>, mac: &[u8; 6], xid: u32)
    ensures
        final(out)@ == old(out)@ + dhcp_fixed_part(mac@, xid),
{
    let ghost before = out@;
    let mut packet = DhcpPacket::default();
    packet.op = 1;
    packet.htype = 1;
    packet.hlen = 6;
    packet.xid = xid;
    packet.flags = 0x8000;
    packet.magic = DHCP_MAGIC_COOKIE;
    packet.chaddr = [
        mac[0],
        mac[1],
        mac[2],
        mac[3],
        mac[4],
        mac[5],
        0,
        0,
        0,
        0,
        0,
        0,
        0,
        0,
        0,
        0,
    ];
    packet.append_fixed_to(out);
    assert(packet.chaddr@ =~= mac@ + zeros(10));
    assert(be32(0) =~= zeros(4));
    assert(packet.fixed_bytes() =~= dhcp_fixed_part(mac@, xid));
    assert(out@ =~= before + dhcp_fixed_part(mac@, xid));
}

/// Writes a message at the start of `buf` and zeros behind it.
fn build_message(buf: &mut [u8], mac: &[u8; 6], xid: u32, options: &[u8]) -> (r: Result<
    usize,
    TetherError,
>)
    requires
        options@.len() <= 32,
    ensures
        old(buf)@.len() < DHCP_FRAME_SIZE ==> {
            &&& r matches Err(e) && e@ == too_small(314, old(buf)@.len())
            &&& final(buf)@ == old(buf)@
        },
        old(buf)@.len() >= DHCP_FRAME_SIZE ==> {
            &&& r == Ok::<usize, TetherError>(DHCP_FRAME_SIZE)
            &&& final(buf)@ == dhcp_frame(mac@, xid, options@) + zeros(
                (old(buf)@.len() - 314) as nat,
            )
        },
{
    let size = buf.len();
    if size < DHCP_FRAME_SIZE {
        return Err(TetherError::BufferTooSmall { need: DHCP_FRAME_SIZE, got: size });
    }
    let ghost before = buf@;
    let mut frame: Vec<u8> = Vec::new();
    let eth = EthHdr {
        dst: [0xFF, 0xFF, 0xFF, 0xFF, 0xFF, 0xFF],
        src: *mac,
        ethertype: IPV4_ETHERTYPE,
    };
    eth.append_to(&mut frame);
    assert(eth.dst@ =~= ones(6));
    append_ip_header(&mut frame);
    append_udp_header(&mut frame);
    append_fixed_part(&mut frame, mac, xid);
    append(&mut frame, options);
    let ghost head = frame@;
    assert(head =~= ones(6) + mac@ + be16(IPV4_ETHERTYPE) + ip_header() + udp_header()
        + dhcp_fixed_part(mac@, xid) + options@);
    assert(head.len() == 282 + options@.len());
    while frame.len() < size
        invariant
            size >= 314,
            head.len() <= frame@.len() <= size,
            frame@ == head + zeros((frame@.len() - head.len()) as nat),
        decreases size - frame@.len(),
    {
        frame.push(0);
        assert(frame@ =~= head + zeros((frame@.len() - head.len()) as nat));
    }
    put(buf, 0, frame.as_slice());
    proof {
        let msg = dhcp_frame(mac@, xid, options@);
        assert(zeros((size - head.len()) as nat) =~= zeros((32 - options@.len()) as nat) + zeros(
            (size - 314) as nat,
        ));
        assert(frame@ =~= msg + zeros((size - 314) as nat));
        assert(overlay(before, 0, frame@) =~= frame@);
    }
    Ok(DHCP_FRAME_SIZE)
}

/// Writes the frame that looks for a server at the start of `buf` and zeros
/// behind it.
pub fn build_discover(buf: &mut [u8], mac: &[u8; 6], xid: u32) -> (r: Result<usize, TetherError>)
    ensures
        old(buf)@.len() < DHCP_FRAME_SIZE ==> {
            &&& r matches Err(e) && e@ == too_small(314, old(buf)@.len())
            &&& final(buf)@ == old(buf)@
        },
        old(buf)@.len() >= DHCP_FRAME_SIZE ==> {
            &&& r == Ok::<usize, TetherError>(DHCP_FRAME_SIZE)
            &&& final(buf)@ == discover_frame(mac@, xid) + zeros((old(buf)@.len() - 314) as nat)
        },
{
    let options = [53u8, 1, 1, 55, 3, 1, 3, 6, 0xFF];
    assert(options@ =~= discover_options());
    build_message(buf, mac, xid, &options)
}

/// Writes the frame that asks for the offered address at the start of `buf` and
/// zeros behind it.
pub fn build_request(
    buf: &mut [u8],
    mac: &[u8; 6],
    xid: u32,
    offered_ip: Ipv4Addr,
    server_ip: Ipv4Addr,
) -> (r: Result<usize, TetherError>)
    ensures
        old(buf)@.len() < DHCP_FRAME_SIZE ==> {
            &&& r matches Err(e) && e@ == too_small(314, old(buf)@.len())
            &&& final(buf)@ == old(buf)@
        },
        old(buf)@.len() >= DHCP_FRAME_SIZE ==> {
            &&& r == Ok::<usize, TetherError>(DHCP_FRAME_SIZE)
            &&& final(buf)@ == request_frame(mac@, xid, offered_ip, server_ip) + zeros(
                (old(buf)@.len() - 314) as nat,
            )
        },
{
    let mut options: Vec<u8> = Vec::new();
    append(&mut options, &[53u8, 1, 3, 50, 4]);
    append(&mut options, &be32_bytes(offered_ip.bits));
    append(&mut options, &[54u8, 4]);
    append(&mut options, &be32_bytes(server_ip.bits));
    append(&mut options, &[55u8, 3, 1, 3, 6, 0xFF]);
    assert(options@ =~= request_options(offered_ip, server_ip));
    build_message(buf, mac, xid, options.as_slice())
}

/// The IP header of every message that the client sends has a valid checksum.
pub proof fn lemma_message_header_verifies(mac: Seq<u8>, xid: u32, options: Seq<u8>)
    requires
        mac.len() == 6,
        options.len() <= 32,
    ensures
        dhcp_frame(mac, xid, options).subrange(14, 34) == ip_header(),
        checksum_of(word_sum(dhcp_frame(mac, xid, options).subrange(14, 34), 10)) == 0,
{
    let blank = ip_header_blank();
    assert(be16_at(blank, 10) == 0);
    lemma_checksum_verifies(blank, 5, 10);
    assert(dhcp_frame(mac, xid, options).subrange(14, 34) =~= ip_header());
}

/// One option of a message: its code, the length that it claims, and the bytes
/// of its value that are there.
pub struct DhcpOption {
    pub code: u8,
    pub claimed: nat,
    pub value: Seq<u8>,
}

/// The option that starts at `i`.
pub open spec fn option_at(s: Seq<u8>, i: int) -> DhcpOption {
    let end = i + 2 + s[i + 1];
    DhcpOption {
        code: s[i],
        claimed: s[i + 1] as nat,
        value: s.subrange(
            i + 2,
            if end <= s.len() {
                end
            } else {
                s.len() as int
            },
        ),
    }
}

/// The options from position `i` on, up to the end marker or the end of the
/// bytes. Padding stands for no option. An option that claims more bytes than
/// there are ends the row, and belongs to it only if `keep_cut` is set.
pub open spec fn options_from(s: Seq<u8>, i: int, keep_cut: bool) -> Seq<DhcpOption>
    decreases s.len() - i,
{
    if i < 0 || i >= s.len() || s[i] == 0xFF {
        Seq::empty()
    } else if s[i] == 0x00 {
        options_from(s, i + 1, keep_cut)
    } else if i + 1 >= s.len() {
        Seq::empty()
    } else if i + 2 + s[i + 1] > s.len() {
        if keep_cut {
            seq![option_at(s, i)]
        } else {
            Seq::empty()
        }
    } else {
        seq![option_at(s, i)] + options_from(s, i + 2 + s[i + 1], keep_cut)
    }
}

/// The value of the last option with this code that claims at least `need`
/// bytes.
pub open spec fn last_value(options: Seq<DhcpOption>, code: u8, need: nat) -> Option<Seq<u8>>
    decreases options.len(),
{
    if options.len() == 0 {
        None
    } else if options.last().code == code && options.last().claimed >= need {
        Some(options.last().value)
    } else {
        last_value(options.drop_last(), code, need)
    }
}

proof fn lemma_last_value_push(options: Seq<DhcpOption>, o: DhcpOption, code: u8, need: nat)
    ensures
        last_value(options.push(o), code, need) == (if o.code == code && o.claimed >= need {
            Some(o.value)
        } else {
            last_value(options, code, need)
        }),
{
    assert(options.push(o).drop_last() =~= options);
}

/// The address that stands at position `at` of an option's value.
pub open spec fn address_in(value: Option<Seq<u8>>, at: int) -> Option<Ipv4Addr> {
    match value {
        Some(v) => Some(Ipv4Addr { bits: be32_at(v, at) }),
        None => None,
    }
}

/// The options that are there as a whole.
pub open spec fn whole_options(opts: Seq<u8>) -> Seq<DhcpOption> {
    options_from(opts, 0, false)
}

/// The gateway, the netmask and the two name servers that the options name.
pub open spec fn network_options(opts: Seq<u8>) -> (
    Option<Ipv4Addr>,
    Option<Ipv4Addr>,
    Option<Ipv4Addr>,
    Option<Ipv4Addr>,
) {
    let list = whole_options(opts);
    (
        address_in(last_value(list, 3, 4), 0),
        address_in(last_value(list, 1, 4), 0),
        address_in(last_value(list, 6, 4), 0),
        address_in(last_value(list, 6, 8), 4),
    )
}

proof fn lemma_row_end(done: Seq<DhcpOption>)
    ensures
        done + Seq::empty() == done,
{
    assert(done + Seq::empty() =~= done);
}

proof fn lemma_row_step(done: Seq<DhcpOption>, o: DhcpOption, rest: Seq<DhcpOption>)
    ensures
        done + (seq![o] + rest) == done.push(o) + rest,
{
    assert(done + (seq![o] + rest) =~= done.push(o) + rest);
}

/// Reads the address at position `at`, which is position `at - start` of an
/// option's value.
fn read_address(opts: &[u8], at: usize, Ghost(start): Ghost<int>, Ghost(end): Ghost<int>) -> (r:
    Ipv4Addr)
    requires
        0 <= start <= at,
        at + 4 <= end <= opts@.len(),
    ensures
        r.bits == be32_at(opts@.subrange(start, end), at - start),
{
    Ipv4Addr { bits: read_be32(opts, at) }
}

/// The gateway, the netmask and the two name servers that the options name.
pub fn parse_dhcp_options(opts: &[u8]) -> (r: (
    Option<Ipv4Addr>,
    Option<Ipv4Addr>,
    Option<Ipv4Addr>,
    Option<Ipv4Addr>,
))
    ensures
        r == network_options(opts@),
{
    let mut gateway: Option<Ipv4Addr> = None;
    let mut netmask: Option<Ipv4Addr> = None;
    let mut dns1: Option<Ipv4Addr> = None;
    let mut dns2: Option<Ipv4Addr> = None;
    let n = opts.len();
    let mut i: usize = 0;
    let ghost mut done: Seq<DhcpOption> = Seq::empty();
    assert(whole_options(opts@) =~= done + options_from(opts@, 0, false));
    while i < n
        invariant_except_break
            i <= n,
            whole_options(opts@) == done + options_from(opts@, i as int, false),
        invariant
            n == opts@.len(),
            gateway == address_in(last_value(done, 3, 4), 0),
            netmask == address_in(last_value(done, 1, 4), 0),
            dns1 == address_in(last_value(done, 6, 4), 0),
            dns2 == address_in(last_value(done, 6, 8), 4),
        ensures
            whole_options(opts@) == done,
        decreases n - i,
    {
        proof {
            lemma_row_end(done);
        }
        let code = opts[i];
        if code == 0xFF {
            break ;
        }
        if code == 0x00 {
            i = i + 1;
            proof {
                lemma_row_end(done);
            }
            continue ;
        }
        if n - i <= 1 {
            break ;
        }
        let olen = opts[i + 1] as usize;
        if olen > n - i - 2 {
            break ;
        }
        let ghost o = option_at(opts@, i as int);
        let ghost end = i + 2 + olen;
        if code == 1 && olen >= 4 {
            netmask = Some(read_address(opts, i + 2, Ghost(i + 2), Ghost(end)));
        } else if code == 3 && olen >= 4 {
            gateway = Some(read_address(opts, i + 2, Ghost(i + 2), Ghost(end)));
        } else if code == 6 && olen >= 4 {
            dns1 = Some(read_address(opts, i + 2, Ghost(i + 2), Ghost(end)));
            if olen >= 8 {
                dns2 = Some(read_address(opts, i + 6, Ghost(i + 2), Ghost(end)));
            }
        }
        proof {
            lemma_last_value_push(done, o, 1, 4);
            lemma_last_value_push(done, o, 3, 4);
            lemma_last_value_push(done, o, 6, 4);
            lemma_last_value_push(done, o, 6, 8);
            lemma_row_step(done, o, options_from(opts@, end, false));
            done = done.push(o);
            lemma_row_end(done);
        }
        i = i + 2 + olen;
    }
    (gateway, netmask, dns1, dns2)
}

/// The type of a message, zero if no option gives it.
pub open spec fn message_type(options: Seq<DhcpOption>) -> u8 {
    match last_value(options, 53, 1) {
        Some(v) => v[0],
        None => 0,
    }
}

/// The type of a message, read from the options that are there as a whole.
pub fn acknowledged_type(opts: &[u8]) -> (r: u8)
    ensures
        r == message_type(whole_options(opts@)),
{
    let mut msg_type: u8 = 0;
    let n = opts.len();
    let mut i: usize = 0;
    let ghost mut done: Seq<DhcpOption> = Seq::empty();
    assert(whole_options(opts@) =~= done + options_from(opts@, 0, false));
    while i < n
        invariant_except_break
            i <= n,
            whole_options(opts@) == done + options_from(opts@, i as int, false),
        invariant
            n == opts@.len(),
            msg_type == message_type(done),
        ensures
            whole_options(opts@) == done,
        decreases n - i,
    {
        proof {
            lemma_row_end(done);
        }
        let code = opts[i];
        if code == 0xFF {
            break ;
        }
        if code == 0x00 {
            i = i + 1;
            continue ;
        }
        if n - i <= 1 {
            break ;
        }
        let olen = opts[i + 1] as usize;
        if olen > n - i - 2 {
            break ;
        }
        let ghost o = option_at(opts@, i as int);
        if code == 53 && olen >= 1 {
            msg_type = opts[i + 2];
        }
        proof {
            lemma_last_value_push(done, o, 53, 1);
            lemma_row_step(done, o, options_from(opts@, i + 2 + olen, false));
            done = done.push(o);
            lemma_row_end(done);
        }
        i = i + 2 + olen;
    }
    msg_type
}

/// The options of an offer, with one at the end that is cut off.
pub open spec fn offered_options(opts: Seq<u8>) -> Seq<DhcpOption> {
    options_from(opts, 0, true)
}

/// Whether the type or the server's address lies behind the end of the bytes.
pub open spec fn option_overruns(o: DhcpOption) -> bool {
    ||| o.code == 53 && o.claimed >= 1 && o.value.len() < 1
    ||| o.code == 54 && o.claimed >= 4 && o.value.len() < 4
}

/// Whether an option of an offer overruns.
pub open spec fn options_overrun(opts: Seq<u8>) -> bool {
    exists|i: int|
        0 <= i < offered_options(opts).len() && option_overruns(
            #[trigger] offered_options(opts)[i],
        )
}

/// The type of a message and the server that it names, or `None` if one of
/// them lies behind the end of the bytes.
pub fn scan_offer(opts: &[u8]) -> (r: Option<(u8, Option<Ipv4Addr>)>)
    ensures
        r is None <==> options_overrun(opts@),
        r matches Some((msg_type, server)) ==> {
            &&& msg_type == message_type(offered_options(opts@))
            &&& server == address_in(last_value(offered_options(opts@), 54, 4), 0)
        },
{
    let mut msg_type: u8 = 0;
    let mut server: Option<Ipv4Addr> = None;
    let n = opts.len();
    let mut i: usize = 0;
    let ghost all = offered_options(opts@);
    let ghost mut done: Seq<DhcpOption> = Seq::empty();
    assert(all =~= done + options_from(opts@, 0, true));
    while i < n
        invariant_except_break
            i <= n,
            all == done + options_from(opts@, i as int, true),
        invariant
            n == opts@.len(),
            all == offered_options(opts@),
            msg_type == message_type(done),
            server == address_in(last_value(done, 54, 4), 0),
            forall|k: int| 0 <= k < done.len() ==> !option_overruns(#[trigger] done[k]),
        ensures
            all == done,
        decreases n - i,
    {
        proof {
            lemma_row_end(done);
        }
        let code = opts[i];
        if code == 0xFF {
            break ;
        }
        if code == 0x00 {
            i = i + 1;
            continue ;
        }
        if n - i <= 1 {
            break ;
        }
        let olen = opts[i + 1] as usize;
        let left = n - i - 2;
        let ghost o = option_at(opts@, i as int);
        let ghost end = if olen <= left {
            i + 2 + olen
        } else {
            n as int
        };
        assert(o.value.len() == if olen <= left {
            olen
        } else {
            left
        });
        let ghost rest = if olen <= left {
            options_from(opts@, i + 2 + olen, true)
        } else {
            Seq::empty()
        };
        proof {
            lemma_row_step(done, o, rest);
            if olen > left {
                lemma_row_end(seq![o]);
            }
            assert(all == done.push(o) + rest);
            assert(all[done.len() as int] == o);
        }
        if (code == 53 && olen >= 1 && left < 1) || (code == 54 && olen >= 4 && left < 4) {
            assert(option_overruns(all[done.len() as int]));
            return None;
        }
        if code == 53 && olen >= 1 {
            msg_type = opts[i + 2];
        }
        if code == 54 && olen >= 4 {
            server = Some(read_address(opts, i + 2, Ghost(i + 2), Ghost(end)));
        }
        proof {
            lemma_last_value_push(done, o, 53, 1);
            lemma_last_value_push(done, o, 54, 4);
            done = done.push(o);
            lemma_row_end(done);
        }
        if olen > left {
            break ;
        }
        i = i + 2 + olen;
    }
    Some((msg_type, server))
}

/// Where the DHCP message starts in an Ethernet frame with a UDP datagram for
/// the client's port.
pub open spec fn message_start(frame: Seq<u8>) -> int {
    14 + (frame[14] % 16) * 4 + 8
}

/// Whether an Ethernet frame holds a message for this transaction.
pub open spec fn holds_message(frame: Seq<u8>, xid: u32) -> bool {
    let start = message_start(frame);
    &&& frame.len() >= 282
    &&& be16_at(frame, 12) == IPV4_ETHERTYPE
    &&& frame[23] == 0x11
    &&& start + 2 <= frame.len()
    &&& be16_at(frame, start - 6) == DHCP_CLIENT_PORT
    &&& start + 240 <= frame.len()
    &&& be32_at(frame, start + 236) == DHCP_MAGIC_COOKIE
    &&& be32_at(frame, start + 4) == xid
}

/// The options of the message in a frame.
pub open spec fn frame_options(frame: Seq<u8>) -> Seq<u8> {
    frame.subrange(message_start(frame) + 240, frame.len() as int)
}

/// The address that the message in a frame is about.
pub open spec fn your_address(frame: Seq<u8>) -> Ipv4Addr {
    Ipv4Addr { bits: be32_at(frame, message_start(frame) + 16) }
}

/// Where the message for this transaction starts in an Ethernet frame, if the
/// frame holds one.
pub fn find_message(frame: &[u8], xid: u32) -> (r: Option<usize>)
    ensures
        r == (if holds_message(frame@, xid) {
            Some(message_start(frame@) as usize)
        } else {
            None
        }),
        r is Some ==> r->0 == message_start(frame@),
{
    let n = frame.len();
    if n < 282 {
        return None;
    }
    if read_be16(frame, 12) != IPV4_ETHERTYPE {
        return None;
    }
    if frame[23] != 0x11 {
        return None;
    }
    let udp_start: usize = 14 + (frame[14] % 16) as usize * 4;
    if udp_start + 10 > n {
        return None;
    }
    if read_be16(frame, udp_start + 2) != DHCP_CLIENT_PORT {
        return None;
    }
    let start = udp_start + 8;
    if start + 240 > n {
        return None;
    }
    if read_be32(frame, start + 236) != DHCP_MAGIC_COOKIE || read_be32(frame, start + 4) != xid {
        return None;
    }
    Some(start)
}

/// The address that was offered last, and the server that was named last.
pub struct Offers {
    pub address: Option<Ipv4Addr>,
    pub server: Option<Ipv4Addr>,
}

/// What a frame adds to the offers so far.
pub open spec fn with_frame(offers: Offers, frame: Seq<u8>, xid: u32) -> Offers {
    if !holds_message(frame, xid) {
        offers
    } else {
        let options = offered_options(frame_options(frame));
        Offers {
            address: if message_type(options) == 2 {
                Some(your_address(frame))
            } else {
                offers.address
            },
            server: match last_value(options, 54, 4) {
                Some(v) => address_in(Some(v), 0),
                None => offers.server,
            },
        }
    }
}

/// What a row of frames adds to the offers so far.
pub open spec fn with_frames(offers: Offers, frames: Seq<Seq<u8>>, xid: u32) -> Offers
    decreases frames.len(),
{
    if frames.len() == 0 {
        offers
    } else {
        with_frame(with_frames(offers, frames.drop_last(), xid), frames.last(), xid)
    }
}

/// Whether a frame holds a message with an option that overruns.
pub open spec fn frame_overruns(frame: Seq<u8>, xid: u32) -> bool {
    holds_message(frame, xid) && options_overrun(frame_options(frame))
}

/// Whether one of the received frames overruns.
pub open spec fn data_overruns(data: Seq<u8>, xid: u32) -> bool {
    exists|i: int|
        0 <= i < carried_frames(data).len() && frame_overruns(
            #[trigger] carried_frames(data)[i],
            xid,
        )
}

/// Reads the offers out of what the device has sent; `None` if a frame
/// overruns.
fn read_offers(data: &[u8], server: Option<Ipv4Addr>, xid: u32) -> (r: Option<
    (Option<Ipv4Addr>, Option<Ipv4Addr>),
>)
    ensures
        r is None <==> data_overruns(data@, xid),
        r matches Some((a, s)) ==> (Offers { address: a, server: s }) == with_frames(
            Offers { address: None, server },
            carried_frames(data@),
            xid,
        ),
{
    let ghost start = Offers { address: None, server };
    let ghost all = carried_frames(data@);
    let ghost mut done: Seq<Seq<u8>> = Seq::empty();
    let mut packets = RndisPacketIter::new(data);
    let mut address: Option<Ipv4Addr> = None;
    let mut named: Option<Ipv4Addr> = server;
    assert(all =~= done + packets.remaining());
    loop
        invariant_except_break
            all == done + packets.remaining(),
        invariant
            all == carried_frames(data@),
            (Offers { address, server: named }) == with_frames(start, done, xid),
            forall|k: int| 0 <= k < done.len() ==> !frame_overruns(#[trigger] done[k], xid),
        ensures
            all == done,
        decreases packets.remaining().len(),
    {
        let ghost rest = packets.remaining();
        match packets.next() {
            None => {
                assert(done + rest =~= done);
                break ;
            },
            Some(frame) => {
                proof {
                    assert(all =~= done.push(frame@) + packets.remaining());
                    assert(all[done.len() as int] == frame@);
                    assert(done.push(frame@).drop_last() =~= done);
                }
                if let Some(at) = find_message(frame, xid) {
                    let opts = &frame[at + 240..frame.len()];
                    assert(opts@ =~= frame_options(frame@));
                    match scan_offer(opts) {
                        None => {
                            assert(frame_overruns(all[done.len() as int], xid));
                            return None;
                        },
                        Some((msg_type, found)) => {
                            if found.is_some() {
                                named = found;
                            }
                            if msg_type == 2 {
                                address = Some(Ipv4Addr { bits: read_be32(frame, at + 16) });
                            }
                        },
                    }
                }
                proof {
                    done = done.push(frame@);
                }
            },
        }
    }
    Some((address, named))
}

/// The lease that a frame acknowledges, if it does. What the server leaves out
/// is filled up with the defaults.
pub open spec fn acknowledged_lease(frame: Seq<u8>, xid: u32) -> Option<DhcpLease> {
    let opts = frame_options(frame);
    let (gateway, netmask, dns1, dns2) = network_options(opts);
    if holds_message(frame, xid) && message_type(whole_options(opts)) == 5 {
        Some(
            DhcpLease {
                ip: your_address(frame),
                gateway: or_default(gateway, gateway_default()),
                netmask: or_default(netmask, netmask_default()),
                dns1: or_default(dns1, dns1_default()),
                dns2: or_default(dns2, dns2_default()),
            },
        )
    } else {
        None
    }
}

/// An address, or the default where there is none.
pub open spec fn or_default(ip: Option<Ipv4Addr>, default: Ipv4Addr) -> Ipv4Addr {
    match ip {
        Some(a) => a,
        None => default,
    }
}

/// The lease of the first frame that acknowledges one.
pub open spec fn first_lease(frames: Seq<Seq<u8>>, xid: u32) -> Option<DhcpLease>
    decreases frames.len(),
{
    if frames.len() == 0 {
        None
    } else {
        match acknowledged_lease(frames[0], xid) {
            Some(lease) => Some(lease),
            None => first_lease(frames.drop_first(), xid),
        }
    }
}

/// The lease that is used when no server acknowledges one.
pub open spec fn default_lease() -> DhcpLease {
    DhcpLease {
        ip: static_ip_default(),
        gateway: gateway_default(),
        netmask: netmask_default(),
        dns1: dns1_default(),
        dns2: dns2_default(),
    }
}

fn filled(ip: Option<Ipv4Addr>, default: Ipv4Addr) -> (r: Ipv4Addr)
    ensures
        r == or_default(ip, default),
{
    match ip {
        Some(a) => a,
        None => default,
    }
}

fn defaults() -> (r: DhcpLease)
    ensures
        r == default_lease(),
{
    DhcpLease {
        ip: Ipv4Addr { bits: 0xC0A8_2A64 },
        gateway: Ipv4Addr { bits: 0xC0A8_2A81 },
        netmask: Ipv4Addr { bits: 0xFFFF_FF00 },
        dns1: Ipv4Addr { bits: 0x0808_0808 },
        dns2: Ipv4Addr { bits: 0x0808_0404 },
    }
}

fn read_lease(frame: &[u8], xid: u32) -> (r: Option<DhcpLease>)
    ensures
        r == acknowledged_lease(frame@, xid),
{
    let at = match find_message(frame, xid) {
        Some(at) => at,
        None => return None,
    };
    let opts = &frame[at + 240..frame.len()];
    assert(opts@ =~= frame_options(frame@));
    if acknowledged_type(opts) != 5 {
        return None;
    }
    let (gateway, netmask, dns1, dns2) = parse_dhcp_options(opts);
    let d = defaults();
    Some(
        DhcpLease {
            ip: Ipv4Addr { bits: read_be32(frame, at + 16) },
            gateway: filled(gateway, d.gateway),
            netmask: filled(netmask, d.netmask),
            dns1: filled(dns1, d.dns1),
            dns2: filled(dns2, d.dns2),
        },
    )
}

fn read_acknowledgement(data: &[u8], xid: u32) -> (r: Option<DhcpLease>)
    ensures
        r == first_lease(carried_frames(data@), xid),
{
    let mut packets = RndisPacketIter::new(data);
    let ghost all = packets.remaining();
    loop
        invariant
            first_lease(all, xid) == first_lease(packets.remaining(), xid),
            all == carried_frames(data@),
        decreases packets.remaining().len(),
    {
        let ghost rest = packets.remaining();
        match packets.next() {
            None => {
                return None;
            },
            Some(frame) => {
                proof {
                    assert(rest.drop_first() =~= packets.remaining());
                    assert(rest[0] == frame@);
                }
                let lease = read_lease(frame, xid);
                if lease.is_some() {
                    return lease;
                }
            },
        }
    }
}

/// How far the exchange has come.
#[derive(Debug, Clone, Copy, PartialEq, Eq, Structural)]
pub enum DhcpPhase {
    /// Waiting for an offer.
    Discovering,
    /// Waiting for the acknowledgement of a request.
    Requesting,
    /// Over.
    Finished,
}

/// The client's side of an exchange.
#[derive(Debug, Clone, Copy)]
pub struct DhcpClient {
    pub mac: MacAddr,
    pub phase: DhcpPhase,
    /// How often the client still waits in this phase.
    pub attempts_left: u32,
    /// The server that was named last.
    pub server: Option<Ipv4Addr>,
}

/// What the client wants done next.
#[derive(Debug)]
pub enum DhcpAction {
    /// Wait for data from the device.
    Receive,
    /// Send these bytes to the device, then wait for data.
    Send(Vec<u8>),
    /// Use this lease.
    Done(DhcpLease),
    /// Give up.
    Failed(TetherError),
}

/// A [`DhcpAction`] with its parts by their views.
pub enum DhcpActionView {
    Receive,
    Send(Seq<u8>),
    Done(DhcpLease),
    Failed(TetherErrorView),
}

impl View for DhcpAction {
    type V = DhcpActionView;

    open spec fn view(&self) -> DhcpActionView {
        match *self {
            DhcpAction::Receive => DhcpActionView::Receive,
            DhcpAction::Send(bytes) => DhcpActionView::Send(bytes@),
            DhcpAction::Done(lease) => DhcpActionView::Done(lease),
            DhcpAction::Failed(e) => DhcpActionView::Failed(e@),
        }
    }
}

/// The client after it has waited once in vain, and what it wants then.
pub open spec fn after_silence(client: DhcpClient) -> (DhcpClient, DhcpActionView) {
    if client.attempts_left > 1 {
        (
            DhcpClient { attempts_left: (client.attempts_left - 1) as u32, ..client },
            DhcpActionView::Receive,
        )
    } else {
        (
            DhcpClient { attempts_left: 0, phase: DhcpPhase::Finished, ..client },
            match client.phase {
                DhcpPhase::Discovering => DhcpActionView::Failed(
                    TetherErrorView::Dhcp("no DHCP offer received"@),
                ),
                _ => DhcpActionView::Done(default_lease()),
            },
        )
    }
}

/// The client after data has come in (or none, in time), and what it wants
/// then.
pub open spec fn after_data(client: DhcpClient, data: Seq<u8>) -> (DhcpClient, DhcpActionView) {
    match client.phase {
        DhcpPhase::Discovering => {
            let offers = with_frames(
                Offers { address: None, server: client.server },
                carried_frames(data),
                DHCP_XID,
            );
            match offers.address {
                Some(ip) => (
                    DhcpClient {
                        phase: DhcpPhase::Requesting,
                        attempts_left: DHCP_ATTEMPTS,
                        server: offers.server,
                        ..client
                    },
                    DhcpActionView::Send(
                        data_packet(
                            request_frame(
                                client.mac.0@,
                                DHCP_XID,
                                ip,
                                or_default(offers.server, Ipv4Addr { bits: 0 }),
                            ),
                        ),
                    ),
                ),
                None => after_silence(DhcpClient { server: offers.server, ..client }),
            }
        },
        DhcpPhase::Requesting => match first_lease(carried_frames(data), DHCP_XID) {
            Some(lease) => (
                DhcpClient { attempts_left: 0, phase: DhcpPhase::Finished, ..client },
                DhcpActionView::Done(lease),
            ),
            None => after_silence(client),
        },
        DhcpPhase::Finished => (client, DhcpActionView::Receive),
    }
}

fn packet_with(frame: &[u8]) -> (r: Vec<u8>)
    requires
        frame@.len() >= 314,
    ensures
        r@ == data_packet(frame@.subrange(0, 314)),
{
    packet_of(&frame[0..314])
}

/// Starts an exchange: the client, and the bytes to send to the device first.
pub fn discover(mac: &MacAddr) -> (r: (DhcpClient, Vec<u8>))
    ensures
        r.0 == (DhcpClient {
            mac: *mac,
            phase: DhcpPhase::Discovering,
            attempts_left: DHCP_ATTEMPTS,
            server: None,
        }),
        r.1@ == data_packet(discover_frame(mac.0@, DHCP_XID)),
        r.0.waiting(),
{
    let mut frame = [0u8; 314];
    let _ = build_discover(&mut frame, &mac.0, DHCP_XID);
    let bytes = packet_with(&frame);
    assert(frame@.subrange(0, 314) =~= discover_frame(mac.0@, DHCP_XID));
    (
        DhcpClient {
            mac: *mac,
            phase: DhcpPhase::Discovering,
            attempts_left: DHCP_ATTEMPTS,
            server: None,
        },
        bytes,
    )
}

impl DhcpClient {
    /// Whether the client still waits for data.
    pub open spec fn waiting(self) -> bool {
        self.phase != DhcpPhase::Finished && 0 < self.attempts_left <= DHCP_ATTEMPTS
    }

    /// How often the client waits at most until the exchange is over.
    pub open spec fn waits_left(self) -> nat {
        match self.phase {
            DhcpPhase::Discovering => (self.attempts_left + DHCP_ATTEMPTS) as nat,
            DhcpPhase::Requesting => self.attempts_left as nat,
            DhcpPhase::Finished => 0,
        }
    }

    /// Whether `data` holds a message whose type or server lies behind its end.
    pub fn overruns(&self, data: &[u8]) -> (r: bool)
        ensures
            r == (self.phase == DhcpPhase::Discovering && data_overruns(data@, DHCP_XID)),
    {
        match self.phase {
            DhcpPhase::Discovering => read_offers(data, None, DHCP_XID).is_none(),
            _ => false,
        }
    }

    /// Takes in what the device has sent; no bytes if nothing came in time.
    pub fn receive(&mut self, data: &[u8]) -> (r: DhcpAction)
        requires
            old(self).waiting(),
            old(self).phase == DhcpPhase::Discovering ==> !data_overruns(data@, DHCP_XID),
        ensures
            (*final(self), r@) == after_data(*old(self), data@),
    {
        match self.phase {
            DhcpPhase::Discovering => {
                let (address, server) = match read_offers(data, self.server, DHCP_XID) {
                    Some(found) => found,
                    None => (None, None),
                };
                self.server = server;
                if let Some(ip) = address {
                    let from = filled(server, Ipv4Addr { bits: 0 });
                    let mut frame = [0u8; 314];
                    let _ = build_request(&mut frame, &self.mac.0, DHCP_XID, ip, from);
                    self.phase = DhcpPhase::Requesting;
                    self.attempts_left = DHCP_ATTEMPTS;
                    let bytes = packet_with(&frame);
                    assert(frame@.subrange(0, 314) =~= request_frame(
                        self.mac.0@,
                        DHCP_XID,
                        ip,
                        from,
                    ));
                    return DhcpAction::Send(bytes);
                }
            },
            _ => {
                if let Some(lease) = read_acknowledgement(data, DHCP_XID) {
                    self.attempts_left = 0;
                    self.phase = DhcpPhase::Finished;
                    return DhcpAction::Done(lease);
                }
            },
        }
        if self.attempts_left > 1 {
            self.attempts_left = self.attempts_left - 1;
            return DhcpAction::Receive;
        }
        let discovering = self.phase == DhcpPhase::Discovering;
        self.attempts_left = 0;
        self.phase = DhcpPhase::Finished;
        if discovering {
            DhcpAction::Failed(TetherError::Dhcp("no DHCP offer received".to_owned()))
        } else {
            DhcpAction::Done(defaults())
        }
    }
}

/// Every answer brings the exchange nearer to its end: the client goes on
/// waiting with fewer waits left, or it is done or has failed and waits no
/// more. An exchange that starts with `discover` so takes at most a hundred
/// waits.
pub proof fn lemma_exchange_ends(client: DhcpClient, data: Seq<u8>)
    requires
        client.waiting(),
    ensures
        ({
            let (next, action) = after_data(client, data);
            match action {
                DhcpActionView::Receive | DhcpActionView::Send(_) => {
                    &&& next.waiting()
                    &&& next.waits_left() < client.waits_left()
                },
                DhcpActionView::Done(_) | DhcpActionView::Failed(_) => {
                    next.phase == DhcpPhase::Finished
                },
            }
        }),
        client.waits_left() <= 2 * DHCP_ATTEMPTS,
{
}

/// Only an exchange without any offer fails; once a request is out, the client
/// ends with a lease.
pub proof fn lemma_request_never_fails(client: DhcpClient, data: Seq<u8>)
    requires
        client.waiting(),
        after_data(client, data).1 is Failed,
    ensures
        client.phase == DhcpPhase::Discovering,
{
}

/// An option is read by its code and its length, and what follows on it is read
/// as if it stood alone.
pub proof fn lemma_option_head(code: u8, value: Seq<u8>, rest: Seq<u8>, keep_cut: bool)
    requires
        code != 0,
        code != 0xFF,
        value.len() <= 255,
    ensures
        options_from(seq![code, value.len() as u8] + value + rest, 0, keep_cut) == seq![
            DhcpOption { code, claimed: value.len(), value },
        ] + options_from(rest, 0, keep_cut),
{
    let head = seq![code, value.len() as u8] + value;
    let s = head + rest;
    assert(s[0] == code && s[1] == value.len() as u8);
    assert(option_at(s, 0).value =~= value);
    lemma_options_shift(head, rest, 0, keep_cut);
}

/// Options are read alike wherever they stand.
pub proof fn lemma_options_shift(a: Seq<u8>, b: Seq<u8>, i: int, keep_cut: bool)
    requires
        0 <= i <= b.len(),
    ensures
        options_from(a + b, a.len() + i, keep_cut) == options_from(b, i, keep_cut),
    decreases b.len() - i,
{
    let n = a.len() as int;
    let s = a + b;
    if i < b.len() && b[i] != 0xFF {
        assert(s[n + i] == b[i]);
        if b[i] == 0 {
            lemma_options_shift(a, b, i + 1, keep_cut);
        } else if i + 1 < b.len() {
            assert(s[n + i + 1] == b[i + 1]);
            assert(option_at(s, n + i).value =~= option_at(b, i).value);
            if i + 2 + b[i + 1] <= b.len() {
                lemma_options_shift(a, b, i + 2 + b[i + 1], keep_cut);
            }
        }
    } else if i < b.len() {
        assert(s[n + i] == b[i]);
    }
}

/// A server that reads a request finds its type, the offered address and the
/// server that offered it; one that reads a message in search of servers finds
/// that type.
pub proof fn lemma_messages_read_back(offered: Ipv4Addr, server: Ipv4Addr, padding: Seq<u8>)
    ensures
        message_type(whole_options(discover_options() + padding)) == 1,
        message_type(whole_options(request_options(offered, server) + padding)) == 3,
        address_in(
            last_value(whole_options(request_options(offered, server) + padding), 50, 4),
            0,
        ) == Some(offered),
        address_in(
            last_value(whole_options(request_options(offered, server) + padding), 54, 4),
            0,
        ) == Some(server),
{
    let wishes = seq![1u8, 3, 6];
    let end = seq![0xFFu8] + padding;
    assert(options_from(end, 0, false) =~= Seq::empty());
    let o55 = DhcpOption { code: 55, claimed: 3, value: wishes };
    lemma_option_head(55, wishes, end, false);
    let tail = seq![55u8, 3] + wishes + end;

    let d = discover_options() + padding;
    let od = DhcpOption { code: 53, claimed: 1, value: seq![1u8] };
    lemma_option_head(53, seq![1u8], tail, false);
    assert(d =~= seq![53u8, 1] + seq![1u8] + tail);
    let discovered = whole_options(d);
    assert(discovered =~= seq![od, o55]);
    lemma_last_value_push(seq![od], o55, 53, 1);
    lemma_last_value_push(Seq::empty(), od, 53, 1);
    assert(seq![od, o55] =~= seq![od].push(o55));
    assert(seq![od] =~= Seq::empty().push(od));

    let r = request_options(offered, server) + padding;
    let o53 = DhcpOption { code: 53, claimed: 1, value: seq![3u8] };
    let o50 = DhcpOption { code: 50, claimed: 4, value: be32(offered.bits) };
    let o54 = DhcpOption { code: 54, claimed: 4, value: be32(server.bits) };
    let tail54 = seq![54u8, 4] + be32(server.bits) + tail;
    let tail50 = seq![50u8, 4] + be32(offered.bits) + tail54;
    lemma_option_head(54, be32(server.bits), tail, false);
    lemma_option_head(50, be32(offered.bits), tail54, false);
    lemma_option_head(53, seq![3u8], tail50, false);
    assert(r =~= seq![53u8, 1] + seq![3u8] + tail50);
    let requested = whole_options(r);
    assert(requested =~= seq![o53, o50, o54, o55]);
    let a = seq![o53];
    let b = a.push(o50);
    let c = b.push(o54);
    assert(requested =~= c.push(o55));
    assert(a =~= Seq::empty().push(o53));
    lemma_last_value_push(c, o55, 53, 1);
    lemma_last_value_push(b, o54, 53, 1);
    lemma_last_value_push(a, o50, 53, 1);
    lemma_last_value_push(Seq::empty(), o53, 53, 1);
    lemma_last_value_push(c, o55, 50, 4);
    lemma_last_value_push(b, o54, 50, 4);
    lemma_last_value_push(a, o50, 50, 4);
    lemma_last_value_push(c, o55, 54, 4);
    lemma_last_value_push(b, o54, 54, 4);
    lemma_be32_roundtrip(offered.bits);
    lemma_be32_roundtrip(server.bits);
}

/// A message of a server in its Ethernet frame, in parts.
pub struct ServerMessage {
    pub addresses: Seq<u8>,
    /// The IP header, with or without options.
    pub header: Seq<u8>,
    pub from_port: Seq<u8>,
    /// The length and the checksum of the UDP header.
    pub length_and_sum: Seq<u8>,
    /// The kind of the message and of the hardware.
    pub kinds: Seq<u8>,
    pub xid: u32,
    pub secs_and_flags: Seq<u8>,
    pub client: Seq<u8>,
    pub yours: Seq<u8>,
    pub next_server: Seq<u8>,
    pub relay: Seq<u8>,
    /// The hardware address, the server's name and the file.
    pub names: Seq<u8>,
    pub options: Seq<u8>,
}

impl ServerMessage {
    /// Whether each part has its length, and the header is one of UDP.
    pub open spec fn wf(self) -> bool {
        &&& self.addresses.len() == 12
        &&& 20 <= self.header.len() <= 60
        &&& self.header.len() % 4 == 0
        &&& self.header[0] % 16 == self.header.len() / 4
        &&& self.header[9] == 17
        &&& self.from_port.len() == 2
        &&& self.length_and_sum.len() == 4
        &&& self.kinds.len() == 4
        &&& self.secs_and_flags.len() == 4
        &&& self.client.len() == 4
        &&& self.yours.len() == 4
        &&& self.next_server.len() == 4
        &&& self.relay.len() == 4
        &&& self.names.len() == 208
    }

    /// What stands in front of the message itself.
    pub open spec fn front(self) -> Seq<u8> {
        self.addresses + seq![8u8, 0] + self.header + self.from_port + seq![0u8, 68]
            + self.length_and_sum
    }

    /// The frame.
    pub open spec fn frame(self) -> Seq<u8> {
        self.front() + (self.kinds + be32(self.xid) + self.secs_and_flags + self.client + self.yours
            + self.next_server + self.relay + self.names + seq![0x63u8, 0x82, 0x53, 0x63])
            + self.options
    }
}

/// A message of a server for the client is found in its frame, whatever its
/// other parts hold: its options are those behind its marker, and the address
/// that it is about is the one in its field for that.
pub proof fn lemma_message_is_found(m: ServerMessage)
    requires
        m.wf(),
    ensures
        holds_message(m.frame(), m.xid),
        forall|xid: u32| xid != m.xid ==> !holds_message(m.frame(), xid),
        frame_options(m.frame()) == m.options,
        be32(your_address(m.frame()).bits) == m.yours,
{
    let frame = m.frame();
    let front = m.front();
    let n = m.header.len() as int;
    let fixed = m.kinds + be32(m.xid) + m.secs_and_flags + m.client + m.yours + m.next_server
        + m.relay + m.names + seq![0x63u8, 0x82, 0x53, 0x63];
    assert(front.len() == 22 + n);
    assert(fixed.len() == 240);
    let start = front.len() as int;
    assert forall|i: int| 0 <= i < start implies frame[i] == front[i] by {}
    assert forall|i: int| 0 <= i < 240 implies frame[start + i] == fixed[i] by {}
    assert(front[12] == 8 && front[13] == 0);
    assert(front[14] == m.header[0] && front[23] == m.header[9]);
    assert(front[16 + n] == 0 && front[17 + n] == 68);
    assert(message_start(frame) == start);
    lemma_server_fixed_part(m);
    assert(frame[start + 236] == 0x63 && frame[start + 237] == 0x82 && frame[start + 238] == 0x53
        && frame[start + 239] == 0x63);
    assert(be32_at(frame, start + 236) == 0x63825363);
    let x = be32(m.xid);
    assert(frame[start + 4] == x[0] && frame[start + 5] == x[1] && frame[start + 6] == x[2]
        && frame[start + 7] == x[3]);
    lemma_written_values(0, m.xid);
    lemma_read_values(frame, start + 4);
    assert(be32_at(frame, start + 4) == m.xid);
    assert(frame_options(frame) =~= m.options);
    lemma_be32_bytes(frame, start + 16);
    assert(frame.subrange(start + 16, start + 20) =~= m.yours);
}

proof fn lemma_server_fixed_part(m: ServerMessage)
    requires
        m.wf(),
    ensures
        ({
            let fixed = m.kinds + be32(m.xid) + m.secs_and_flags + m.client + m.yours
                + m.next_server + m.relay + m.names + seq![0x63u8, 0x82, 0x53, 0x63];
            &&& forall|i: int| 0 <= i < 4 ==> fixed[4 + i] == #[trigger] be32(m.xid)[i]
            &&& forall|i: int| 0 <= i < 4 ==> fixed[16 + i] == #[trigger] m.yours[i]
            &&& fixed[236] == 0x63 && fixed[237] == 0x82 && fixed[238] == 0x53 && fixed[239]
                == 0x63
        }),
{
}

/// Only a whole message over UDP and IPv4 to the client's port, with the marker
/// and the client's transaction, is taken.
pub proof fn lemma_only_messages_are_taken(frame: Seq<u8>, xid: u32)
    requires
        holds_message(frame, xid),
    ensures
        ({
            let start = 22 + 4 * (frame[14] % 16);
            &&& message_start(frame) == start
            &&& frame.len() >= 282
            &&& frame.len() >= start + 240
            &&& frame.subrange(12, 14) == seq![8u8, 0]
            &&& frame[23] == 17
            &&& frame.subrange(start - 6, start - 4) == seq![0u8, 68]
            &&& frame.subrange(start + 4, start + 8) == be32(xid)
            &&& frame.subrange(start + 236, start + 240) == seq![0x63u8, 0x82, 0x53, 0x63]
        }),
{
    let start = 22 + 4 * (frame[14] % 16);
    lemma_read_values(frame, 12);
    lemma_read_values(frame, start - 6);
    lemma_read_values(frame, start + 236);
    lemma_be32_bytes(frame, start + 4);
    assert(frame.subrange(12, 14) =~= seq![8u8, 0]);
    assert(frame.subrange(start - 6, start - 4) =~= seq![0u8, 68]);
    assert(frame.subrange(start + 236, start + 240) =~= seq![0x63u8, 0x82, 0x53, 0x63]);
}

/// A row of options, each by its code and its value, as bytes.
pub open spec fn options_bytes(row: Seq<(u8, Seq<u8>)>) -> Seq<u8>
    decreases row.len(),
{
    if row.len() == 0 {
        Seq::empty()
    } else {
        seq![row[0].0, row[0].1.len() as u8] + row[0].1 + options_bytes(row.drop_first())
    }
}

/// Whether the codes stand for options and the values have lengths that one byte
/// can tell.
pub open spec fn options_wf(row: Seq<(u8, Seq<u8>)>) -> bool {
    forall|i: int|
        0 <= i < row.len() ==> (#[trigger] row[i]).0 != 0 && row[i].0 != 0xFF && row[i].1.len()
            <= 255
}

/// Whether the option at `j` is the last one with this code and at least `need`
/// bytes.
pub open spec fn is_last(row: Seq<(u8, Seq<u8>)>, j: int, code: u8, need: nat) -> bool {
    &&& 0 <= j < row.len()
    &&& row[j].0 == code && row[j].1.len() >= need
    &&& forall|k: int|
        j < k < row.len() ==> !((#[trigger] row[k]).0 == code && row[k].1.len() >= need)
}

/// Whether there is no option with this code and at least `need` bytes.
pub open spec fn has_none(row: Seq<(u8, Seq<u8>)>, code: u8, need: nat) -> bool {
    forall|k: int|
        0 <= k < row.len() ==> !((#[trigger] row[k]).0 == code && row[k].1.len() >= need)
}

/// Whether a row of options ends here: with the bytes, or with the end marker.
pub open spec fn ends(tail: Seq<u8>) -> bool {
    tail.len() == 0 || tail[0] == 0xFF
}

spec fn as_options(row: Seq<(u8, Seq<u8>)>) -> Seq<DhcpOption> {
    row.map_values(|o: (u8, Seq<u8>)| DhcpOption { code: o.0, claimed: o.1.len(), value: o.1 })
}

proof fn lemma_options_row(row: Seq<(u8, Seq<u8>)>, tail: Seq<u8>, keep_cut: bool)
    requires
        options_wf(row),
        ends(tail),
    ensures
        options_from(options_bytes(row) + tail, 0, keep_cut) == as_options(row),
    decreases row.len(),
{
    let s = options_bytes(row) + tail;
    if row.len() == 0 {
        assert(s =~= tail);
        assert(as_options(row) =~= Seq::empty());
    } else {
        let (code, value) = row[0];
        let rest = row.drop_first();
        assert forall|i: int| 0 <= i < rest.len() implies (#[trigger] rest[i]).0 != 0 && rest[i].0
            != 0xFF && rest[i].1.len() <= 255 by {
            assert(rest[i] == row[i + 1]);
        }
        lemma_options_row(rest, tail, keep_cut);
        let behind = options_bytes(rest) + tail;
        assert(s =~= seq![code, value.len() as u8] + value + behind);
        lemma_option_head(code, value, behind, keep_cut);
        assert(as_options(row) =~= seq![
            DhcpOption { code, claimed: value.len(), value },
        ] + as_options(rest));
    }
}

proof fn lemma_last_of_row(row: Seq<(u8, Seq<u8>)>, j: int, code: u8, need: nat)
    ensures
        is_last(row, j, code, need) ==> last_value(as_options(row), code, need) == Some(row[j].1),
        has_none(row, code, need) ==> last_value(as_options(row), code, need) is None,
    decreases row.len(),
{
    if row.len() > 0 {
        let front = row.drop_last();
        let last = row.last();
        assert(last == row[row.len() - 1]);
        let o = DhcpOption { code: last.0, claimed: last.1.len(), value: last.1 };
        assert(as_options(row) =~= as_options(front).push(o));
        lemma_last_value_push(as_options(front), o, code, need);
        if is_last(row, j, code, need) && j < row.len() - 1 {
            assert(front[j] == row[j]);
            assert forall|k: int| j < k < front.len() implies !((#[trigger] front[k]).0 == code
                && front[k].1.len() >= need) by {
                assert(front[k] == row[k]);
            }
            assert(is_last(front, j, code, need));
        }
        if has_none(row, code, need) {
            assert forall|k: int| 0 <= k < front.len() implies !((#[trigger] front[k]).0 == code
                && front[k].1.len() >= need) by {
                assert(front[k] == row[k]);
            }
        }
        lemma_last_of_row(front, j, code, need);
    }
}

/// Whether an address is there, and these are its bytes.
pub open spec fn is_address(ip: Option<Ipv4Addr>, bytes: Seq<u8>) -> bool {
    ip matches Some(a) && be32(a.bits) == bytes
}

/// Options are read whatever their order and whatever stands between them: the
/// netmask, the gateway and the name servers are those of the last option for
/// each that is long enough, and none where there is no such option. What stands
/// behind the end marker is not read, and no marker is needed at the end.
pub proof fn lemma_options_are_read(
    row: Seq<(u8, Seq<u8>)>,
    tail: Seq<u8>,
    mask: int,
    gateway: int,
    dns1: int,
    dns2: int,
    kind: int,
)
    requires
        options_wf(row),
        ends(tail),
    ensures
        ({
            let opts = options_bytes(row) + tail;
            let (g, m, d1, d2) = network_options(opts);
            &&& is_last(row, mask, 1, 4) ==> is_address(m, row[mask].1.subrange(0, 4))
            &&& has_none(row, 1, 4) ==> m is None
            &&& is_last(row, gateway, 3, 4) ==> is_address(g, row[gateway].1.subrange(0, 4))
            &&& has_none(row, 3, 4) ==> g is None
            &&& is_last(row, dns1, 6, 4) ==> is_address(d1, row[dns1].1.subrange(0, 4))
            &&& has_none(row, 6, 4) ==> d1 is None
            &&& is_last(row, dns2, 6, 8) ==> is_address(d2, row[dns2].1.subrange(4, 8))
            &&& has_none(row, 6, 8) ==> d2 is None
            &&& is_last(row, kind, 53, 1) ==> message_type(whole_options(opts)) == row[kind].1[0]
            &&& has_none(row, 53, 1) ==> message_type(whole_options(opts)) == 0
        }),
{
    lemma_options_row(row, tail, false);
    lemma_last_of_row(row, mask, 1, 4);
    lemma_last_of_row(row, gateway, 3, 4);
    lemma_last_of_row(row, dns1, 6, 4);
    lemma_last_of_row(row, dns2, 6, 8);
    lemma_last_of_row(row, kind, 53, 1);
    if is_last(row, mask, 1, 4) {
        lemma_be32_bytes(row[mask].1, 0);
    }
    if is_last(row, gateway, 3, 4) {
        lemma_be32_bytes(row[gateway].1, 0);
    }
    if is_last(row, dns1, 6, 4) {
        lemma_be32_bytes(row[dns1].1, 0);
    }
    if is_last(row, dns2, 6, 8) {
        lemma_be32_bytes(row[dns2].1, 4);
    }
}

/// Padding in front of options stands for nothing.
pub proof fn lemma_padding_is_skipped(opts: Seq<u8>, keep_cut: bool)
    ensures
        options_from(seq![0u8] + opts, 0, keep_cut) == options_from(opts, 0, keep_cut),
{
    let s = seq![0u8] + opts;
    assert(s[0] == 0);
    lemma_options_shift(seq![0u8], opts, 0, keep_cut);
}

/// Options that are there as a whole never overrun, whatever they are; one that
/// names the server or the type and is cut off does.
pub proof fn lemma_overruns(row: Seq<(u8, Seq<u8>)>, tail: Seq<u8>, claimed: u8, cut: Seq<u8>)
    requires
        options_wf(row),
        ends(tail),
    ensures
        !options_overrun(options_bytes(row) + tail),
        claimed >= 4 && cut.len() < 4 ==> options_overrun(seq![54u8, claimed] + cut),
        claimed >= 1 ==> options_overrun(seq![53u8, claimed]),
{
    lemma_options_row(row, tail, true);
    let opts = options_bytes(row) + tail;
    assert forall|i: int| 0 <= i < offered_options(opts).len() implies !option_overruns(
        #[trigger] offered_options(opts)[i],
    ) by {
        assert(as_options(row)[i].value.len() == as_options(row)[i].claimed);
    }
    if claimed >= 4 && cut.len() < 4 {
        let s = seq![54u8, claimed] + cut;
        assert(s[0] == 54 && s[1] == claimed);
        assert(offered_options(s) =~= seq![option_at(s, 0)]);
        assert(option_overruns(offered_options(s)[0]));
    }
    if claimed >= 1 {
        let s = seq![53u8, claimed];
        assert(s[0] == 53 && s[1] == claimed);
        assert(offered_options(s) =~= seq![option_at(s, 0)]);
        assert(option_overruns(offered_options(s)[0]));
    }
}

/// A lease that a server acknowledges is read back: its address is the one in the
/// message's field for that, whatever the other fields hold, and the rest is
/// what the options say, or the default where they say nothing.
pub proof fn lemma_lease_is_read_back(
    m: ServerMessage,
    row: Seq<(u8, Seq<u8>)>,
    tail: Seq<u8>,
    kind: int,
    mask: int,
    gateway: int,
    dns1: int,
    dns2: int,
)
    requires
        m.wf(),
        options_wf(row),
        ends(tail),
        m.options == options_bytes(row) + tail,
        is_last(row, kind, 53, 1),
    ensures
        acknowledged_lease(m.frame(), m.xid) is Some <==> row[kind].1[0] == 5,
        acknowledged_lease(m.frame(), m.xid) matches Some(lease) ==> {
            &&& be32(lease.ip.bits) == m.yours
            &&& is_last(row, mask, 1, 4) ==> be32(lease.netmask.bits) == row[mask].1.subrange(0, 4)
            &&& has_none(row, 1, 4) ==> lease.netmask.bits == 0xFFFF_FF00
            &&& is_last(row, gateway, 3, 4) ==> be32(lease.gateway.bits) == row[gateway].1.subrange(
                0,
                4,
            )
            &&& has_none(row, 3, 4) ==> lease.gateway.bits == 0xC0A8_2A81
            &&& is_last(row, dns1, 6, 4) ==> be32(lease.dns1.bits) == row[dns1].1.subrange(0, 4)
            &&& has_none(row, 6, 4) ==> lease.dns1.bits == 0x0808_0808
            &&& is_last(row, dns2, 6, 8) ==> be32(lease.dns2.bits) == row[dns2].1.subrange(4, 8)
            &&& has_none(row, 6, 8) ==> lease.dns2.bits == 0x0808_0404
        },
        forall|xid: u32|
            xid != m.xid ==> #[trigger] acknowledged_lease(m.frame(), xid) is None,
{
    lemma_message_is_found(m);
    lemma_options_are_read(row, tail, mask, gateway, dns1, dns2, kind);
}

/// A message without a type acknowledges nothing.
pub proof fn lemma_no_type_no_lease(m: ServerMessage, row: Seq<(u8, Seq<u8>)>, tail: Seq<u8>)
    requires
        m.wf(),
        options_wf(row),
        ends(tail),
        m.options == options_bytes(row) + tail,
        has_none(row, 53, 1),
    ensures
        acknowledged_lease(m.frame(), m.xid) is None,
{
    lemma_message_is_found(m);
    lemma_options_are_read(row, tail, 0, 0, 0, 0, 0);
}

/// The first frame that acknowledges a lease decides, however many frames come
/// before it and behind.
pub proof fn lemma_first_lease_counts(a: Seq<Seq<u8>>, b: Seq<Seq<u8>>, xid: u32)
    ensures
        first_lease(a + b, xid) == (match first_lease(a, xid) {
            Some(lease) => Some(lease),
            None => first_lease(b, xid),
        }),
        forall|frame: Seq<u8>| #[trigger]
            first_lease(seq![frame], xid) == acknowledged_lease(frame, xid),
    decreases a.len(),
{
    assert forall|frame: Seq<u8>| #[trigger]
        first_lease(seq![frame], xid) == acknowledged_lease(frame, xid) by {
        assert(seq![frame].drop_first() =~= Seq::empty());
        assert(first_lease(seq![frame].drop_first(), xid) is None);
    }
    if a.len() == 0 {
        assert(a + b =~= b);
    } else {
        lemma_first_lease_counts(a.drop_first(), b, xid);
        assert((a + b).drop_first() =~= a.drop_first() + b);
        assert((a + b)[0] == a[0]);
    }
}

/// An acknowledgement ends the exchange with the lease that it grants, whatever
/// comes behind it, and however often the client has waited.
pub proof fn lemma_acknowledgement_ends_exchange(
    client: DhcpClient,
    m: ServerMessage,
    row: Seq<(u8, Seq<u8>)>,
    tail: Seq<u8>,
    kind: int,
    rest: Seq<u8>,
)
    requires
        client.phase == DhcpPhase::Requesting,
        m.wf(),
        m.xid == 0x12345678,
        options_wf(row),
        ends(tail),
        m.options == options_bytes(row) + tail,
        is_last(row, kind, 53, 1),
        row[kind].1[0] == 5,
        44 + m.frame().len() <= u32::MAX,
    ensures
        ({
            let (next, action) = after_data(client, data_packet(m.frame()) + rest);
            &&& next.phase == DhcpPhase::Finished
            &&& action matches DhcpActionView::Done(lease) && be32(lease.ip.bits) == m.yours && Some(
                lease,
            ) == acknowledged_lease(m.frame(), m.xid)
        }),
{
    let frame = m.frame();
    lemma_packet_then(frame, rest);
    lemma_first_lease_counts(seq![frame], carried_frames(rest), m.xid);
    lemma_lease_is_read_back(m, row, tail, kind, 0, 0, 0, 0);
}

/// What frames offer in one row they offer in two rows one after the other.
pub proof fn lemma_offers_add_up(offers: Offers, a: Seq<Seq<u8>>, b: Seq<Seq<u8>>, xid: u32)
    ensures
        with_frames(offers, a + b, xid) == with_frames(with_frames(offers, a, xid), b, xid),
        forall|frame: Seq<u8>| #[trigger]
            with_frames(offers, seq![frame], xid) == with_frame(offers, frame, xid),
    decreases b.len(),
{
    assert forall|frame: Seq<u8>| #[trigger]
        with_frames(offers, seq![frame], xid) == with_frame(offers, frame, xid) by {
        assert(seq![frame].drop_last() =~= Seq::empty());
        assert(with_frames(offers, seq![frame].drop_last(), xid) == offers);
    }
    if b.len() == 0 {
        assert(a + b =~= a);
    } else {
        lemma_offers_add_up(offers, a, b.drop_last(), xid);
        assert((a + b).drop_last() =~= a + b.drop_last());
        assert((a + b).last() == b.last());
    }
}

/// A message counts as an offer of its address only by its type, and names the
/// server by its option for that; without one the server stays as it was known.
pub proof fn lemma_offer_is_read_back(
    offers: Offers,
    m: ServerMessage,
    row: Seq<(u8, Seq<u8>)>,
    tail: Seq<u8>,
    kind: int,
    server: int,
)
    requires
        m.wf(),
        options_wf(row),
        ends(tail),
        m.options == options_bytes(row) + tail,
        is_last(row, kind, 53, 1),
    ensures
        ({
            let after = with_frames(offers, seq![m.frame()], m.xid);
            &&& row[kind].1[0] == 2 ==> is_address(after.address, m.yours)
            &&& row[kind].1[0] != 2 ==> after.address == offers.address
            &&& is_last(row, server, 54, 4) ==> is_address(after.server, row[server].1.subrange(0, 4))
            &&& has_none(row, 54, 4) ==> after.server == offers.server
        }),
        forall|xid: u32|
            xid != m.xid ==> #[trigger] with_frames(offers, seq![m.frame()], xid) == offers,
{
    lemma_message_is_found(m);
    lemma_options_row(row, tail, true);
    lemma_last_of_row(row, kind, 53, 1);
    lemma_last_of_row(row, server, 54, 4);
    lemma_offers_add_up(offers, Seq::empty(), Seq::empty(), m.xid);
    assert forall|xid: u32| xid != m.xid implies #[trigger] with_frames(
        offers,
        seq![m.frame()],
        xid,
    ) == offers by {
        lemma_offers_add_up(offers, Seq::empty(), Seq::empty(), xid);
    }
    if is_last(row, server, 54, 4) {
        lemma_be32_bytes(row[server].1, 0);
    }
}

/// An offer is answered at once with a request for the offered address from the
/// server that made the offer.
pub proof fn lemma_offer_is_requested(
    client: DhcpClient,
    m: ServerMessage,
    row: Seq<(u8, Seq<u8>)>,
    tail: Seq<u8>,
    kind: int,
    server: int,
    offered: Ipv4Addr,
    from: Ipv4Addr,
)
    requires
        client.phase == DhcpPhase::Discovering,
        m.wf(),
        m.xid == 0x12345678,
        options_wf(row),
        ends(tail),
        m.options == options_bytes(row) + tail,
        is_last(row, kind, 53, 1),
        row[kind].1[0] == 2,
        is_last(row, server, 54, 4),
        be32(offered.bits) == m.yours,
        be32(from.bits) == row[server].1.subrange(0, 4),
        44 + m.frame().len() <= u32::MAX,
    ensures
        ({
            let (next, action) = after_data(client, data_packet(m.frame()));
            &&& next.phase == DhcpPhase::Requesting
            &&& next.attempts_left == 50
            &&& next.mac == client.mac
            &&& action == DhcpActionView::Send(
                data_packet(request_frame(client.mac.0@, 0x12345678, offered, from)),
            )
        }),
{
    let frame = m.frame();
    let offers = Offers { address: None, server: client.server };
    lemma_packet_roundtrip(frame);
    lemma_offer_is_read_back(offers, m, row, tail, kind, server);
    let after = with_frames(offers, seq![frame], m.xid);
    lemma_same_bytes_same_address(after.address->0, offered);
    lemma_same_bytes_same_address(after.server->0, from);
}

proof fn lemma_same_bytes_same_address(a: Ipv4Addr, b: Ipv4Addr)
    requires
        be32(a.bits) == be32(b.bits),
    ensures
        a == b,
{
    lemma_be32_roundtrip(a.bits);
    lemma_be32_roundtrip(b.bits);
}

/// A client that hears nothing waits on, once less each time and otherwise as it
/// was, until it has waited as often as it may. Then it fails if it has had no
/// offer, and takes the defaults if it has.
pub proof fn lemma_silence(client: DhcpClient)
    requires
        client.waiting(),
    ensures
        ({
            let (next, action) = after_data(client, Seq::empty());
            &&& client.attempts_left > 1 ==> {
                &&& action == DhcpActionView::Receive
                &&& next == (DhcpClient { attempts_left: next.attempts_left, ..client })
                &&& next.attempts_left == client.attempts_left - 1
            }
            &&& client.attempts_left == 1 ==> {
                &&& next.phase == DhcpPhase::Finished
                &&& client.phase == DhcpPhase::Discovering ==> action == DhcpActionView::Failed(
                    TetherErrorView::Dhcp("no DHCP offer received"@),
                )
                &&& client.phase == DhcpPhase::Requesting ==> (action matches DhcpActionView::Done(
                    lease,
                ) && lease.ip.bits == 0xC0A8_2A64 && lease.gateway.bits == 0xC0A8_2A81
                    && lease.netmask.bits == 0xFFFF_FF00 && lease.dns1.bits == 0x0808_0808
                    && lease.dns2.bits == 0x0808_0404)
            }
        }),
{
    lemma_row_ends(Seq::empty());
    assert(carried_frames(Seq::empty()) =~= Seq::empty());
}

/// A message of the client, byte for byte but for the checksum of its IP header:
/// to everyone, from no address, for the server's port, about this hardware
/// address and in this transaction, with the options at its end. Its header sums
/// up as that of a valid one does.
pub proof fn lemma_client_message_bytes(mac: Seq<u8>, xid: u32, options: Seq<u8>)
    requires
        mac.len() == 6,
        options.len() <= 32,
    ensures
        ({
            let frame = dhcp_frame(mac, xid, options);
            &&& frame.len() == 314
            &&& frame.subrange(0, 6) == seq![0xFFu8, 0xFF, 0xFF, 0xFF, 0xFF, 0xFF]
            &&& frame.subrange(6, 12) == mac
            &&& frame.subrange(12, 24) == seq![8u8, 0, 0x45, 0, 1, 0x2C, 0, 0, 0, 0, 64, 17]
            &&& frame.subrange(26, 34) == seq![0u8, 0, 0, 0, 0xFF, 0xFF, 0xFF, 0xFF]
            &&& header_total(frame.subrange(14, 34)) % 65535 == 0
            &&& frame.subrange(34, 46) == seq![0u8, 68, 0, 67, 1, 0x18, 0, 0, 1, 1, 6, 0]
            &&& frame.subrange(46, 50) == be32(xid)
            &&& frame.subrange(50, 54) == seq![0u8, 0, 0x80, 0]
            &&& forall|i: int| 54 <= i < 70 || 76 <= i < 278 ==> #[trigger] frame[i] == 0
            &&& frame.subrange(70, 76) == mac
            &&& frame.subrange(278, 282) == seq![0x63u8, 0x82, 0x53, 0x63]
            &&& frame.subrange(282, (282 + options.len()) as int) == options
            &&& forall|i: int| 282 + options.len() <= i < 314 ==> #[trigger] frame[i] == 0
        }),
{
    let frame = dhcp_frame(mac, xid, options);
    let head = ones(6) + mac + be16(IPV4_ETHERTYPE) + ip_header() + udp_header();
    let fixed = dhcp_fixed_part(mac, xid);
    let behind = options + zeros((32 - options.len()) as nat);
    assert(head.len() == 42 && fixed.len() == 240);
    assert(frame =~= head + fixed + behind);
    lemma_message_header_verifies(mac, xid, options);
    let h = frame.subrange(14, 34);
    lemma_header_sum(h);
    lemma_checksum_completes(word_sum(h, 10));
    lemma_client_head(mac);
    lemma_client_fixed_part(mac, xid);
    assert(frame.subrange(0, 6) =~= head.subrange(0, 6));
    assert(frame.subrange(6, 12) =~= head.subrange(6, 12));
    assert(frame.subrange(12, 24) =~= head.subrange(12, 24));
    assert(frame.subrange(26, 34) =~= head.subrange(26, 34));
    assert(frame.subrange(34, 46) =~= head.subrange(34, 42) + fixed.subrange(0, 4));
    assert(frame.subrange(34, 46) =~= seq![0u8, 68, 0, 67, 1, 0x18, 0, 0, 1, 1, 6, 0]);
    assert(frame.subrange(46, 50) =~= fixed.subrange(4, 8));
    assert(frame.subrange(50, 54) =~= fixed.subrange(8, 12));
    assert forall|i: int| 54 <= i < 70 || 76 <= i < 278 implies #[trigger] frame[i] == 0 by {
        assert(frame[i] == fixed[i - 42]);
    }
    assert(frame.subrange(70, 76) =~= fixed.subrange(28, 34));
    assert(frame.subrange(278, 282) =~= fixed.subrange(236, 240));
    assert(frame.subrange(282, (282 + options.len()) as int) =~= options);
    assert forall|i: int| 282 + options.len() <= i < 314 implies #[trigger] frame[i] == 0 by {
        assert(frame[i] == behind[i - 282]);
    }
}

proof fn lemma_client_head(mac: Seq<u8>)
    requires
        mac.len() == 6,
    ensures
        ({
            let head = ones(6) + mac + be16(IPV4_ETHERTYPE) + ip_header() + udp_header();
            &&& head.subrange(0, 6) == seq![0xFFu8, 0xFF, 0xFF, 0xFF, 0xFF, 0xFF]
            &&& head.subrange(6, 12) == mac
            &&& head.subrange(12, 24) == seq![8u8, 0, 0x45, 0, 1, 0x2C, 0, 0, 0, 0, 64, 17]
            &&& head.subrange(26, 34) == seq![0u8, 0, 0, 0, 0xFF, 0xFF, 0xFF, 0xFF]
            &&& head.subrange(34, 42) == seq![0u8, 68, 0, 67, 1, 0x18, 0, 0]
        }),
{
    let head = ones(6) + mac + be16(IPV4_ETHERTYPE) + ip_header() + udp_header();
    assert(be16(0x0800) =~= seq![8u8, 0]);
    assert(be16(300) =~= seq![1u8, 0x2C]);
    assert(be16(68) =~= seq![0u8, 68]);
    assert(be16(67) =~= seq![0u8, 67]);
    assert(be16(280) =~= seq![1u8, 0x18]);
    assert(ip_header().len() == 20);
    assert(ip_header().subrange(0, 10) =~= ip_header_blank().subrange(0, 10));
    assert(ip_header().subrange(12, 20) =~= ip_header_blank().subrange(12, 20));
    assert(ip_header_blank().subrange(0, 10) =~= seq![0x45u8, 0, 1, 0x2C, 0, 0, 0, 0, 64, 17]);
    assert(ip_header_blank().subrange(12, 20) =~= seq![0u8, 0, 0, 0, 0xFF, 0xFF, 0xFF, 0xFF]);
    assert(head.subrange(0, 6) =~= seq![0xFFu8, 0xFF, 0xFF, 0xFF, 0xFF, 0xFF]);
    assert(head.subrange(6, 12) =~= mac);
    assert(head.subrange(12, 24) =~= seq![8u8, 0] + ip_header().subrange(0, 10));
    assert(head.subrange(12, 24) =~= seq![8u8, 0, 0x45, 0, 1, 0x2C, 0, 0, 0, 0, 64, 17]);
    assert(head.subrange(26, 34) =~= ip_header().subrange(12, 20));
    assert(head.subrange(34, 42) =~= udp_header());
    assert(udp_header() =~= seq![0u8, 68, 0, 67, 1, 0x18, 0, 0]);
}

proof fn lemma_client_fixed_part(mac: Seq<u8>, xid: u32)
    requires
        mac.len() == 6,
    ensures
        ({
            let fixed = dhcp_fixed_part(mac, xid);
            &&& fixed.subrange(0, 4) == seq![1u8, 1, 6, 0]
            &&& fixed.subrange(4, 8) == be32(xid)
            &&& fixed.subrange(8, 12) == seq![0u8, 0, 0x80, 0]
            &&& forall|i: int| 12 <= i < 28 || 34 <= i < 236 ==> #[trigger] fixed[i] == 0
            &&& fixed.subrange(28, 34) == mac
            &&& fixed.subrange(236, 240) == seq![0x63u8, 0x82, 0x53, 0x63]
        }),
{
    let fixed = dhcp_fixed_part(mac, xid);
    assert(be16(0) =~= seq![0u8, 0]);
    assert(be16(0x8000) =~= seq![0x80u8, 0]);
    assert(be32(0x63825363) =~= seq![0x63u8, 0x82, 0x53, 0x63]);
    assert(fixed.subrange(0, 4) =~= seq![1u8, 1, 6, 0]);
    assert(fixed.subrange(4, 8) =~= be32(xid));
    assert(fixed.subrange(8, 12) =~= seq![0u8, 0, 0x80, 0]);
    assert(fixed.subrange(28, 34) =~= mac);
    assert(fixed.subrange(236, 240) =~= seq![0x63u8, 0x82, 0x53, 0x63]);
}

/// The client looks for servers and asks for the offered address in messages of
/// that kind: the options that follow on the type are those that a server needs,
/// and the wish for a netmask, a router and name servers.
pub proof fn lemma_client_messages(mac: Seq<u8>, xid: u32, offered: Ipv4Addr, server: Ipv4Addr)
    ensures
        discover_frame(mac, xid) == dhcp_frame(
            mac,
            xid,
            options_bytes(seq![(53u8, seq![1u8]), (55u8, seq![1u8, 3, 6])]) + seq![0xFFu8],
        ),
        request_frame(mac, xid, offered, server) == dhcp_frame(
            mac,
            xid,
            options_bytes(
                seq![
                    (53u8, seq![3u8]),
                    (50u8, be32(offered.bits)),
                    (54u8, be32(server.bits)),
                    (55u8, seq![1u8, 3, 6]),
                ],
            ) + seq![0xFFu8],
        ),
{
    let wish = (55u8, seq![1u8, 3, 6]);
    let a = seq![(53u8, seq![1u8]), wish];
    let b = seq![
        (53u8, seq![3u8]),
        (50u8, be32(offered.bits)),
        (54u8, be32(server.bits)),
        wish,
    ];
    let b1 = seq![(50u8, be32(offered.bits)), (54u8, be32(server.bits)), wish];
    let b2 = seq![(54u8, be32(server.bits)), wish];
    let w = seq![wish];
    assert(w.drop_first() =~= Seq::empty());
    assert(options_bytes(w.drop_first()) =~= Seq::empty());
    assert(options_bytes(w) =~= seq![55u8, 3, 1, 3, 6]);
    assert(a.drop_first() =~= w);
    assert(options_bytes(a) =~= seq![53u8, 1, 1, 55, 3, 1, 3, 6]);
    assert(b.drop_first() =~= b1);
    assert(b1.drop_first() =~= b2);
    assert(b2.drop_first() =~= w);
    assert(options_bytes(b2) =~= seq![54u8, 4] + be32(server.bits) + options_bytes(w));
    assert(options_bytes(b1) =~= seq![50u8, 4] + be32(offered.bits) + options_bytes(b2));
    assert(options_bytes(b) =~= seq![53u8, 1, 3] + options_bytes(b1));
    assert(options_bytes(a) + seq![0xFFu8] =~= discover_options());
    assert(options_bytes(b) + seq![0xFFu8] =~= request_options(offered, server));
}

/// What tells the client nothing is like silence: while it waits for an
/// acknowledgement, data without one; while it waits for an offer, data without
/// one, but for the server that it may name.
pub proof fn lemma_other_data_is_like_silence(client: DhcpClient, data: Seq<u8>)
    requires
        client.waiting(),
    ensures
        client.phase == DhcpPhase::Requesting ==> (match first_lease(
            carried_frames(data),
            0x12345678,
        ) {
            None => after_data(client, data) == after_data(client, Seq::empty()),
            Some(lease) => after_data(client, data).1 == DhcpActionView::Done(lease),
        }),
        client.phase == DhcpPhase::Discovering ==> ({
            let offers = with_frames(
                Offers { address: None, server: client.server },
                carried_frames(data),
                0x12345678,
            );
            let known = DhcpClient { server: offers.server, ..client };
            match offers.address {
                None => after_data(client, data) == after_data(known, Seq::empty()),
                Some(ip) => after_data(client, data).1 is Send && after_data(client, data).0.server
                    == offers.server,
            }
        }),
{
    lemma_row_ends(Seq::empty());
    assert(carried_frames(Seq::empty()) =~= Seq::empty());
}

/// A transfer overruns if one of its frames does, and a frame by the options of
/// its message.
pub proof fn lemma_frames_overrun(frame: Seq<u8>, rest: Seq<u8>, xid: u32, m: ServerMessage)
    requires
        0 < frame.len(),
        44 + frame.len() <= u32::MAX,
        m.wf(),
    ensures
        data_overruns(data_packet(frame) + rest, xid) <==> frame_overruns(frame, xid)
            || data_overruns(rest, xid),
        frame_overruns(m.frame(), m.xid) <==> options_overrun(m.options),
{
    lemma_message_is_found(m);
    lemma_packet_then(frame, rest);
    let all = carried_frames(data_packet(frame) + rest);
    let behind = carried_frames(rest);
    assert(all =~= seq![frame] + behind);
    if frame_overruns(frame, xid) {
        assert(frame_overruns(all[0], xid));
    }
    if data_overruns(rest, xid) {
        let i = choose|i: int|
            0 <= i < behind.len() && frame_overruns(#[trigger] behind[i], xid);
        assert(frame_overruns(all[i + 1], xid));
    }
    if data_overruns(data_packet(frame) + rest, xid) {
        let i = choose|i: int| 0 <= i < all.len() && frame_overruns(
            #[trigger] all[i],
            xid,
        );
        if i > 0 {
            assert(frame_overruns(behind[i - 1], xid));
        }
    }
}

/// The views of actions hold what the actions hold.
pub proof fn lemma_action_views(bytes: Vec<u8>, lease: DhcpLease, e: TetherError)
    ensures
        DhcpAction::Receive@ == DhcpActionView::Receive,
        DhcpAction::Send(bytes)@ == DhcpActionView::Send(bytes@),
        DhcpAction::Done(lease)@ == DhcpActionView::Done(lease),
        DhcpAction::Failed(e)@ == DhcpActionView::Failed(e@),
{
}

} // verus!
