//! Catching DNS queries, the providers that answer them, and the replies.

use crate::bytes::{
    append, be16, be16_at, be16_bytes, be32, be32_at, lemma_be16_roundtrip, lemma_be32_bytes,
    lemma_be32_roundtrip, lemma_read_values, lemma_written_values, overlay, read_be16, read_be32,
};
use crate::checksum::{
    checksum_of, fold, header_total, lemma_checksum_completes, lemma_checksum_verifies,
    lemma_header_sum, lemma_word_sum_adds, lemma_word_sum_bound, sum_words, word_sum,
};
use crate::config::DnsProvider;
use crate::frame::AF_INET;
use crate::net_types::{zeros, Ipv4Addr, SocketAddr};
use crate::text::{
    chars_of, decimal, find_char, find_from, lemma_decimal_short, lemma_found_first,
    lemma_number_is_read, parse_u16, range_is, read_u16,
};
use vstd::prelude::*;

verus! {

/// The length of the IP header of a packet of the virtual interface.
pub open spec fn header_len(pkt: Seq<u8>) -> int {
    (pkt[4] % 16) * 4
}

/// Whether a packet of the virtual interface is a DNS query from our address:
/// IPv4, UDP, to port 53 of anyone.
pub open spec fn is_dns_query(pkt: Seq<u8>, our_ip: u32) -> bool {
    &&& pkt.len() >= 44
    &&& be32_at(pkt, 0) == AF_INET
    &&& pkt[4] / 16 == 4
    &&& pkt.len() >= 4 + header_len(pkt) + 8
    &&& pkt[13] == 17
    &&& be32_at(pkt, 16) == our_ip
    &&& be16_at(pkt, 4 + header_len(pkt) + 2) == 53
}

/// The length of the DNS message in a packet of the virtual interface, if the
/// packet is a DNS query from our address. Where the query goes to does not
/// matter.
pub fn is_dns_to_gateway(utun_pkt: &[u8], our_ip: u32, _gateway_ip: u32) -> (r: Option<usize>)
    ensures
        match r {
            Some(n) => is_dns_query(utun_pkt@, our_ip) && n == utun_pkt@.len() - (12 + header_len(
                utun_pkt@,
            )),
            None => !is_dns_query(utun_pkt@, our_ip),
        },
{
    let n = utun_pkt.len();
    if n < 44 {
        return None;
    }
    if read_be32(utun_pkt, 0) != AF_INET {
        return None;
    }
    let ver_ihl = utun_pkt[4];
    if ver_ihl / 16 != 4 {
        return None;
    }
    let ihl = (ver_ihl % 16) as usize * 4;
    if n - 4 < ihl + 8 {
        return None;
    }
    if utun_pkt[13] != 17 {
        return None;
    }
    if read_be32(utun_pkt, 16) != our_ip {
        return None;
    }
    if read_be16(utun_pkt, 4 + ihl + 2) != 53 {
        return None;
    }
    Some(n - (4 + ihl + 8))
}

/// A query is caught whatever its destination: with another destination address
/// in its header, a packet is a DNS query if and only if it was one before. The
/// header is to be one that holds a destination address.
pub proof fn lemma_destination_is_ignored(pkt: Seq<u8>, our_ip: u32, destination: Seq<u8>)
    requires
        pkt.len() >= 24,
        header_len(pkt) >= 20,
        destination.len() == 4,
    ensures
        is_dns_query(overlay(pkt, 20, destination), our_ip) == is_dns_query(pkt, our_ip),
{
    let other = overlay(pkt, 20, destination);
    assert(other.len() == pkt.len());
    assert(forall|i: int| 0 <= i < pkt.len() && !(20 <= i < 24) ==> other[i] == pkt[i]);
    if pkt.len() >= 4 + header_len(pkt) + 8 {
        let p = 4 + header_len(pkt) + 2;
        assert(other[p] == pkt[p] && other[p + 1] == pkt[p + 1]);
    }
}

/// The sum of the words of `s`, where a last single byte counts as the upper
/// half of a word.
pub open spec fn padded_sum(s: Seq<u8>) -> nat {
    word_sum(s, s.len() / 2) + (if s.len() % 2 == 1 {
        s.last() as nat * 256
    } else {
        0
    })
}

/// The checksum of a header; a last single byte counts as the upper half of a
/// word.
pub fn ip_checksum(hdr: &[u8]) -> (r: u16)
    requires
        padded_sum(hdr@) <= u32::MAX,
    ensures
        r == checksum_of(padded_sum(hdr@)),
{
    let mut sum = sum_words(hdr);
    let n = hdr.len();
    if n % 2 == 1 {
        sum = sum + (hdr[n - 1] as u32) * 256;
    }
    fold(sum)
}

/// The IP header of a reply, with the place for the checksum left zero.
pub open spec fn reply_header_blank(orig: Seq<u8>, response_len: nat) -> Seq<u8> {
    seq![0x45u8, 0x00] + be16((28 + response_len) as u16) + zeros(4) + seq![64u8, 17] + zeros(2)
        + orig.subrange(20, 24) + orig.subrange(16, 20)
}

/// The IP header of a reply.
pub open spec fn reply_header(orig: Seq<u8>, response_len: nat) -> Seq<u8> {
    let blank = reply_header_blank(orig, response_len);
    overlay(blank, 10, be16(checksum_of(word_sum(blank, 10))))
}

/// The packet of the virtual interface that answers a query: from where the
/// query went to where it came from, with the ports swapped.
pub open spec fn reply_packet(orig: Seq<u8>, response: Seq<u8>) -> Seq<u8> {
    let udp = 4 + header_len(orig);
    orig.subrange(0, 4) + reply_header(orig, response.len()) + orig.subrange(udp + 2, udp + 4)
        + orig.subrange(udp, udp + 2) + be16((8 + response.len()) as u16) + zeros(2) + response
}

/// Whether a packet holds the addresses and ports that an answer to it needs,
/// and a packet with a response of this length can be held.
pub open spec fn answerable(orig: Seq<u8>, response_len: nat) -> bool {
    &&& orig.len() >= 24
    &&& orig.len() >= 4 + header_len(orig) + 4
    &&& response_len + 32 <= usize::MAX
}

/// Whether a packet can be answered with a response.
pub fn can_reply(orig: &[u8], dns_resp: &[u8]) -> (r: bool)
    ensures
        r == answerable(orig@, dns_resp@.len()),
{
    orig.len() >= 24 && orig.len() >= 4 + (orig[4] % 16) as usize * 4 + 4 && dns_resp.len()
        <= usize::MAX - 32
}

/// The packet of the virtual interface that answers a query.
pub fn build_reply(orig: &[u8], dns_resp: &[u8]) -> (r: Vec<u8>)
    requires
        answerable(orig@, dns_resp@.len()),
    ensures
        r@ == reply_packet(orig@, dns_resp@),
{
    let ihl = (orig[4] % 16) as usize * 4;
    let udp_start = 4 + ihl;
    let ip_total = 28 + dns_resp.len();
    let mut hdr: Vec<u8> = Vec::new();
    hdr.push(0x45);
    hdr.push(0x00);
    append(&mut hdr, &be16_bytes(ip_total as u16));
    append(&mut hdr, &[0u8, 0, 0, 0, 64, 17, 0, 0]);
    append(&mut hdr, &orig[20..24]);
    append(&mut hdr, &orig[16..20]);
    assert(hdr@ =~= reply_header_blank(orig@, dns_resp@.len()));
    proof {
        lemma_word_sum_bound(hdr@, 10);
    }
    let csum = ip_checksum(hdr.as_slice());
    let mut out: Vec<u8> = Vec::new();
    append(&mut out, &orig[0..4]);
    append(&mut out, &hdr.as_slice()[0..10]);
    append(&mut out, &be16_bytes(csum));
    append(&mut out, &hdr.as_slice()[12..20]);
    assert(out@ =~= orig@.subrange(0, 4) + reply_header(orig@, dns_resp@.len()));
    append(&mut out, &orig[udp_start + 2..udp_start + 4]);
    append(&mut out, &orig[udp_start..udp_start + 2]);
    append(&mut out, &be16_bytes((8 + dns_resp.len()) as u16));
    append(&mut out, &[0u8, 0]);
    append(&mut out, dns_resp);
    assert(out@ =~= reply_packet(orig@, dns_resp@));
    out
}

/// The IP header of every reply has a valid checksum.
pub proof fn lemma_reply_header_verifies(orig: Seq<u8>, response: Seq<u8>)
    requires
        orig.len() >= 24,
        orig.len() >= 4 + header_len(orig) + 4,
    ensures
        checksum_of(word_sum(reply_packet(orig, response).subrange(4, 24), 10)) == 0,
{
    let blank = reply_header_blank(orig, response.len());
    assert(be16_at(blank, 10) == 0);
    lemma_checksum_verifies(blank, 5, 10);
    assert(reply_packet(orig, response).subrange(4, 24) =~= reply_header(orig, response.len()));
}

/// A reply to a query goes back to us, from the address and the port that the
/// query went to, and carries the response as it is.
pub proof fn lemma_reply_goes_back(orig: Seq<u8>, response: Seq<u8>, our_ip: u32)
    requires
        is_dns_query(orig, our_ip),
    ensures
        ({
            let reply = reply_packet(orig, response);
            let udp = 4 + header_len(orig);
            &&& reply.subrange(0, 4) == orig.subrange(0, 4)
            &&& be32_at(reply, 16) == be32_at(orig, 20)
            &&& be32_at(reply, 20) == our_ip
            &&& be16_at(reply, 24) == 53
            &&& be16_at(reply, 26) == be16_at(orig, udp)
            &&& reply.subrange(32, reply.len() as int) == response
        }),
{
    let reply = reply_packet(orig, response);
    let udp = 4 + header_len(orig);
    assert(reply.subrange(0, 4) =~= orig.subrange(0, 4));
    assert(reply[16] == orig[20] && reply[17] == orig[21] && reply[18] == orig[22] && reply[19]
        == orig[23]);
    assert(reply[20] == orig[16] && reply[21] == orig[17] && reply[22] == orig[18] && reply[23]
        == orig[19]);
    assert(reply[24] == orig[udp + 2] && reply[25] == orig[udp + 3]);
    assert(reply[26] == orig[udp] && reply[27] == orig[udp + 1]);
    assert(reply.subrange(32, reply.len() as int) =~= response);
}

/// Where a provider takes queries over HTTPS.
pub fn doh_url(p: DnsProvider) -> (r: &'static str)
    ensures
        r@ == url_of(p),
{
    match p {
        DnsProvider::Cloudflare => "https://cloudflare-dns.com/dns-query",
        DnsProvider::Google => "https://dns.google/dns-query",
        DnsProvider::Quad9 => "https://dns.quad9.net/dns-query",
    }
}

/// Where a provider takes queries over HTTPS.
pub open spec fn url_of(p: DnsProvider) -> Seq<char> {
    match p {
        DnsProvider::Cloudflare => "https://cloudflare-dns.com/dns-query"@,
        DnsProvider::Google => "https://dns.google/dns-query"@,
        DnsProvider::Quad9 => "https://dns.quad9.net/dns-query"@,
    }
}

/// Where a provider takes queries over TLS.
pub fn dot_addr(p: DnsProvider) -> (r: &'static str)
    ensures
        r@ == tls_address_of(p),
{
    match p {
        DnsProvider::Cloudflare => "1.1.1.1:853",
        DnsProvider::Google => "8.8.8.8:853",
        DnsProvider::Quad9 => "9.9.9.9:853",
    }
}

/// Where a provider takes queries over TLS.
pub open spec fn tls_address_of(p: DnsProvider) -> Seq<char> {
    match p {
        DnsProvider::Cloudflare => "1.1.1.1:853"@,
        DnsProvider::Google => "8.8.8.8:853"@,
        DnsProvider::Quad9 => "9.9.9.9:853"@,
    }
}

/// The name of a provider's server.
pub fn dot_hostname(p: DnsProvider) -> (r: &'static str)
    ensures
        r@ == host_of(p),
{
    match p {
        DnsProvider::Cloudflare => "cloudflare-dns.com",
        DnsProvider::Google => "dns.google",
        DnsProvider::Quad9 => "dns.quad9.net",
    }
}

/// The name of a provider's server.
pub open spec fn host_of(p: DnsProvider) -> Seq<char> {
    match p {
        DnsProvider::Cloudflare => "cloudflare-dns.com"@,
        DnsProvider::Google => "dns.google"@,
        DnsProvider::Quad9 => "dns.quad9.net"@,
    }
}

/// The address of a provider's server.
pub open spec fn address_of(p: DnsProvider) -> Ipv4Addr {
    match p {
        DnsProvider::Cloudflare => Ipv4Addr { bits: 0x0101_0101 },
        DnsProvider::Google => Ipv4Addr { bits: 0x0808_0808 },
        DnsProvider::Quad9 => Ipv4Addr { bits: 0x0909_0909 },
    }
}

/// The provider whose server has this name.
pub open spec fn provider_at(host: Seq<char>) -> Option<DnsProvider> {
    if host == host_of(DnsProvider::Cloudflare) {
        Some(DnsProvider::Cloudflare)
    } else if host == host_of(DnsProvider::Google) {
        Some(DnsProvider::Google)
    } else if host == host_of(DnsProvider::Quad9) {
        Some(DnsProvider::Quad9)
    } else {
        None
    }
}

/// The address and the port that a host, with or without a port behind a colon,
/// stands for; `None` if the host is no provider's server. The port is 443
/// where there is none that can be read.
pub open spec fn resolved(netloc: Seq<char>) -> Option<SocketAddr> {
    let colon = find_from(netloc, ':', 0);
    let host = netloc.subrange(0, colon);
    let port = if colon < netloc.len() {
        read_u16(netloc.subrange(colon + 1, netloc.len() as int))
    } else {
        None
    };
    match provider_at(host) {
        Some(p) => Some(
            SocketAddr {
                ip: address_of(p),
                port: match port {
                    Some(n) => n,
                    None => 443,
                },
            },
        ),
        None => None,
    }
}

/// Finds the address of a provider's server without asking DNS.
pub fn static_dns_resolver(netloc: &str) -> (r: Result<Vec<SocketAddr>, String>)
    ensures
        match resolved(netloc@) {
            Some(addr) => r matches Ok(v) && v@ == seq![addr],
            None => r matches Err(e) && e@ == "static resolver: unknown host "@ + netloc@,
        },
{
    let chars = chars_of(netloc);
    let s: &[char] = chars.as_slice();
    let n = s.len();
    let colon = find_char(s, ':', 0, n);
    assert(s@.subrange(0, n as int) =~= s@);
    let port = if colon < n {
        match parse_u16(s, colon + 1, n) {
            Some(p) => p,
            None => 443,
        }
    } else {
        443
    };
    let bits: u32 = if range_is(s, 0, colon, "cloudflare-dns.com") {
        0x0101_0101
    } else if range_is(s, 0, colon, "dns.google") {
        0x0808_0808
    } else if range_is(s, 0, colon, "dns.quad9.net") {
        0x0909_0909
    } else {
        let mut text = "static resolver: unknown host ".to_owned();
        text.append(netloc);
        return Err(text);
    };
    let mut out: Vec<SocketAddr> = Vec::new();
    out.push(SocketAddr { ip: Ipv4Addr { bits }, port });
    assert(out@ =~= seq![SocketAddr { ip: Ipv4Addr { bits }, port }]);
    Ok(out)
}

proof fn lemma_no_colon(s: Seq<char>, i: int)
    requires
        0 <= i <= s.len(),
        forall|k: int| 0 <= k < s.len() ==> s[k] != ':',
    ensures
        find_from(s, ':', i) == s.len(),
    decreases s.len() - i,
{
    if i < s.len() {
        lemma_no_colon(s, i + 1);
    }
}

/// The three tables of the providers agree: the name in the URL for HTTPS is the
/// name that TLS expects, and it is found at the address that TLS uses, on port
/// 443.
pub proof fn lemma_provider_tables_agree(p: DnsProvider)
    ensures
        url_of(p) == "https://"@ + host_of(p) + "/dns-query"@,
        tls_address_of(p) == address_of(p).text() + ":853"@,
        resolved(host_of(p)) == Some(SocketAddr { ip: address_of(p), port: 443 }),
{
    reveal_strlit("https://");
    reveal_strlit("/dns-query");
    reveal_strlit(":853");
    reveal_strlit("https://cloudflare-dns.com/dns-query");
    reveal_strlit("https://dns.google/dns-query");
    reveal_strlit("https://dns.quad9.net/dns-query");
    reveal_strlit("1.1.1.1:853");
    reveal_strlit("8.8.8.8:853");
    reveal_strlit("9.9.9.9:853");
    reveal_strlit("cloudflare-dns.com");
    reveal_strlit("dns.google");
    reveal_strlit("dns.quad9.net");
    lemma_decimal_short(1);
    lemma_decimal_short(8);
    lemma_decimal_short(9);
    assert(url_of(p) =~= "https://"@ + host_of(p) + "/dns-query"@);
    assert(tls_address_of(p) =~= address_of(p).text() + ":853"@);
    lemma_no_colon(host_of(p), 0);
    assert(host_of(p).subrange(0, host_of(p).len() as int) =~= host_of(p));
    assert("cloudflare-dns.com"@.len() == 18 && "dns.google"@.len() == 10 && "dns.quad9.net"@.len()
        == 13);
}

/// A query as it is sent over TLS: with its length in front.
pub open spec fn tls_message(query: Seq<u8>) -> Seq<u8> {
    be16(query.len() as u16) + query
}

/// A query as it is sent over TLS: with its length in front.
pub fn frame_dot_query(query: &[u8]) -> (r: Vec<u8>)
    ensures
        r@ == tls_message(query@),
{
    let mut out: Vec<u8> = Vec::new();
    append(&mut out, &be16_bytes(query.len() as u16));
    append(&mut out, query);
    assert(out@ =~= tls_message(query@));
    out
}

/// The largest response that is taken over TLS.
pub const MAX_DOT_RESPONSE: usize = 4096;

/// The length of the response that follows these two bytes; a response that is
/// too large is refused.
pub fn dot_response_len(len_buf: &[u8; 2]) -> (r: Result<usize, String>)
    ensures
        ({
            let n = be16_at(len_buf@, 0);
            if n > MAX_DOT_RESPONSE {
                r matches Err(e) && e@ == "response too large"@
            } else {
                r == Ok::<usize, String>(n as usize)
            }
        }),
{
    let n = read_be16(len_buf, 0) as usize;
    if n > MAX_DOT_RESPONSE {
        return Err("response too large".to_owned());
    }
    Ok(n)
}

/// The length in front of a message over TLS is the message's, as long as two
/// bytes can hold it.
pub proof fn lemma_tls_message_length(query: Seq<u8>)
    requires
        query.len() <= u16::MAX,
    ensures
        be16_at(tls_message(query), 0) == query.len(),
        tls_message(query).subrange(2, tls_message(query).len() as int) == query,
{
    lemma_be16_roundtrip(query.len() as u16);
    assert(tls_message(query)[0] == be16(query.len() as u16)[0]);
    assert(tls_message(query)[1] == be16(query.len() as u16)[1]);
    assert(tls_message(query).subrange(2, tls_message(query).len() as int) =~= query);
}

/// A query for the address of opendns.com, by which a connection is tried out.
pub fn root_dns_query() -> (r: Vec<u8>)
    ensures
        r@ == seq![
            0x00u8,
            0x00,
            0x01,
            0x00,
            0x00,
            0x01,
            0x00,
            0x00,
            0x00,
            0x00,
            0x00,
            0x00,
            0x07,
            111,
            112,
            101,
            110,
            100,
            110,
            115,
            0x03,
            99,
            111,
            109,
            0x00,
            0x00,
            0x01,
            0x00,
            0x01,
        ],
{
    let mut out: Vec<u8> = Vec::new();
    append(&mut out, &[0x00u8, 0x00, 0x01, 0x00, 0x00, 0x01, 0x00, 0x00, 0x00, 0x00, 0x00, 0x00]);
    append(&mut out, &[0x07u8, 111, 112, 101, 110, 100, 110, 115]);
    append(&mut out, &[0x03u8, 99, 111, 109]);
    append(&mut out, &[0x00u8, 0x00, 0x01, 0x00, 0x01]);
    out
}

/// A packet of the virtual interface with a UDP datagram over IPv4: the family,
/// the IP header, the two ports, the length and the checksum, and what it
/// carries.
pub open spec fn udp_packet(
    header: Seq<u8>,
    from_port: Seq<u8>,
    to_port: Seq<u8>,
    length_and_sum: Seq<u8>,
    message: Seq<u8>,
) -> Seq<u8> {
    seq![0u8, 0, 0, 2] + header + from_port + to_port + length_and_sum + message
}

/// Whether a header is one of IPv4 for UDP from this address, with or without
/// options.
pub open spec fn udp_header_from(header: Seq<u8>, our_ip: u32) -> bool {
    &&& header.len() >= 20
    &&& header.len() <= 60
    &&& header.len() % 4 == 0
    &&& header[0] == 0x40 + header.len() / 4
    &&& header[9] == 17
    &&& header.subrange(12, 16) == be32(our_ip)
}

proof fn lemma_udp_packet_parts(
    header: Seq<u8>,
    from_port: Seq<u8>,
    to_port: Seq<u8>,
    length_and_sum: Seq<u8>,
    message: Seq<u8>,
    our_ip: u32,
)
    requires
        udp_header_from(header, our_ip),
        from_port.len() == 2,
        to_port.len() == 2,
        length_and_sum.len() == 4,
    ensures
        ({
            let pkt = udp_packet(header, from_port, to_port, length_and_sum, message);
            let n = header.len() as int;
            &&& pkt.len() == n + 12 + message.len()
            &&& be32_at(pkt, 0) == 2
            &&& pkt[4] / 16 == 4
            &&& header_len(pkt) == n
            &&& pkt[13] == 17
            &&& be32_at(pkt, 16) == our_ip
            &&& pkt.subrange(4 + n, 6 + n) == from_port
            &&& pkt.subrange(6 + n, 8 + n) == to_port
            &&& pkt.subrange(12 + n, pkt.len() as int) == message
            &&& pkt.subrange(16, 20) == be32(our_ip)
            &&& pkt.subrange(20, 24) == header.subrange(16, 20)
        }),
{
    let pkt = udp_packet(header, from_port, to_port, length_and_sum, message);
    let n = header.len() as int;
    assert(pkt[0] == 0 && pkt[1] == 0 && pkt[2] == 0 && pkt[3] == 2);
    assert(pkt[4] == header[0]);
    assert(pkt[13] == header[9]);
    let from = header.subrange(12, 16);
    assert(pkt.subrange(16, 20) =~= from);
    assert(pkt[16] == from[0] && pkt[17] == from[1] && pkt[18] == from[2] && pkt[19] == from[3]);
    lemma_read_values(pkt, 16);
    lemma_written_values(0, our_ip);
    assert(pkt.subrange(4 + n, 6 + n) =~= from_port);
    assert(pkt.subrange(6 + n, 8 + n) =~= to_port);
    assert(pkt.subrange(12 + n, pkt.len() as int) =~= message);
    assert(pkt.subrange(20, 24) =~= header.subrange(16, 20));
}

/// Every DNS query is caught: a UDP datagram over IPv4 from our address to port
/// 53, with a DNS header at least, is a DNS query whatever its source port, its
/// destination, the options of its header and its length, and the query is what
/// the datagram carries.
pub proof fn lemma_every_query_is_caught(
    header: Seq<u8>,
    from_port: Seq<u8>,
    length_and_sum: Seq<u8>,
    message: Seq<u8>,
    our_ip: u32,
)
    requires
        udp_header_from(header, our_ip),
        from_port.len() == 2,
        length_and_sum.len() == 4,
        message.len() >= 12,
    ensures
        ({
            let pkt = udp_packet(header, from_port, seq![0u8, 53], length_and_sum, message);
            &&& is_dns_query(pkt, our_ip)
            &&& pkt.subrange(12 + header_len(pkt), pkt.len() as int) == message
        }),
{
    let pkt = udp_packet(header, from_port, seq![0u8, 53], length_and_sum, message);
    lemma_udp_packet_parts(header, from_port, seq![0u8, 53], length_and_sum, message, our_ip);
    let p = 6 + header.len() as int;
    assert(pkt.subrange(p, p + 2)[0] == pkt[p] && pkt.subrange(p, p + 2)[1] == pkt[p + 1]);
}

/// A packet that is caught is caught as well with more bytes behind it.
pub proof fn lemma_longer_queries_are_caught(pkt: Seq<u8>, more: Seq<u8>, our_ip: u32)
    requires
        is_dns_query(pkt, our_ip),
    ensures
        is_dns_query(pkt + more, our_ip),
        header_len(pkt + more) == header_len(pkt),
{
    let other = pkt + more;
    assert forall|i: int| 0 <= i < pkt.len() implies other[i] == pkt[i] by {}
    let p = 4 + header_len(pkt) + 2;
    assert(other[p] == pkt[p] && other[p + 1] == pkt[p + 1]);
}

/// Nothing else is caught: what is caught comes over IPv4 by UDP from our address
/// and goes to port 53, and is long enough for the headers and a DNS header
/// behind a plain IP header. All that is so is caught.
pub proof fn lemma_only_queries_are_caught(pkt: Seq<u8>, our_ip: u32)
    ensures
        is_dns_query(pkt, our_ip) <==> {
            let n = 4 * (pkt[4] - 0x40);
            &&& 44 <= pkt.len()
            &&& pkt.subrange(0, 4) == seq![0u8, 0, 0, 2]
            &&& 0x40 <= pkt[4] <= 0x4F
            &&& pkt.len() >= 12 + n
            &&& pkt[13] == 17
            &&& pkt.subrange(16, 20) == be32(our_ip)
            &&& pkt.subrange(6 + n, 8 + n) == seq![0u8, 53]
        },
        0x40 <= pkt[4] <= 0x4F ==> header_len(pkt) == 4 * (pkt[4] - 0x40),
{
    let n = 4 * (pkt[4] - 0x40);
    if pkt.len() >= 44 {
        lemma_read_values(pkt, 0);
        lemma_be32_bytes(pkt, 16);
        lemma_be32_roundtrip(our_ip);
        let family = pkt.subrange(0, 4);
        assert(family[0] == pkt[0] && family[1] == pkt[1] && family[2] == pkt[2] && family[3]
            == pkt[3]);
        if be32_at(pkt, 0) == 2 {
            assert(family =~= seq![0u8, 0, 0, 2]);
        }
        let from = pkt.subrange(16, 20);
        assert(from[0] == pkt[16] && from[1] == pkt[17] && from[2] == pkt[18] && from[3]
            == pkt[19]);
        if from == be32(our_ip) {
            lemma_read_values(pkt, 16);
            lemma_written_values(0, our_ip);
        }
        if 0x40 <= pkt[4] <= 0x4F && pkt.len() >= 12 + n {
            let p = 6 + n;
            lemma_read_values(pkt, p);
            let port = pkt.subrange(p, p + 2);
            assert(port[0] == pkt[p] && port[1] == pkt[p + 1]);
            if be16_at(pkt, p) == 53 {
                assert(port =~= seq![0u8, 53]);
            }
        }
    }
}

/// The answer to a query, byte for byte but for the checksum of its IP header:
/// from where the query went, to where it came from, with the lengths of what it
/// carries. Its header sums up as that of a valid one does.
pub proof fn lemma_reply_bytes(
    header: Seq<u8>,
    from_port: Seq<u8>,
    to_port: Seq<u8>,
    length_and_sum: Seq<u8>,
    message: Seq<u8>,
    our_ip: u32,
    response: Seq<u8>,
)
    requires
        udp_header_from(header, our_ip),
        from_port.len() == 2,
        to_port.len() == 2,
        length_and_sum.len() == 4,
        28 + response.len() <= 65535,
    ensures
        ({
            let pkt = udp_packet(header, from_port, to_port, length_and_sum, message);
            let reply = reply_packet(pkt, response);
            let total = (28 + response.len()) as u16;
            &&& reply.len() == 32 + response.len()
            &&& reply.subrange(0, 6) == seq![0u8, 0, 0, 2, 0x45, 0]
            &&& reply.subrange(6, 8) == be16(total)
            &&& reply.subrange(8, 14) == seq![0u8, 0, 0, 0, 64, 17]
            &&& reply.subrange(16, 20) == header.subrange(16, 20)
            &&& reply.subrange(20, 24) == be32(our_ip)
            &&& reply.subrange(24, 26) == to_port
            &&& reply.subrange(26, 28) == from_port
            &&& reply.subrange(28, 30) == be16((8 + response.len()) as u16)
            &&& reply.subrange(30, 32) == seq![0u8, 0]
            &&& reply.subrange(32, reply.len() as int) == response
            &&& header_total(reply.subrange(4, 24)) % 65535 == 0
        }),
{
    let pkt = udp_packet(header, from_port, to_port, length_and_sum, message);
    let n = header.len() as int;
    lemma_udp_packet_parts(header, from_port, to_port, length_and_sum, message, our_ip);
    let reply = reply_packet(pkt, response);
    assert(pkt.subrange(0, 4) =~= seq![0u8, 0, 0, 2]);
    assert(reply.subrange(0, 6) =~= seq![0u8, 0, 0, 2, 0x45, 0]);
    assert(reply.subrange(6, 8) =~= be16((28 + response.len()) as u16));
    assert(reply.subrange(8, 14) =~= seq![0u8, 0, 0, 0, 64, 17]);
    assert(reply.subrange(16, 20) =~= pkt.subrange(20, 24));
    assert(reply.subrange(20, 24) =~= pkt.subrange(16, 20));
    assert(reply.subrange(24, 26) =~= to_port);
    assert(reply.subrange(26, 28) =~= from_port);
    assert(reply.subrange(28, 30) =~= be16((8 + response.len()) as u16));
    assert(reply.subrange(30, 32) =~= seq![0u8, 0]);
    assert(reply.subrange(32, reply.len() as int) =~= response);
    lemma_reply_header_verifies(pkt, response);
    let h = reply.subrange(4, 24);
    lemma_header_sum(h);
    lemma_checksum_completes(word_sum(h, 10));
}

/// A single byte at the end counts as the upper half of a word, and a checksum is
/// what the sum lacks to a multiple of 65535.
pub proof fn lemma_single_byte_counts(s: Seq<u8>, b: u8)
    requires
        s.len() % 2 == 0,
    ensures
        padded_sum(s) == word_sum(s, s.len() / 2),
        padded_sum(s.push(b)) == padded_sum(s) + 256 * b,
        padded_sum(s.push(b)) == padded_sum(s.push(b).push(0)),
{
    let t = s.push(b);
    let u = t.push(0);
    lemma_same_words(s, t, s.len() / 2);
    lemma_same_words(s, u, s.len() / 2);
    assert(t.len() / 2 == s.len() / 2);
    assert(u.len() / 2 == s.len() / 2 + 1);
    assert(u[s.len() as int] == b && u[s.len() + 1int] == 0);
    lemma_word_sum_adds(u, s.len() / 2);
    assert(2 * (s.len() / 2) == s.len());
}

proof fn lemma_same_words(a: Seq<u8>, b: Seq<u8>, k: nat)
    requires
        2 * k <= a.len() <= b.len(),
        forall|i: int| 0 <= i < a.len() ==> a[i] == b[i],
    ensures
        word_sum(a, k) == word_sum(b, k),
    decreases k,
{
    if k > 0 {
        lemma_same_words(a, b, (k - 1) as nat);
        let p = 2 * (k - 1);
        assert(a[p] == b[p] && a[p + 1] == b[p + 1]);
    }
}

/// A provider's server is found under its name with any port behind it, and that
/// port is taken; a port that cannot be read stands for 443. No other name is
/// found.
pub proof fn lemma_ports_are_taken(
    p: DnsProvider,
    port: u16,
    no_port: Seq<char>,
    netloc: Seq<char>,
)
    ensures
        read_u16(no_port) is None ==> resolved(host_of(p) + seq![':'] + no_port) == Some(
            SocketAddr { ip: address_of(p), port: 443 },
        ),
        resolved(host_of(p) + seq![':'] + decimal(port as nat)) == Some(
            SocketAddr { ip: address_of(p), port },
        ),
        resolved(netloc) matches Some(found) ==> exists|q: DnsProvider, rest: Seq<char>|
            netloc == #[trigger] (host_of(q) + rest) && found.ip == address_of(q) && (rest.len()
                == 0 || rest[0] == ':'),
{
    reveal_strlit("cloudflare-dns.com");
    reveal_strlit("dns.google");
    reveal_strlit("dns.quad9.net");
    assert("cloudflare-dns.com"@.len() == 18 && "dns.google"@.len() == 10 && "dns.quad9.net"@.len()
        == 13);
    lemma_host_and_tail(host_of(p), decimal(port as nat));
    lemma_host_and_tail(host_of(p), no_port);
    lemma_number_is_read(port);
    if let Some(found) = resolved(netloc) {
        lemma_found_first(netloc, ':', 0);
        let colon = find_from(netloc, ':', 0);
        let q = provider_at(netloc.subrange(0, colon))->0;
        let rest = netloc.subrange(colon, netloc.len() as int);
        assert(netloc =~= host_of(q) + rest);
        assert(found.ip == address_of(q));
    }
}

proof fn lemma_host_and_tail(host: Seq<char>, tail: Seq<char>)
    requires
        forall|k: int| 0 <= k < host.len() ==> host[k] != ':',
    ensures
        ({
            let s = host + seq![':'] + tail;
            let n = host.len() as int;
            &&& find_from(s, ':', 0) == n
            &&& s.subrange(0, n) == host
            &&& s.subrange(n + 1, s.len() as int) == tail
        }),
{
    let s = host + seq![':'] + tail;
    let n = host.len() as int;
    assert forall|k: int| 0 <= k < n implies s[k] != ':' by {
        assert(s[k] == host[k]);
    }
    assert(s[n] == ':');
    lemma_found_first(s, ':', 0);
    assert(s.subrange(0, n) =~= host);
    assert(s.subrange(n + 1, s.len() as int) =~= tail);
}

} // verus!
