use android_tether::arp;
use android_tether::bytes::{be16_bytes, be32_bytes, put, read_be16, read_be32, same_bytes};
use android_tether::checksum::{fold, sum_words};
use android_tether::error::{parse_ip4, TetherError};
use android_tether::frame::{eth_to_utun, ip_to_eth};
use android_tether::net_types::{
    ArpPacket, DhcpPacket, EthHdr, Ipv4Addr, MacAddr, DEFAULT_DNS1, DEFAULT_DNS2, DEFAULT_GATEWAY,
    DEFAULT_NETMASK, DEFAULT_STATIC_IP,
};

const OURS: [u8; 6] = [0x02, 0x11, 0x22, 0x33, 0x44, 0x55];
const THEIRS: [u8; 6] = [0x0a, 0xbb, 0xcc, 0xdd, 0xee, 0xff];

#[test]
fn address_text_and_back() {
    let ip = Ipv4Addr::new(192, 168, 42, 129);
    assert_eq!(ip.bits, 0xC0A8_2A81);
    assert_eq!(ip.to_text(), "192.168.42.129");
    assert_eq!(ip.octets(), [192, 168, 42, 129]);
    assert_eq!(Ipv4Addr::parse("192.168.42.129"), Some(ip));
    for bits in [0u32, 1, 0x0102_0304, 0x7F00_0001, 0x0A0B_63FF, 0xFFFF_FFFF] {
        let ip = Ipv4Addr { bits };
        assert_eq!(Ipv4Addr::parse(&ip.to_text()), Some(ip));
    }
}

#[test]
fn addresses_that_are_none() {
    for s in [
        "", "1", "1.2.3", "1.2.3.4.5", "256.1.1.1", "1.2.3.256", "01.2.3.4", "1.2.3.04", "1..2.3",
        ".1.2.3", "1.2.3.", " 1.2.3.4", "1.2.3.4 ", "1.2.3.4x", "+1.2.3.4", "-1.2.3.4", "a.b.c.d",
        "1.2.3.1000", "0x1.2.3.4", "١.2.3.4",
    ] {
        assert_eq!(Ipv4Addr::parse(s), None, "{}", s);
    }
    assert_eq!(Ipv4Addr::parse("0.0.0.0"), Some(Ipv4Addr { bits: 0 }));
    assert_eq!(Ipv4Addr::parse("255.255.255.255"), Some(Ipv4Addr { bits: 0xFFFF_FFFF }));
}

#[test]
fn parsed_address_or_error() {
    assert_eq!(parse_ip4("10.0.0.1").unwrap(), Ipv4Addr::new(10, 0, 0, 1));
    match parse_ip4("10.0.0") {
        Err(TetherError::InvalidIp(s)) => assert_eq!(s, "10.0.0"),
        other => panic!("{:?}", other),
    }
}

#[test]
fn default_addresses_can_be_read() {
    assert_eq!(Ipv4Addr::parse(DEFAULT_STATIC_IP), Some(Ipv4Addr::new(192, 168, 42, 100)));
    assert_eq!(Ipv4Addr::parse(DEFAULT_GATEWAY), Some(Ipv4Addr::new(192, 168, 42, 129)));
    assert_eq!(Ipv4Addr::parse(DEFAULT_NETMASK), Some(Ipv4Addr::new(255, 255, 255, 0)));
    assert_eq!(Ipv4Addr::parse(DEFAULT_DNS1), Some(Ipv4Addr::new(8, 8, 8, 8)));
    assert_eq!(Ipv4Addr::parse(DEFAULT_DNS2), Some(Ipv4Addr::new(8, 8, 4, 4)));
}

#[test]
fn error_messages() {
    assert_eq!(TetherError::Usb("x".to_string()).message(), "USB error: x");
    assert_eq!(TetherError::UsbTransfer("x".to_string()).message(), "USB transfer error: x");
    assert_eq!(TetherError::Rndis("x".to_string()).message(), "RNDIS protocol error: x");
    assert_eq!(TetherError::DeviceNotFound("x".to_string()).message(), "Device not found: x");
    assert_eq!(TetherError::Network("x".to_string()).message(), "Network interface error: x");
    assert_eq!(TetherError::Dhcp("x".to_string()).message(), "DHCP failed: x");
    assert_eq!(TetherError::Arp("x".to_string()).message(), "ARP error: x");
    assert_eq!(TetherError::Config("x".to_string()).message(), "Configuration error: x");
    assert_eq!(TetherError::Ipc("x".to_string()).message(), "IPC error: x");
    assert_eq!(TetherError::Io("x".to_string()).message(), "IO error: x");
    assert_eq!(TetherError::InvalidIp("x".to_string()).message(), "Invalid IP address: x");
    assert_eq!(
        TetherError::UnsupportedProtocol("ncm".to_string()).message(),
        "Protocol ncm not supported"
    );
    assert_eq!(
        TetherError::BufferTooSmall { need: 314, got: 7 }.message(),
        "Buffer too small: need 314 got 7"
    );
    assert_eq!(TetherError::Timeout.message(), "Operation timed out");
}

#[test]
fn hardware_addresses() {
    let mac = MacAddr::new([0x00, 0x1a, 0x2b, 0x3c, 0x4d, 0xff]);
    assert_eq!(mac.to_text(), "00:1a:2b:3c:4d:ff");
    assert!(!mac.is_broadcast());
    assert!(MacAddr::broadcast().is_broadcast());
    assert_eq!(MacAddr::broadcast().to_text(), "ff:ff:ff:ff:ff:ff");
    assert!(!MacAddr::new([0xFF, 0xFF, 0xFF, 0xFF, 0xFF, 0xFE]).is_broadcast());
    assert_eq!(MacAddr::from([1, 2, 3, 4, 5, 6]).0, [1, 2, 3, 4, 5, 6]);
}

#[test]
fn numbers_as_bytes() {
    assert_eq!(be16_bytes(0x1234), [0x12, 0x34]);
    assert_eq!(be32_bytes(0x1234_5678), [0x12, 0x34, 0x56, 0x78]);
    assert_eq!(read_be16(&[9, 0x12, 0x34], 1), 0x1234);
    assert_eq!(read_be32(&[9, 0x12, 0x34, 0x56, 0x78], 1), 0x1234_5678);
    let mut buf = [0u8; 5];
    put(&mut buf, 2, &[7, 8]);
    assert_eq!(buf, [0, 0, 7, 8, 0]);
    assert!(same_bytes(&[1, 2], &[1, 2]));
    assert!(!same_bytes(&[1, 2], &[1, 3]));
    assert!(!same_bytes(&[1, 2], &[1]));
}

#[test]
fn headers_on_the_wire() {
    let eth = EthHdr { dst: THEIRS, src: OURS, ethertype: 0x0806 };
    let mut out = Vec::new();
    eth.append_to(&mut out);
    assert_eq!(out.len(), 14);
    assert_eq!(&out[0..6], &THEIRS);
    assert_eq!(&out[6..12], &OURS);
    assert_eq!(&out[12..14], &[0x08, 0x06]);
    let back = EthHdr::read(&out);
    assert_eq!((back.dst, back.src, back.ethertype), (THEIRS, OURS, 0x0806));

    let arp = ArpPacket {
        hw_type: 1,
        proto_type: 0x0800,
        hw_len: 6,
        proto_len: 4,
        opcode: 2,
        sender_mac: OURS,
        sender_ip: 0x0102_0304,
        target_mac: THEIRS,
        target_ip: 0x0506_0708,
    };
    let mut out = vec![0xEE];
    arp.append_to(&mut out);
    assert_eq!(out.len(), 29);
    assert_eq!(&out[1..9], &[0, 1, 8, 0, 6, 4, 0, 2]);
    let back = ArpPacket::read(&out, 1);
    assert_eq!(back.sender_ip, 0x0102_0304);
    assert_eq!(back.target_ip, 0x0506_0708);
    assert_eq!(back.target_mac, THEIRS);
    assert_eq!(back.opcode, 2);
}

#[test]
fn empty_dhcp_packet() {
    let packet = DhcpPacket::default();
    let mut out = Vec::new();
    packet.append_fixed_to(&mut out);
    assert_eq!(out, vec![0u8; 240]);
    assert_eq!(packet.options, [0u8; 312]);
}

#[test]
fn checksums() {
    assert_eq!(fold(0), 0xFFFF);
    assert_eq!(fold(0xFFFF), 0);
    assert_eq!(fold(0x1_0000), 0xFFFE);
    assert_eq!(fold(u32::MAX), 0);
    let header = [
        0x45u8, 0x00, 0x00, 0x73, 0x00, 0x00, 0x40, 0x00, 0x40, 0x11, 0x00, 0x00, 0xc0, 0xa8, 0x00,
        0x01, 0xc0, 0xa8, 0x00, 0xc7,
    ];
    assert_eq!(sum_words(&header), 0x2479C);
    assert_eq!(fold(sum_words(&header)), 0xB861);
    let mut with = header;
    with[10] = 0xB8;
    with[11] = 0x61;
    assert_eq!(fold(sum_words(&with)), 0);
    assert_eq!(sum_words(&[1, 2, 3]), 0x0102);
}

#[test]
fn packet_to_frame() {
    let mut buf = [0u8; 64];
    let pkt = [0, 0, 0, 2, 0x45, 1, 2, 3];
    assert_eq!(ip_to_eth(&pkt, &mut buf, &OURS, &THEIRS).unwrap(), 18);
    assert_eq!(&buf[0..6], &THEIRS);
    assert_eq!(&buf[6..12], &OURS);
    assert_eq!(&buf[12..18], &[0x08, 0x00, 0x45, 1, 2, 3]);
    assert_eq!(&buf[18..], &[0u8; 46]);

    let pkt6 = [0, 0, 0, 30, 0x60, 9];
    assert_eq!(ip_to_eth(&pkt6, &mut buf, &OURS, &THEIRS).unwrap(), 16);
    assert_eq!(&buf[12..16], &[0x86, 0xDD, 0x60, 9]);
}

#[test]
fn packet_family_by_version() {
    let mut buf = [0u8; 64];
    assert_eq!(ip_to_eth(&[0, 0, 0, 9, 0x45], &mut buf, &OURS, &THEIRS).unwrap(), 15);
    assert_eq!(&buf[12..15], &[0x08, 0x00, 0x45]);
    assert_eq!(ip_to_eth(&[0, 0, 0, 9, 0x6F], &mut buf, &OURS, &THEIRS).unwrap(), 15);
    assert_eq!(&buf[12..15], &[0x86, 0xDD, 0x6F]);
}

#[test]
fn packets_that_are_dropped() {
    let mut buf = [0xAAu8; 64];
    assert_eq!(ip_to_eth(&[0, 0, 0, 2], &mut buf, &OURS, &THEIRS).unwrap(), 0);
    assert_eq!(ip_to_eth(&[0, 0, 0, 9, 0x75], &mut buf, &OURS, &THEIRS).unwrap(), 0);
    assert_eq!(ip_to_eth(&[0u8; 55], &mut buf, &OURS, &THEIRS).unwrap(), 0);
    assert_eq!(buf, [0xAAu8; 64]);
    let mut exact = [0u8; 15];
    assert_eq!(ip_to_eth(&[0, 0, 0, 2, 0x45], &mut exact, &OURS, &THEIRS).unwrap(), 15);
    let mut short = [0u8; 14];
    assert_eq!(ip_to_eth(&[0, 0, 0, 2, 0x45], &mut short, &OURS, &THEIRS).unwrap(), 0);
}

#[test]
fn frame_to_packet() {
    let mut frame = vec![0u8; 14];
    frame[12] = 0x08;
    frame.extend_from_slice(&[0x45, 7, 8]);
    let mut buf = [0u8; 16];
    assert_eq!(eth_to_utun(&frame, &mut buf).unwrap(), 7);
    assert_eq!(&buf[0..7], &[0, 0, 0, 2, 0x45, 7, 8]);
    frame[12] = 0x86;
    frame[13] = 0xDD;
    assert_eq!(eth_to_utun(&frame, &mut buf).unwrap(), 7);
    assert_eq!(&buf[0..4], &[0, 0, 0, 30]);
    frame[13] = 0xDE;
    assert_eq!(eth_to_utun(&frame, &mut buf).unwrap(), 0);
    assert_eq!(eth_to_utun(&frame[..13], &mut buf).unwrap(), 0);
    frame[13] = 0xDD;
    let mut small = [0u8; 6];
    assert_eq!(eth_to_utun(&frame, &mut small).unwrap(), 0);
    assert_eq!(small, [0u8; 6]);
}

#[test]
fn packet_returns_from_frame() {
    let pkt = [0, 0, 0, 2, 0x45, 1, 2, 3, 4];
    let mut frame = [0u8; 64];
    let n = ip_to_eth(&pkt, &mut frame, &OURS, &THEIRS).unwrap();
    let mut back = [0u8; 64];
    let m = eth_to_utun(&frame[..n], &mut back).unwrap();
    assert_eq!(&back[..m], &pkt);
    let k = ip_to_eth(&back[..m], &mut [0u8; 64], &OURS, &THEIRS).unwrap();
    assert_eq!(k, n);
}

#[test]
fn arp_reply_bytes() {
    let mut buf = [0u8; 50];
    let n = arp::build_reply(
        &mut buf,
        &OURS,
        Ipv4Addr::new(192, 168, 42, 100),
        &THEIRS,
        Ipv4Addr::new(192, 168, 42, 129),
    )
    .unwrap();
    assert_eq!(n, 42);
    let expected = [
        0x0a, 0xbb, 0xcc, 0xdd, 0xee, 0xff, 0x02, 0x11, 0x22, 0x33, 0x44, 0x55, 0x08, 0x06, 0x00,
        0x01, 0x08, 0x00, 0x06, 0x04, 0x00, 0x02, 0x02, 0x11, 0x22, 0x33, 0x44, 0x55, 192, 168, 42,
        100, 0x0a, 0xbb, 0xcc, 0xdd, 0xee, 0xff, 192, 168, 42, 129,
    ];
    assert_eq!(&buf[..42], &expected[..]);
    assert_eq!(&buf[42..], &[0u8; 8]);
    let mut small = [0u8; 41];
    match arp::build_reply(&mut small, &OURS, Ipv4Addr { bits: 0 }, &THEIRS, Ipv4Addr { bits: 0 }) {
        Err(TetherError::BufferTooSmall { need, got }) => assert_eq!((need, got), (42, 41)),
        other => panic!("{:?}", other),
    }
}

fn arp_request(target: [u8; 4]) -> Vec<u8> {
    let mut frame = vec![0xFF; 6];
    frame.extend_from_slice(&THEIRS);
    frame.extend_from_slice(&[0x08, 0x06, 0, 1, 8, 0, 6, 4, 0, 1]);
    frame.extend_from_slice(&THEIRS);
    frame.extend_from_slice(&[10, 0, 0, 1]);
    frame.extend_from_slice(&[0; 6]);
    frame.extend_from_slice(&target);
    frame
}

#[test]
fn arp_request_is_answered() {
    let ours = Ipv4Addr::new(10, 0, 0, 2);
    let request = arp_request([10, 0, 0, 2]);
    let mut reply = [0u8; 64];
    assert_eq!(arp::handle_request(&request, &mut reply, &OURS, ours).unwrap(), 42);
    assert_eq!(&reply[0..6], &THEIRS);
    assert_eq!(&reply[6..12], &OURS);
    assert_eq!(&reply[20..22], &[0, 2]);
    assert_eq!(&reply[28..32], &[10, 0, 0, 2]);
    assert_eq!(&reply[38..42], &[10, 0, 0, 1]);
    // The answer is no request, so it gets no answer itself.
    assert_eq!(arp::handle_request(&reply[..42], &mut [0u8; 64], &OURS, ours).unwrap(), 0);
}

#[test]
fn arp_requests_that_are_ignored() {
    let ours = Ipv4Addr::new(10, 0, 0, 2);
    let mut reply = [0u8; 64];
    let other = arp_request([10, 0, 0, 3]);
    assert_eq!(arp::handle_request(&other, &mut reply, &OURS, ours).unwrap(), 0);
    let mut not_arp = arp_request([10, 0, 0, 2]);
    not_arp[13] = 0;
    assert_eq!(arp::handle_request(&not_arp, &mut reply, &OURS, ours).unwrap(), 0);
    let short = &arp_request([10, 0, 0, 2])[..41];
    assert_eq!(arp::handle_request(short, &mut reply, &OURS, ours).unwrap(), 0);
    assert_eq!(reply, [0u8; 64]);
    let good = arp_request([10, 0, 0, 2]);
    match arp::handle_request(&good, &mut reply[..20], &OURS, ours) {
        Err(TetherError::BufferTooSmall { need, got }) => assert_eq!((need, got), (42, 20)),
        other => panic!("{:?}", other),
    }
}

#[test]
fn announcements() {
    let ip = Ipv4Addr::new(192, 168, 42, 100);
    let bytes = arp::send_gratuitous(&OURS, ip);
    assert_eq!(bytes.len(), 86);
    assert_eq!(&bytes[0..4], &[1, 0, 0, 0]);
    assert_eq!(&bytes[4..8], &[86, 0, 0, 0]);
    let frame = &bytes[44..];
    assert_eq!(&frame[0..6], &[0xFF; 6]);
    assert_eq!(&frame[20..22], &[0, 2]);
    assert_eq!(&frame[28..32], &[192, 168, 42, 100]);
    assert_eq!(&frame[32..38], &[0xFF; 6]);
    assert_eq!(&frame[38..42], &[192, 168, 42, 100]);
    let presence = arp::build_presence(&OURS, ip);
    assert_eq!(presence.len(), 42);
    assert_eq!(&presence[20..22], &[0, 1]);
    assert_eq!(&presence[28..32], &[192, 168, 42, 100]);
    assert_eq!(&presence[38..42], &[0, 0, 0, 0]);
}
