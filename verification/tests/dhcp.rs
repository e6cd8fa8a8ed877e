use android_tether::dhcp::{
    acknowledged_type, build_discover, build_request, checksum, discover, find_message,
    parse_dhcp_options, scan_offer, DhcpAction, DhcpPhase, DHCP_XID,
};
use android_tether::error::TetherError;
use android_tether::net_types::{DhcpLease, Ipv4Addr, MacAddr};
use android_tether::rndis::packet_of;

const MAC: [u8; 6] = [2, 3, 4, 5, 6, 7];

fn ip(a: u8, b: u8, c: u8, d: u8) -> Ipv4Addr {
    Ipv4Addr::new(a, b, c, d)
}

/// A message from a server, as an Ethernet frame.
fn server_frame(xid: u32, yours: [u8; 4], options: &[u8]) -> Vec<u8> {
    let mut frame = vec![0u8; 14 + 20 + 8 + 240];
    frame[12] = 0x08;
    frame[14] = 0x45;
    frame[23] = 0x11;
    frame[37] = 68;
    let at = 42;
    frame[at + 4..at + 8].copy_from_slice(&xid.to_be_bytes());
    frame[at + 16..at + 20].copy_from_slice(&yours);
    frame[at + 236..at + 240].copy_from_slice(&[0x63, 0x82, 0x53, 0x63]);
    frame.extend_from_slice(options);
    frame
}

fn offer() -> Vec<u8> {
    server_frame(DHCP_XID, [10, 0, 0, 7], &[53, 1, 2, 54, 4, 10, 0, 0, 1, 0xFF])
}

fn ack() -> Vec<u8> {
    server_frame(
        DHCP_XID,
        [10, 0, 0, 7],
        &[
            53, 1, 5, 1, 4, 255, 255, 0, 0, 3, 4, 10, 0, 0, 1, 6, 8, 9, 9, 9, 9, 1, 1, 1, 1, 0xFF,
        ],
    )
}

#[test]
fn discover_frame_bytes() {
    let mut buf = [0xEEu8; 400];
    assert_eq!(build_discover(&mut buf, &MAC, 0xA1B2_C3D4).unwrap(), 314);
    assert_eq!(&buf[0..6], &[0xFF; 6]);
    assert_eq!(&buf[6..12], &MAC);
    assert_eq!(
        &buf[12..34],
        &[
            0x08, 0x00, 0x45, 0, 0x01, 0x2C, 0, 0, 0, 0, 64, 0x11, 0x79, 0xC2, 0, 0, 0, 0, 0xFF,
            0xFF, 0xFF, 0xFF
        ]
    );
    assert_eq!(&buf[34..42], &[0, 68, 0, 67, 0x01, 0x18, 0, 0]);
    assert_eq!(&buf[42..54], &[1, 1, 6, 0, 0xA1, 0xB2, 0xC3, 0xD4, 0, 0, 0x80, 0]);
    assert_eq!(&buf[54..70], &[0; 16]);
    assert_eq!(&buf[70..76], &MAC);
    assert_eq!(&buf[76..278], &[0; 202][..]);
    assert_eq!(&buf[278..282], &[0x63, 0x82, 0x53, 0x63]);
    assert_eq!(&buf[282..291], &[53, 1, 1, 55, 3, 1, 3, 6, 0xFF]);
    assert_eq!(&buf[291..], &[0; 109][..]);
    assert_eq!(checksum(&buf[14..34]), 0);
}

#[test]
fn request_frame_bytes() {
    let mut buf = [0xEEu8; 314];
    let n = build_request(&mut buf, &MAC, 7, ip(10, 0, 0, 7), ip(10, 0, 0, 1)).unwrap();
    assert_eq!(n, 314);
    assert_eq!(
        &buf[282..303],
        &[53, 1, 3, 50, 4, 10, 0, 0, 7, 54, 4, 10, 0, 0, 1, 55, 3, 1, 3, 6, 0xFF]
    );
    assert_eq!(&buf[303..], &[0; 11]);
    assert_eq!(checksum(&buf[14..34]), 0);
}

#[test]
fn messages_without_room_for_dhcp() {
    let mut buf = [0u8; 313];
    match build_discover(&mut buf, &MAC, 1) {
        Err(TetherError::BufferTooSmall { need, got }) => assert_eq!((need, got), (314, 313)),
        other => panic!("{:?}", other),
    }
    match build_request(&mut buf, &MAC, 1, ip(0, 0, 0, 0), ip(0, 0, 0, 0)) {
        Err(TetherError::BufferTooSmall { need, got }) => assert_eq!((need, got), (314, 313)),
        other => panic!("{:?}", other),
    }
}

#[test]
fn checksum_leaves_out_a_single_byte() {
    assert_eq!(checksum(&[]), 0xFFFF);
    assert_eq!(checksum(&[0x12, 0x34, 0xFF]), !0x1234);
    assert_eq!(checksum(&[0xFF, 0xFF, 0x00, 0x01]), 0xFFFE);
}

#[test]
fn options_are_read() {
    let opts = [
        0, 0, 1, 4, 255, 255, 255, 0, 3, 4, 10, 0, 0, 1, 12, 2, 65, 66, 6, 8, 9, 9, 9, 9, 1, 1, 1, 1,
        0xFF, 3, 4, 99, 99, 99, 99,
    ];
    assert_eq!(
        parse_dhcp_options(&opts),
        (
            Some(ip(10, 0, 0, 1)),
            Some(ip(255, 255, 255, 0)),
            Some(ip(9, 9, 9, 9)),
            Some(ip(1, 1, 1, 1))
        )
    );
    assert_eq!(parse_dhcp_options(&[]), (None, None, None, None));
}

#[test]
fn last_option_counts() {
    let opts = [6, 8, 1, 1, 1, 1, 2, 2, 2, 2, 6, 4, 3, 3, 3, 3, 3, 3, 9, 9, 9];
    assert_eq!(
        parse_dhcp_options(&opts),
        (None, None, Some(ip(3, 3, 3, 3)), Some(ip(2, 2, 2, 2)))
    );
}

#[test]
fn options_that_are_cut_off() {
    assert_eq!(parse_dhcp_options(&[3, 4, 1, 2, 3]), (None, None, None, None));
    assert_eq!(parse_dhcp_options(&[3]), (None, None, None, None));
    assert_eq!(parse_dhcp_options(&[3, 3, 1, 2, 3]), (None, None, None, None));
    assert_eq!(acknowledged_type(&[53, 1]), 0);
    assert_eq!(acknowledged_type(&[53, 1, 5]), 5);
    assert_eq!(acknowledged_type(&[53, 2, 5]), 0);
    assert_eq!(acknowledged_type(&[53, 0, 53, 1, 6]), 6);
}

#[test]
fn offers_are_scanned() {
    assert_eq!(scan_offer(&[53, 1, 2, 54, 4, 10, 0, 0, 1]), Some((2, Some(ip(10, 0, 0, 1)))));
    assert_eq!(scan_offer(&[]), Some((0, None)));
    // What is there of an option at the end counts.
    assert_eq!(scan_offer(&[53, 9, 2]), Some((2, None)));
    assert_eq!(scan_offer(&[54, 200, 1, 2, 3, 4]), Some((0, Some(ip(1, 2, 3, 4)))));
    assert_eq!(scan_offer(&[12, 200, 1]), Some((0, None)));
    assert_eq!(scan_offer(&[53, 1]), None);
    assert_eq!(scan_offer(&[54, 4, 1, 2, 3]), None);
    assert_eq!(scan_offer(&[0xFF, 53, 1]), Some((0, None)));
}

#[test]
fn messages_are_found() {
    let frame = offer();
    assert_eq!(find_message(&frame, DHCP_XID), Some(42));
    assert_eq!(find_message(&frame, 1), None);
    assert_eq!(find_message(&frame[..281], DHCP_XID), None);
    for (at, value) in [(12usize, 0x86u8), (23, 6), (37, 67), (278, 0)] {
        let mut other = offer();
        other[at] = value;
        assert_eq!(find_message(&other, DHCP_XID), None, "{}", at);
    }
    // A header with options moves the message, which then does not fit.
    let mut longer = server_frame(DHCP_XID, [0; 4], &[]);
    longer[14] = 0x46;
    longer[41] = 68;
    assert_eq!(find_message(&longer, DHCP_XID), None);
}

fn lease() -> DhcpLease {
    DhcpLease {
        ip: ip(10, 0, 0, 7),
        gateway: ip(10, 0, 0, 1),
        netmask: ip(255, 255, 0, 0),
        dns1: ip(9, 9, 9, 9),
        dns2: ip(1, 1, 1, 1),
    }
}

#[test]
fn whole_exchange() {
    let (mut client, first) = discover(&MacAddr(MAC));
    assert_eq!(first.len(), 44 + 314);
    assert_eq!(&first[44 + 46..44 + 50], &[0x12, 0x34, 0x56, 0x78]);
    assert!(matches!(client.receive(&[]), DhcpAction::Receive));
    let request = match client.receive(&packet_of(&offer())) {
        DhcpAction::Send(bytes) => bytes,
        other => panic!("{:?}", other),
    };
    assert_eq!(
        &request[44 + 282..44 + 297],
        &[53, 1, 3, 50, 4, 10, 0, 0, 7, 54, 4, 10, 0, 0, 1]
    );
    assert_eq!(client.phase, DhcpPhase::Requesting);
    assert!(matches!(client.receive(&packet_of(&offer())), DhcpAction::Receive));
    match client.receive(&packet_of(&ack())) {
        DhcpAction::Done(l) => assert_eq!(l, lease()),
        other => panic!("{:?}", other),
    }
    assert_eq!(client.phase, DhcpPhase::Finished);
}

#[test]
fn exchange_without_an_offer() {
    let (mut client, _) = discover(&MacAddr(MAC));
    for _ in 0..49 {
        assert!(matches!(client.receive(&[]), DhcpAction::Receive));
    }
    match client.receive(&[]) {
        DhcpAction::Failed(TetherError::Dhcp(s)) => assert_eq!(s, "no DHCP offer received"),
        other => panic!("{:?}", other),
    }
}

#[test]
fn exchange_without_an_acknowledgement() {
    let (mut client, _) = discover(&MacAddr(MAC));
    assert!(matches!(client.receive(&packet_of(&offer())), DhcpAction::Send(_)));
    for _ in 0..49 {
        assert!(matches!(client.receive(&packet_of(&offer())), DhcpAction::Receive));
    }
    match client.receive(&[]) {
        DhcpAction::Done(l) => {
            assert_eq!(l.ip, ip(192, 168, 42, 100));
            assert_eq!(l.gateway, ip(192, 168, 42, 129));
            assert_eq!(l.netmask, ip(255, 255, 255, 0));
            assert_eq!(l.dns1, ip(8, 8, 8, 8));
            assert_eq!(l.dns2, ip(8, 8, 4, 4));
        }
        other => panic!("{:?}", other),
    }
}

#[test]
fn last_offer_counts_and_the_server_is_remembered() {
    let (mut client, _) = discover(&MacAddr(MAC));
    // A message of another type names the server.
    let named = server_frame(DHCP_XID, [0; 4], &[53, 1, 6, 54, 4, 7, 7, 7, 7]);
    assert!(matches!(client.receive(&packet_of(&named)), DhcpAction::Receive));
    let mut two = packet_of(&server_frame(DHCP_XID, [10, 0, 0, 8], &[53, 1, 2]));
    two.extend(packet_of(&server_frame(DHCP_XID, [10, 0, 0, 9], &[53, 1, 2])));
    match client.receive(&two) {
        DhcpAction::Send(bytes) => assert_eq!(
            &bytes[44 + 285..44 + 297],
            &[50, 4, 10, 0, 0, 9, 54, 4, 7, 7, 7, 7]
        ),
        other => panic!("{:?}", other),
    }
}

#[test]
fn first_acknowledgement_counts_and_is_filled_up() {
    let (mut client, _) = discover(&MacAddr(MAC));
    let bare_offer = server_frame(DHCP_XID, [10, 0, 0, 8], &[53, 1, 2]);
    match client.receive(&packet_of(&bare_offer)) {
        DhcpAction::Send(bytes) => {
            assert_eq!(&bytes[44 + 291..44 + 297], &[54, 4, 0, 0, 0, 0])
        }
        other => panic!("{:?}", other),
    }
    let mut two = packet_of(&server_frame(DHCP_XID, [10, 0, 0, 8], &[53, 1, 5]));
    two.extend(packet_of(&ack()));
    match client.receive(&two) {
        DhcpAction::Done(l) => assert_eq!(
            l,
            DhcpLease {
                ip: ip(10, 0, 0, 8),
                gateway: ip(192, 168, 42, 129),
                netmask: ip(255, 255, 255, 0),
                dns1: ip(8, 8, 8, 8),
                dns2: ip(8, 8, 4, 4),
            }
        ),
        other => panic!("{:?}", other),
    }
}

#[test]
fn overruns_are_told() {
    let (client, _) = discover(&MacAddr(MAC));
    let bad = packet_of(&server_frame(DHCP_XID, [10, 0, 0, 8], &[53, 1]));
    assert!(client.overruns(&bad));
    assert!(!client.overruns(&packet_of(&offer())));
    let other = packet_of(&server_frame(1, [10, 0, 0, 8], &[53, 1]));
    assert!(!client.overruns(&other));
}
