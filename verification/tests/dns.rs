use android_tether::config::DnsProvider;
use android_tether::dns_proxy::{
    build_reply, can_reply, doh_url, dot_addr, dot_hostname, dot_response_len, frame_dot_query, ip_checksum,
    is_dns_to_gateway, root_dns_query, static_dns_resolver,
};
use android_tether::dnscrypt::{
    build_cert_query, create_dnscrypt_pool, create_pool_for, extract_cert_from_dns, get_provider,
    read_cert, scan_cert, CertFetch, CertScan, CertStep, DnscryptCert, DnscryptSession,
};
use android_tether::net_types::Ipv4Addr;
use dryoc::classic::crypto_box::{crypto_box_beforenm, crypto_box_keypair};
use dryoc::classic::crypto_secretbox::{crypto_secretbox_easy, crypto_secretbox_open_easy};

const OUR_IP: u32 = 0xC0A8_2A64;

/// A DNS query in a packet of the virtual interface.
fn query_packet(destination: [u8; 4], dns: &[u8]) -> Vec<u8> {
    let mut pkt = vec![0, 0, 0, 2];
    pkt.extend_from_slice(&[0x45, 0, 0, 0, 0, 0, 0, 0, 64, 17, 0, 0]);
    pkt.extend_from_slice(&OUR_IP.to_be_bytes());
    pkt.extend_from_slice(&destination);
    pkt.extend_from_slice(&[0xC0, 0x01, 0, 53, 0, 0, 0, 0]);
    pkt.extend_from_slice(dns);
    pkt
}

#[test]
fn queries_are_caught() {
    let dns = root_dns_query();
    assert_eq!(dns.len(), 29);
    assert_eq!(&dns[12..20], b"\x07opendns");
    assert_eq!(&dns[20..], &[3, b'c', b'o', b'm', 0, 0, 1, 0, 1]);
    for destination in [[192, 168, 42, 129], [8, 8, 8, 8], [0, 0, 0, 0]] {
        let pkt = query_packet(destination, &dns);
        assert_eq!(is_dns_to_gateway(&pkt, OUR_IP, 0xC0A8_2A81), Some(29));
    }
    let pkt = query_packet([8, 8, 8, 8], &[0; 12]);
    assert_eq!(is_dns_to_gateway(&pkt, OUR_IP, 0), Some(12));
}

#[test]
fn other_packets_are_not_caught() {
    let dns = root_dns_query();
    let good = query_packet([8, 8, 8, 8], &dns);
    assert_eq!(is_dns_to_gateway(&good, OUR_IP + 1, 0), None);
    assert_eq!(is_dns_to_gateway(&good[..43], OUR_IP, 0), None);
    for (at, value) in [(3usize, 30u8), (4, 0x65), (13, 6), (27, 54), (4, 0x4F)] {
        let mut pkt = good.clone();
        pkt[at] = value;
        assert_eq!(is_dns_to_gateway(&pkt, OUR_IP, 0), None, "{}", at);
    }
}

#[test]
fn header_options_move_the_query() {
    let mut pkt = vec![0, 0, 0, 2];
    pkt.extend_from_slice(&[0x46, 0, 0, 0, 0, 0, 0, 0, 64, 17, 0, 0]);
    pkt.extend_from_slice(&OUR_IP.to_be_bytes());
    pkt.extend_from_slice(&[8, 8, 8, 8, 1, 1, 1, 1]);
    pkt.extend_from_slice(&[0xC0, 0x01, 0, 53, 0, 0, 0, 0]);
    pkt.extend_from_slice(&[7; 20]);
    assert_eq!(is_dns_to_gateway(&pkt, OUR_IP, 0), Some(20));
    let reply = build_reply(&pkt, &[1, 2]);
    assert_eq!(&reply[24..28], &[0, 53, 0xC0, 0x01]);
}

#[test]
fn reply_bytes() {
    let pkt = query_packet([9, 9, 9, 9], &root_dns_query());
    let reply = build_reply(&pkt, &[0xAA, 0xBB, 0xCC]);
    assert_eq!(reply.len(), 35);
    assert_eq!(&reply[0..4], &[0, 0, 0, 2]);
    assert_eq!(&reply[4..14], &[0x45, 0, 0, 31, 0, 0, 0, 0, 64, 17]);
    assert_eq!(&reply[16..20], &[9, 9, 9, 9]);
    assert_eq!(&reply[20..24], &[192, 168, 42, 100]);
    assert_eq!(&reply[24..32], &[0, 53, 0xC0, 0x01, 0, 11, 0, 0]);
    assert_eq!(&reply[32..], &[0xAA, 0xBB, 0xCC]);
    assert_eq!(ip_checksum(&reply[4..24]), 0);
    assert_eq!(&reply[14..16], &[0x7D, 0xB0]);
}

#[test]
fn long_reply_wraps_its_lengths() {
    let pkt = query_packet([9, 9, 9, 9], &root_dns_query());
    let reply = build_reply(&pkt, &vec![0u8; 65_536]);
    assert_eq!(reply.len(), 65_568);
    assert_eq!(&reply[6..8], &[0, 28]);
    assert_eq!(&reply[28..30], &[0, 8]);
}

#[test]
fn checksum_counts_a_single_byte() {
    assert_eq!(ip_checksum(&[]), 0xFFFF);
    assert_eq!(ip_checksum(&[0x12, 0x34]), 0xEDCB);
    assert_eq!(ip_checksum(&[0x12, 0x34, 0x10]), !(0x1234 + 0x1000));
}

#[test]
fn provider_tables() {
    let list = [
        (DnsProvider::Cloudflare, "1.1.1.1", "cloudflare-dns.com"),
        (DnsProvider::Google, "8.8.8.8", "dns.google"),
        (DnsProvider::Quad9, "9.9.9.9", "dns.quad9.net"),
    ];
    for (p, ip, host) in list {
        assert_eq!(dot_hostname(p), host);
        assert_eq!(dot_addr(p), format!("{}:853", ip));
        assert_eq!(doh_url(p), format!("https://{}/dns-query", host));
        let found = static_dns_resolver(host).unwrap();
        assert_eq!(found.len(), 1);
        assert_eq!(found[0].ip.to_text(), ip);
        assert_eq!(found[0].port, 443);
    }
}

#[test]
fn resolver_reads_ports() {
    let port = |s: &str| static_dns_resolver(s).unwrap()[0].port;
    assert_eq!(port("dns.google:853"), 853);
    assert_eq!(port("dns.google:+80"), 80);
    assert_eq!(port("dns.google:0"), 0);
    assert_eq!(port("dns.google:65535"), 65535);
    assert_eq!(port("dns.google:0000443"), 443);
    for bad in ["", "65536", "x", "-1", "+", "4 4", "1:2", "++1"] {
        assert_eq!(port(&format!("dns.google:{}", bad)), 443, "{}", bad);
        assert!(bad.parse::<u16>().is_err());
    }
}

#[test]
fn resolver_knows_no_others() {
    assert_eq!(
        static_dns_resolver("example.com:443").unwrap_err(),
        "static resolver: unknown host example.com:443"
    );
    assert_eq!(
        static_dns_resolver("").unwrap_err(),
        "static resolver: unknown host "
    );
    assert!(static_dns_resolver("DNS.google").is_err());
}

#[test]
fn messages_over_tls() {
    assert_eq!(frame_dot_query(&[1, 2, 3]), vec![0, 3, 1, 2, 3]);
    assert_eq!(frame_dot_query(&[]), vec![0, 0]);
    assert_eq!(frame_dot_query(&vec![9; 300])[..2], [1, 44]);
    assert_eq!(dot_response_len(&[0, 5]).unwrap(), 5);
    assert_eq!(dot_response_len(&[0x10, 0x00]).unwrap(), 4096);
    assert_eq!(dot_response_len(&[0x10, 0x01]).unwrap_err(), "response too large");
}

#[test]
fn certificate_query_bytes() {
    let query = build_cert_query("2.dnscrypt-cert.dct-de2");
    let mut expected = vec![0, 0, 1, 0, 0, 1, 0, 0, 0, 0, 0, 0, 1, b'2', 13];
    expected.extend_from_slice(b"dnscrypt-cert");
    expected.push(7);
    expected.extend_from_slice(b"dct-de2");
    expected.extend_from_slice(&[0, 0, 0x10, 0, 1]);
    assert_eq!(query, expected);
    assert_eq!(build_cert_query("")[12..], [0, 0, 0x10, 0, 1]);
    assert_eq!(build_cert_query(".a..b.")[12..], [1, b'a', 1, b'b', 0, 0, 0x10, 0, 1]);
}

/// A DNS answer with one text record.
fn answer(strings: &[&[u8]], compressed: bool) -> Vec<u8> {
    let mut out = build_cert_query("a.b");
    out[7] = 1;
    if compressed {
        out.extend_from_slice(&[0xC0, 12]);
    } else {
        out.extend_from_slice(&[1, b'a', 1, b'b', 0]);
    }
    out.extend_from_slice(&[0, 16, 0, 1, 0, 0, 0, 60]);
    let mut text = Vec::new();
    for s in strings {
        text.push(s.len() as u8);
        text.extend_from_slice(s);
    }
    out.extend_from_slice(&(text.len() as u16).to_be_bytes());
    out.extend_from_slice(&text);
    out
}

fn cert_bytes() -> Vec<u8> {
    let mut bytes = vec![0u8; 124];
    bytes[..4].copy_from_slice(b"DNSC");
    bytes[56..60].copy_from_slice(&[0, 0, 1, 2]);
    for i in 0..32 {
        bytes[72 + i] = i as u8;
    }
    bytes[104..112].copy_from_slice(b"magic-12");
    bytes
}

#[test]
fn text_records_are_found() {
    for compressed in [true, false] {
        let a = answer(&[b"hello ", b"world"], compressed);
        assert_eq!(extract_cert_from_dns(&a), Some(b"hello ".to_vec()));
    }
    assert_eq!(extract_cert_from_dns(&answer(&[], true)), None);
    assert_eq!(extract_cert_from_dns(&[0; 11]), None);
    assert_eq!(extract_cert_from_dns(&[0; 12]), None);
}

#[test]
fn other_records_are_passed_over() {
    let mut a = answer(&[b"first"], true);
    a[7] = 2;
    let at = 12 + 5 + 4 + 2;
    a[at + 1] = 1;
    a.extend_from_slice(&[0xC0, 12, 0, 16, 0, 1, 0, 0, 0, 60, 0, 3, 2, b'o', b'k']);
    assert_eq!(extract_cert_from_dns(&a), Some(b"ok".to_vec()));
}

#[test]
fn strings_that_are_cut_off() {
    let mut a = answer(&[b"abc", b"def"], true);
    let n = a.len();
    a[n - 4] = 9;
    assert_eq!(extract_cert_from_dns(&a), Some(b"abc".to_vec()));
    a[n - 8] = 8;
    assert_eq!(extract_cert_from_dns(&a), None);
    // An empty first string counts as none.
    assert_eq!(extract_cert_from_dns(&answer(&[b"", b"def"], true)), None);
    // A record that goes beyond the end counts as none.
    let a = answer(&[b"abc"], true);
    assert_eq!(extract_cert_from_dns(&a[..a.len() - 1]), None);
}

#[test]
fn overruns_are_told_apart() {
    let a = answer(&[b"abc"], true);
    let start = build_cert_query("a.b").len();
    // Ten bytes are there, but the length of the record is not.
    assert!(matches!(scan_cert(&a[..start + 11]), CertScan::Overrun));
    assert!(matches!(scan_cert(&a[..start + 9]), CertScan::Absent));
    // A label goes beyond the end.
    let mut b = a.clone();
    b[12] = 200;
    assert!(matches!(scan_cert(&b), CertScan::Absent));
    // More questions than there are.
    let mut c = a.clone();
    c[4] = 255;
    assert!(matches!(scan_cert(&c), CertScan::Absent));
    assert!(matches!(scan_cert(&a), CertScan::Found(_)));
}

#[test]
fn certificates_are_read() {
    let cert = read_cert(&cert_bytes()).unwrap();
    assert_eq!(cert.serial, 258);
    assert_eq!(&cert.client_magic, b"magic-12");
    assert_eq!(cert.server_pk[0], 0);
    assert_eq!(cert.server_pk[31], 31);
    assert_eq!(cert.valid_until, 0);
    assert!(read_cert(&cert_bytes()[..123]).is_none());
    let mut bad = cert_bytes();
    bad[3] = b'D';
    assert!(read_cert(&bad).is_none());
}

#[test]
fn certificate_ports_are_tried() {
    let (mut fetch, port) = CertFetch::start();
    assert_eq!(port, 443);
    assert!(matches!(fetch.receive(None), CertStep::Ask(5353)));
    assert!(matches!(fetch.receive(Some(vec![0; 20])), CertStep::Ask(8443)));
    match fetch.receive(None) {
        CertStep::Failed(e) => assert_eq!(e, "cert fetch: no response"),
        other => panic!("{:?}", other),
    }
    let (mut fetch, _) = CertFetch::start();
    match fetch.receive(Some(answer(&[&cert_bytes()], true))) {
        CertStep::Found(cert) => assert_eq!(cert.serial, 258),
        other => panic!("{:?}", other),
    }
}

const SECOND: u64 = 1_000_000_000;

fn cert(server_pk: [u8; 32]) -> DnscryptCert {
    DnscryptCert { server_pk, client_magic: *b"magic-12", serial: 1, valid_until: 0 }
}

#[test]
fn session_shares_a_key_with_the_server() {
    let (server_pk, server_sk) = crypto_box_keypair();
    let session = DnscryptSession::new(&cert(server_pk), 5).unwrap();
    assert_eq!(session.shared_key, crypto_box_beforenm(&session.client_pk, &server_sk));
    assert_ne!(session.shared_key, session.client_pk);
    assert_eq!(session.created, 5);
    let other = DnscryptSession::new(&cert(server_pk), 5).unwrap();
    assert_ne!(session.client_pk, other.client_pk);
}

#[test]
fn session_with_given_keys() {
    let (server_pk, server_sk) = crypto_box_keypair();
    let (client_pk, client_sk) = crypto_box_keypair();
    let session = DnscryptSession::with_keys(&cert(server_pk), client_pk, &client_sk, 9);
    assert_eq!(session.client_pk, client_pk);
    assert_eq!(session.shared_key, crypto_box_beforenm(&client_pk, &server_sk));
    assert_eq!(&session.client_magic, b"magic-12");
}

#[test]
fn query_can_be_opened_by_the_server() {
    let (server_pk, server_sk) = crypto_box_keypair();
    let session = DnscryptSession::new(&cert(server_pk), 0).unwrap();
    let packet = session.encrypt(b"what is it").unwrap();
    assert_eq!(packet.len(), 8 + 32 + 12 + 16 + 10);
    assert_eq!(&packet[..8], b"magic-12");
    assert_eq!(&packet[8..40], &session.client_pk);
    let mut nonce = [0u8; 24];
    nonce[..12].copy_from_slice(&packet[40..52]);
    let mut client_pk = [0u8; 32];
    client_pk.copy_from_slice(&packet[8..40]);
    let key = crypto_box_beforenm(&client_pk, &server_sk);
    let mut plain = vec![0u8; 10];
    crypto_secretbox_open_easy(&mut plain, &packet[52..], &nonce, &key).unwrap();
    assert_eq!(plain, b"what is it");
    // Each query has a nonce of its own.
    assert_ne!(packet[40..52], session.encrypt(b"what is it").unwrap()[40..52]);
}

fn server_answer(session: &DnscryptSession, half: [u8; 12], text: &[u8]) -> Vec<u8> {
    let mut nonce = [0u8; 24];
    nonce[..12].copy_from_slice(&half);
    let mut ciphertext = vec![0u8; text.len() + 16];
    crypto_secretbox_easy(&mut ciphertext, text, &nonce, &session.shared_key).unwrap();
    let mut out = session.client_magic.to_vec();
    out.extend_from_slice(&half);
    out.extend_from_slice(&ciphertext);
    out
}

#[test]
fn answer_is_decrypted() {
    let (server_pk, _) = crypto_box_keypair();
    let session = DnscryptSession::new(&cert(server_pk), 0).unwrap();
    let data = server_answer(&session, [7; 12], b"here it is");
    assert_eq!(session.decrypt(&data).unwrap(), b"here it is");
    let sealed = session.encrypt_with(&[7; 12], b"here it is").unwrap();
    assert_eq!(sealed[52..], data[20..]);
}

#[test]
fn answers_that_are_refused() {
    let (server_pk, _) = crypto_box_keypair();
    let session = DnscryptSession::new(&cert(server_pk), 0).unwrap();
    let data = server_answer(&session, [7; 12], b"x");
    assert_eq!(data.len(), 37);
    assert_eq!(session.decrypt(&data).unwrap(), b"x");
    assert_eq!(session.decrypt(&data[..36]).unwrap_err(), "response too short");
    let mut bad = data.clone();
    bad[0] ^= 1;
    assert_eq!(session.decrypt(&bad).unwrap_err(), "bad client magic");
    for at in [8usize, 20, 36] {
        let mut bad = data.clone();
        bad[at] ^= 1;
        assert_eq!(session.decrypt(&bad).unwrap_err(), "decrypt failed");
    }
}

#[test]
fn sessions_expire() {
    let session = DnscryptSession::new(&cert([9; 32]), 10 * SECOND).unwrap();
    assert!(!session.is_expired(10 * SECOND));
    assert!(!session.is_expired(3610 * SECOND));
    assert!(session.is_expired(3610 * SECOND + 1));
    assert!(!session.is_expired(0));
}

#[test]
fn providers_share_a_server() {
    for p in [DnsProvider::Cloudflare, DnsProvider::Google, DnsProvider::Quad9] {
        let prov = get_provider(p);
        assert_eq!(prov.addr.ip, Ipv4Addr::new(82, 165, 61, 52));
        assert_eq!(prov.addr.port, 53);
        assert_eq!(prov.provider_name, "2.dnscrypt-cert.dct-de2");
        assert_eq!(prov.client_magic, [0; 8]);
        let pk = prov.known_pk.unwrap();
        assert_eq!((pk[0], pk[31]), (0xaf, 0xcf));
    }
}

#[test]
fn pool_falls_back_on_the_known_key() {
    let pool = create_dnscrypt_pool(DnsProvider::Google, Err("no".to_string()), 3).unwrap();
    assert_eq!(pool.cert.server_pk, get_provider(DnsProvider::Google).known_pk.unwrap());
    assert_eq!(pool.cert.serial, 0);
    assert!(pool.session.is_none());
    assert_eq!(pool.last_cert_fetch, 3);
    let pool = create_dnscrypt_pool(DnsProvider::Google, Ok(cert([9; 32])), 3).unwrap();
    assert_eq!(pool.cert.server_pk, [9; 32]);
    let mut unknown = get_provider(DnsProvider::Google);
    unknown.known_pk = None;
    assert_eq!(
        create_pool_for(unknown, Err("no".to_string()), 3).unwrap_err(),
        "DNSCrypt cert fetch: no"
    );
}

#[test]
fn pool_keeps_and_renews_its_session() {
    let (server_pk, _) = crypto_box_keypair();
    let mut pool = create_dnscrypt_pool(DnsProvider::Quad9, Ok(cert(server_pk)), 0).unwrap();
    let packet = pool.query(b"q", None, 1).unwrap();
    let first = pool.session.unwrap();
    assert_eq!(&packet[8..40], &first.client_pk);
    pool.query(b"q", None, 3600 * SECOND).unwrap();
    assert_eq!(pool.session.unwrap().client_pk, first.client_pk);
    pool.query(b"q", None, 3600 * SECOND + 2).unwrap();
    assert_ne!(pool.session.unwrap().client_pk, first.client_pk);
}

#[test]
fn pool_renews_its_certificate() {
    let (server_pk, _) = crypto_box_keypair();
    let mut pool = create_dnscrypt_pool(DnsProvider::Quad9, Ok(cert(server_pk)), 0).unwrap();
    let day = 86_400 * SECOND;
    assert!(!pool.needs_cert(day));
    assert!(pool.needs_cert(day + 1));
    assert_eq!(
        pool.query(b"q", Some(Err("down".to_string())), day + 1).unwrap_err(),
        "DNSCrypt cert refresh: down"
    );
    assert!(pool.needs_cert(day + 1));
    pool.query(b"q", Some(Ok(cert([8; 32]))), day + 1).unwrap();
    assert_eq!(pool.cert.server_pk, [8; 32]);
    assert!(!pool.needs_cert(day + 1));
}

#[test]
fn pool_resolves() {
    let (server_pk, _) = crypto_box_keypair();
    let mut pool = create_dnscrypt_pool(DnsProvider::Quad9, Ok(cert(server_pk)), 0).unwrap();
    pool.ensure_session(None, 0).unwrap();
    let session = pool.session.unwrap();
    let data = server_answer(&session, [1; 12], b"answer");
    assert_eq!(pool.resolve(Ok(data.clone())), Some(b"answer".to_vec()));
    assert_eq!(pool.resolve(Ok(data[..30].to_vec())), None);
    assert_eq!(pool.resolve(Err("recv response: timed out".to_string())), None);
}

#[test]
fn packets_that_can_be_answered() {
    let mut pkt = vec![0u8; 28];
    pkt[4] = 0x45;
    assert!(can_reply(&pkt, &[]));
    assert!(can_reply(&pkt, &[1, 2, 3]));
    pkt[4] = 0x46;
    assert!(!can_reply(&pkt, &[]));
    pkt[4] = 0x40;
    assert!(can_reply(&pkt[..24], &[]));
    assert!(!can_reply(&pkt[..23], &[]));
    assert!(!can_reply(&[], &[]));
}
