use android_tether::arp::{build_presence, send_gratuitous};
use android_tether::config::{DnsMode, TetherConfig};
use android_tether::error::TetherError;
use android_tether::ipc::IpcCommand;
use android_tether::net_types::{DhcpLease, Ipv4Addr};
use android_tether::proto_driver::ProtocolDriver;
use android_tether::proto_rndis::RndisDriver;
use android_tether::rndis::packet_of;
use android_tether::session::{
    active_tasks, after_dot, after_session, before_session, choose_addresses, ends_session,
    first_addresses, is_running, keep_connections, needs_dhcp, next_query, route_packet, route_steps, set_dns, setup_steps, startup,
    teardown_steps, wanted_connections, worker_count, ActiveTask, AfterSession, DotNext, DotOutcome, DotStage,
    LinkState, Session, SessionClock, SessionEvent, SessionTask, Startup, Step, TxAction, WatchStep,
    IDLE_MS, LINGER_MS, POLL_MS, REPORT_INTERVAL, TICK_MS,
};
use android_tether::stats::SharedStats;
use android_tether::usb_device::{
    AltSetting, EndpointInfo, Endpoints, ProbeAction, TransferKind, UsbDevice,
};
use android_tether::usb_device::TransferKind::{Bulk, Interrupt, Isochronous};
use android_tether::usb_io::{can_submit, on_completion, process_rx, RxStep, RxWindow};
use android_tether::utun::Utun;

const OURS: [u8; 6] = [0x02, 1, 2, 3, 4, 5];
const GATEWAY: [u8; 6] = [0x0a, 6, 7, 8, 9, 10];

fn ip(a: u8, b: u8, c: u8, d: u8) -> Ipv4Addr {
    Ipv4Addr::new(a, b, c, d)
}

fn lease() -> DhcpLease {
    DhcpLease {
        ip: ip(10, 0, 0, 7),
        gateway: ip(10, 0, 0, 1),
        netmask: ip(255, 255, 0, 0),
        dns1: ip(9, 9, 9, 9),
        dns2: ip(1, 1, 1, 1),
    }
}

fn texts(steps: Vec<Step>) -> Vec<(bool, String)> {
    steps
        .into_iter()
        .map(|s| match s {
            Step::Scutil(t) => (true, t),
            Step::Shell(t) => (false, t),
        })
        .collect()
}

#[test]
fn rights_are_needed() {
    let mut config = TetherConfig::default();
    assert_eq!(startup(&config, true), Startup::Tether);
    assert_eq!(startup(&config, false), Startup::RefuseTether);
    config.uninstall = true;
    assert_eq!(startup(&config, true), Startup::Uninstall);
    assert_eq!(startup(&config, false), Startup::RefuseUninstall);
    config.install = true;
    assert_eq!(startup(&config, true), Startup::Install);
    assert_eq!(startup(&config, false), Startup::RefuseInstall);
}

#[test]
fn both_flags_keep_it_running() {
    assert!(is_running(true, true));
    assert!(!is_running(false, true));
    assert!(!is_running(true, false));
}

#[test]
fn addresses_of_a_session() {
    let mut config = TetherConfig::default();
    assert!(needs_dhcp(&config));
    assert_eq!(choose_addresses(&config, Some(lease())), lease());
    let d = choose_addresses(&config, None);
    assert_eq!((d.ip, d.gateway), (ip(192, 168, 42, 100), ip(192, 168, 42, 129)));
    assert_eq!((d.netmask, d.dns1, d.dns2), (ip(255, 255, 255, 0), ip(8, 8, 8, 8), ip(8, 8, 4, 4)));
    config.static_ip = Some(ip(10, 9, 8, 7));
    config.netmask = ip(255, 0, 0, 0);
    assert!(!needs_dhcp(&config));
    let s = choose_addresses(&config, Some(lease()));
    assert_eq!((s.ip, s.gateway), (ip(10, 9, 8, 7), ip(192, 168, 42, 129)));
    assert_eq!((s.netmask, s.dns1, s.dns2), (ip(255, 0, 0, 0), ip(8, 8, 8, 8), ip(8, 8, 4, 4)));
    config.gateway = Some(ip(10, 9, 8, 1));
    assert_eq!(choose_addresses(&config, None).gateway, ip(10, 9, 8, 1));
}

#[test]
fn session_with_a_lease() {
    let mut s = Session::start(&TetherConfig::default());
    assert_eq!(s.advance(SessionEvent::Succeeded), SessionTask::InitDevice);
    assert_eq!(s.advance(SessionEvent::Succeeded), SessionTask::Lease);
    assert_eq!(s.advance(SessionEvent::Leased(lease())), SessionTask::CreateInterface);
    assert_eq!(s.addresses, Some(lease()));
    assert_eq!(s.advance(SessionEvent::Succeeded), SessionTask::ConfigureInterface);
    assert_eq!(s.advance(SessionEvent::Succeeded), SessionTask::PassPackets);
    assert_eq!(s.advance(SessionEvent::Ended { device_gone: true }), SessionTask::Return(true));
}

#[test]
fn session_without_a_lease() {
    let mut s = Session::start(&TetherConfig::default());
    s.advance(SessionEvent::Succeeded);
    s.advance(SessionEvent::Succeeded);
    assert_eq!(s.advance(SessionEvent::Failed), SessionTask::CreateInterface);
    assert_eq!(s.addresses.unwrap().ip, ip(192, 168, 42, 100));
}

#[test]
fn session_with_a_static_address() {
    let mut config = TetherConfig::default();
    config.static_ip = Some(ip(10, 9, 8, 7));
    let mut s = Session::start(&config);
    s.advance(SessionEvent::Succeeded);
    assert_eq!(s.advance(SessionEvent::Succeeded), SessionTask::CreateInterface);
    assert_eq!(s.addresses.unwrap().ip, ip(10, 9, 8, 7));
}

#[test]
fn sessions_that_fail() {
    for good in [0usize, 1, 3, 4] {
        let mut s = Session::start(&TetherConfig::default());
        for _ in 0..good {
            s.advance(SessionEvent::Succeeded);
        }
        assert_eq!(s.advance(SessionEvent::Failed), SessionTask::Return(false), "{}", good);
    }
}

#[test]
fn dns_script_text() {
    assert_eq!(
        set_dns(ip(9, 9, 9, 9), ip(1, 1, 1, 1)),
        "d.init\nd.add ServerAddresses * 9.9.9.9 1.1.1.1\nset State:/Network/Global/DNS\nquit\n"
    );
}

#[test]
fn network_is_set_up() {
    let mut config = TetherConfig::default();
    let steps = texts(setup_steps(&config, &lease(), "utun5"));
    assert_eq!(steps.len(), 5);
    assert_eq!(
        steps[0],
        (
            true,
            "d.init\nd.add ServerAddresses * 9.9.9.9 1.1.1.1\nset State:/Network/Global/DNS\nquit\n"
                .to_string()
        )
    );
    assert_eq!(
        steps[1],
        (
            false,
            "dscacheutil -flushcache 2>/dev/null; killall -HUP mDNSResponder 2>/dev/null".to_string()
        )
    );
    assert_eq!(
        steps[2].1,
        "d.init\nd.add Addresses * 10.0.0.7\nd.add SubnetMasks * 255.255.0.0\n\
         d.add Router 10.0.0.1\nd.add InterfaceName utun5\n\
         set State:/Network/Service/android-tether/IPv4\nquit\n"
    );
    assert_eq!(
        steps[3].1,
        "d.init\nd.add DeviceName utun5\nd.add Type utun\n\
         set State:/Network/Service/android-tether/Interface\nquit\n"
    );
    assert_eq!(
        steps[4].1,
        "d.init\nd.add ServerAddresses * 9.9.9.9 1.1.1.1\n\
         d.add SupplementalMatchDomains * \"\"\nd.add SearchOrder # 1\n\
         set State:/Network/Service/android-tether/DNS\nquit\n"
    );
    config.dns_mode = DnsMode::DoH;
    let steps = texts(setup_steps(&config, &lease(), "utun5"));
    assert!(steps[0].1.contains("* 9.9.9.9 9.9.9.9\n"));
    config.no_dns = true;
    assert_eq!(setup_steps(&config, &lease(), "utun5").len(), 2);
    config.no_route = true;
    assert!(setup_steps(&config, &lease(), "utun5").is_empty());
}

#[test]
fn routes_are_set() {
    let mut config = TetherConfig::default();
    let tun = Utun::create(3, 5);
    let steps = texts(route_steps(&config, &tun, ip(10, 0, 0, 1)));
    let expected = [
        "route delete 10.0.0.1 2>/dev/null",
        "route delete -net 0.0.0.0/1 2>/dev/null",
        "route add -net 0.0.0.0/1 10.0.0.1",
        "route delete -net 128.0.0.0/1 2>/dev/null",
        "route add -net 128.0.0.0/1 10.0.0.1",
    ];
    assert_eq!(steps.len(), 5);
    for (step, text) in steps.iter().zip(expected) {
        assert_eq!((step.0, step.1.as_str()), (false, text));
    }
    config.no_route = true;
    assert!(route_steps(&config, &tun, ip(10, 0, 0, 1)).is_empty());
}

#[test]
fn network_is_restored() {
    let mut config = TetherConfig::default();
    let steps = texts(teardown_steps(&config));
    assert_eq!(steps.len(), 4);
    assert_eq!(steps[0].1, "route delete -net 0.0.0.0/1 2>/dev/null");
    assert_eq!(steps[1].1, "route delete -net 128.0.0.0/1 2>/dev/null");
    assert_eq!(
        steps[2].1,
        "remove State:/Network/Service/android-tether/IPv4\n\
         remove State:/Network/Service/android-tether/DNS\n\
         remove State:/Network/Service/android-tether/Interface\nquit\n"
    );
    assert_eq!(steps[3].1, "remove State:/Network/Global/DNS\nquit\n");
    config.no_route = true;
    config.no_dns = true;
    assert_eq!(texts(teardown_steps(&config)).len(), 1);
}

#[test]
fn interface_commands() {
    let tun = Utun::create(7, 12);
    assert_eq!((tun.fd, tun.unit, tun.ifname.as_str()), (7, 12, "utun12"));
    let (addresses, mtu) = tun.configure("10.0.0.2", "10.0.0.1", "255.255.255.0");
    assert_eq!(addresses, "ifconfig utun12 inet 10.0.0.2 10.0.0.1 netmask 255.255.255.0 up");
    assert_eq!(mtu, "ifconfig utun12 mtu 1500");
    assert_eq!(Utun::register_service("u", "i", "g", "m", "", "d2").len(), 2);
    let scripts = Utun::register_service("u", "i", "g", "m", "d1", "");
    assert!(scripts[2].starts_with("d.init\nd.add ServerAddresses * d1\n"));
}

#[test]
fn interface_units() {
    assert_eq!(Utun::next_unit(0).unwrap(), 0);
    assert_eq!(Utun::next_unit(255).unwrap(), 255);
    assert_eq!(Utun::kernel_unit(255), 256);
    match Utun::next_unit(256) {
        Err(TetherError::Network(s)) => assert_eq!(s, "no available utun unit"),
        other => panic!("{:?}", other),
    }
    let field = Utun::control_name();
    assert_eq!(&field[..26], b"com.apple.net.utun_control");
    assert_eq!(&field[26..], &[0u8; 70][..]);
}

#[test]
fn interface_results() {
    assert_eq!(Utun::read(12, false, "").unwrap(), 12);
    assert_eq!(Utun::read(-1, true, "again").unwrap(), 0);
    match Utun::read(-1, false, "broken") {
        Err(TetherError::Network(s)) => assert_eq!(s, "utun read: broken"),
        other => panic!("{:?}", other),
    }
    assert_eq!(Utun::write(-1, true, "again").unwrap(), 0);
    match Utun::write(-1, false, "broken") {
        Err(TetherError::Network(s)) => assert_eq!(s, "utun write: broken"),
        other => panic!("{:?}", other),
    }
}

fn dns_packet() -> Vec<u8> {
    let mut pkt = vec![0, 0, 0, 2, 0x45, 0, 0, 0, 0, 0, 0, 0, 64, 17, 0, 0, 10, 0, 0, 7, 8, 8, 8, 8];
    pkt.extend_from_slice(&[0xC0, 1, 0, 53, 0, 0, 0, 0]);
    pkt.extend_from_slice(&[9; 20]);
    pkt
}

fn route(mode: DnsMode, pkt: &[u8]) -> TxAction {
    let drv = RndisDriver::new();
    route_packet(&drv, mode, pkt, ip(10, 0, 0, 7), ip(10, 0, 0, 1), &OURS, &GATEWAY)
}

#[test]
fn queries_do_not_leak() {
    for mode in [DnsMode::DoH, DnsMode::DoT] {
        match route(mode, &dns_packet()) {
            TxAction::Resolve { packet, query } => {
                assert_eq!(packet, dns_packet());
                assert_eq!(query, vec![9; 20]);
            }
            other => panic!("{:?}", other),
        }
    }
    assert!(matches!(route(DnsMode::System, &dns_packet()), TxAction::Send(_)));
}

#[test]
fn packets_go_to_the_device() {
    let mut pkt = dns_packet();
    pkt[27] = 80;
    let mut frame = GATEWAY.to_vec();
    frame.extend_from_slice(&OURS);
    frame.extend_from_slice(&[8, 0]);
    frame.extend_from_slice(&pkt[4..]);
    for mode in [DnsMode::System, DnsMode::DoH] {
        match route(mode, &pkt) {
            TxAction::Send(bytes) => assert_eq!(bytes, packet_of(&frame)),
            other => panic!("{:?}", other),
        }
    }
    assert!(matches!(route(DnsMode::System, &[0, 0, 0, 2]), TxAction::Drop));
    let mut large = vec![0u8; 2039];
    large[3] = 2;
    assert!(matches!(route(DnsMode::System, &large), TxAction::Drop));
    assert!(matches!(route(DnsMode::System, &large[..2038]), TxAction::Send(_)));
}

#[test]
fn packet_passes_through() {
    let bytes = match route(DnsMode::System, &dns_packet()) {
        TxAction::Send(bytes) => bytes,
        other => panic!("{:?}", other),
    };
    let drv = RndisDriver::new();
    let mut gateway = [0xFF; 6];
    let mut stats = SharedStats::default();
    let out = process_rx(&drv, &bytes, &GATEWAY, ip(10, 0, 0, 1), &mut gateway, &mut stats);
    assert_eq!(out.utun_packets, vec![dns_packet()]);
    assert!(out.usb_packets.is_empty());
    assert_eq!(gateway, OURS);
    assert_eq!((stats.rx_pkts, stats.rx_bytes), (1, 14 + 48));
}

fn arp_request(target: [u8; 4]) -> Vec<u8> {
    let mut frame = vec![0xFF; 6];
    frame.extend_from_slice(&GATEWAY);
    frame.extend_from_slice(&[0x08, 0x06, 0, 1, 8, 0, 6, 4, 0, 1]);
    frame.extend_from_slice(&GATEWAY);
    frame.extend_from_slice(&[10, 0, 0, 1, 0, 0, 0, 0, 0, 0]);
    frame.extend_from_slice(&target);
    frame
}

#[test]
fn data_from_the_device() {
    let drv = RndisDriver::new();
    let mut ipv4 = vec![0u8; 14];
    ipv4[6] = 0xFF;
    ipv4[12] = 8;
    ipv4.extend_from_slice(&[0x45, 1, 2]);
    let mut data = packet_of(&arp_request([10, 0, 0, 7]));
    data.extend(packet_of(&arp_request([10, 0, 0, 8])));
    data.extend(packet_of(&ipv4));
    data.extend(packet_of(&[1, 2, 3]));
    let mut other = ipv4.clone();
    other[12] = 0x88;
    data.extend(packet_of(&other));
    let mut gateway = [0xFF; 6];
    let mut stats = SharedStats::default();
    let out = process_rx(&drv, &data, &OURS, ip(10, 0, 0, 7), &mut gateway, &mut stats);
    assert_eq!(out.utun_packets, vec![vec![0, 0, 0, 2, 0x45, 1, 2]]);
    assert_eq!(out.usb_packets.len(), 1);
    let reply = drv.unwrap_data(&out.usb_packets[0]);
    assert_eq!(&reply[0][0..6], &GATEWAY);
    assert_eq!(&reply[0][28..32], &[10, 0, 0, 7]);
    assert_eq!(gateway, GATEWAY);
    assert_eq!((stats.rx_pkts, stats.rx_bytes), (1, 17));
}

#[test]
fn large_frames_from_the_device_are_dropped() {
    let drv = RndisDriver::new();
    let mut frame = vec![0u8; 14 + 2049];
    frame[12] = 8;
    let mut gateway = [1u8; 6];
    let mut stats = SharedStats::default();
    let out =
        process_rx(&drv, &packet_of(&frame), &OURS, ip(1, 1, 1, 1), &mut gateway, &mut stats);
    assert!(out.utun_packets.is_empty());
    assert_eq!(gateway, [1; 6]);
    assert_eq!(stats.rx_pkts, 0);
    frame.pop();
    let out =
        process_rx(&drv, &packet_of(&frame), &OURS, ip(1, 1, 1, 1), &mut gateway, &mut stats);
    assert_eq!(out.utun_packets[0].len(), 2052);
}

#[test]
fn device_is_gone_when_all_transfers_are_lost() {
    let mut window = RxWindow::new();
    for _ in 0..15 {
        window.completed(false);
        window.completed(true);
        assert!(!window.device_gone());
    }
    window.completed(false);
    assert!(window.device_gone());
    window.completed(false);
    assert_eq!(window.active, 0);
    assert!(can_submit(31));
    assert!(!can_submit(32));
}

#[test]
fn clock_of_a_session() {
    let mut clock = SessionClock::new(100);
    let due = clock.tick(100 + REPORT_INTERVAL - 1);
    assert!(!due.keepalive && !due.report);
    let now = 100 + REPORT_INTERVAL;
    let due = clock.tick(now);
    assert!(due.keepalive && due.report);
    assert_eq!((clock.last_keepalive, clock.last_stats), (now, now));
    let due = clock.tick(now + 1);
    assert!(!due.keepalive && !due.report);
    clock.last_stats = 0;
    let due = clock.tick(now + 1);
    assert!(!due.keepalive && due.report);
    assert!(!clock.tick(0).report);
}

#[test]
fn commands_in_and_between_sessions() {
    assert!(ends_session(IpcCommand::Stop));
    assert!(ends_session(IpcCommand::Disable));
    assert!(!ends_session(IpcCommand::Enable));
    assert!(!ends_session(IpcCommand::Status));
    assert!(!ends_session(IpcCommand::Nothing));
    assert_eq!(before_session(IpcCommand::Disable), WatchStep::StayIdle);
    assert_eq!(before_session(IpcCommand::Enable), WatchStep::Announce);
    assert_eq!(before_session(IpcCommand::Status), WatchStep::Announce);
    assert_eq!(before_session(IpcCommand::Stop), WatchStep::Connect);
    assert_eq!(before_session(IpcCommand::Nothing), WatchStep::Connect);
    assert_eq!(after_session(true, true), AfterSession::AwaitDevice);
    assert_eq!(after_session(false, true), AfterSession::Pause);
    assert_eq!(after_session(true, false), AfterSession::Leave);
    assert_eq!(LinkState::Idle.word(), "idle");
    assert_eq!(LinkState::Watching.word(), "watching");
    assert_eq!(LinkState::Connected.word(), "connected");
    assert_eq!(LinkState::Disconnected.word(), "disconnected");
}

#[test]
fn connections_to_a_provider() {
    assert_eq!(wanted_connections(0), 0);
    assert_eq!(wanted_connections(3), 3);
    assert_eq!(wanted_connections(9), 4);
    assert_eq!(worker_count(0), 1);
    assert_eq!(worker_count(4), 4);
    assert_eq!(next_query(2, 3, true), Some(2));
    assert_eq!(next_query(3, 3, true), None);
    assert_eq!(next_query(0, 3, false), None);
}

#[test]
fn connection_is_replaced_once() {
    assert!(matches!(
        after_dot(DotStage::Asked, DotOutcome::Response(vec![1])),
        DotNext::Done(v) if v == vec![1]
    ));
    assert!(matches!(after_dot(DotStage::Asked, DotOutcome::Failed), DotNext::Reconnect));
    assert!(matches!(
        after_dot(DotStage::Reconnecting, DotOutcome::Connected),
        DotNext::AskAgain
    ));
    assert!(matches!(after_dot(DotStage::Reconnecting, DotOutcome::Failed), DotNext::GiveUp));
    assert!(matches!(after_dot(DotStage::AskedAgain, DotOutcome::Failed), DotNext::GiveUp));
    assert!(matches!(
        after_dot(DotStage::AskedAgain, DotOutcome::Response(vec![2])),
        DotNext::Done(v) if v == vec![2]
    ));
}

fn alt(number: u8, setting: u8, id: (u8, u8, u8), eps: &[(u8, TransferKind)]) -> AltSetting {
    AltSetting {
        interface_number: number,
        alternate_setting: setting,
        class: id.0,
        subclass: id.1,
        protocol: id.2,
        endpoints: eps.iter().map(|e| EndpointInfo { address: e.0, kind: e.1 }).collect(),
    }
}

const RNDIS: (u8, u8, u8) = (0xE0, 1, 3);
const DATA: (u8, u8, u8) = (0x0A, 0, 0);

#[test]
fn interfaces_for_tethering() {
    for id in [
        (0xE0, 0x01, 0x03),
        (0x02, 0x02, 0x03),
        (0x02, 0xFF, 0x03),
        (0xFF, 0x01, 0x03),
        (0x02, 0x0D, 0x00),
        (0x02, 0x06, 0x00),
    ] {
        assert!(UsbDevice::is_rndis_interface(id.0, id.1, id.2));
    }
    assert!(!UsbDevice::is_rndis_interface(0xE0, 0x01, 0x01));
    assert!(!UsbDevice::is_rndis_interface(0x08, 0x06, 0x50));
    assert!(UsbDevice::is_data_interface(0x0A, 9, 9));
    assert!(!UsbDevice::is_data_interface(0x02, 0, 0));
}

#[test]
fn interfaces_are_chosen() {
    let storage = alt(0, 0, (8, 6, 80), &[]);
    assert_eq!(UsbDevice::examine(&vec![storage]), ProbeAction::Skip);
    let list = vec![alt(0, 0, DATA, &[]), alt(1, 0, RNDIS, &[]), alt(4, 0, DATA, &[])];
    assert_eq!(UsbDevice::examine(&list), ProbeAction::Claim { comm: 1, data: 4 });
    let early = vec![alt(0, 0, DATA, &[]), alt(1, 0, RNDIS, &[])];
    assert_eq!(UsbDevice::examine(&early), ProbeAction::Claim { comm: 1, data: 2 });
    let two = vec![alt(1, 0, RNDIS, &[]), alt(2, 0, DATA, &[]), alt(5, 0, RNDIS, &[])];
    assert_eq!(UsbDevice::examine(&two), ProbeAction::Claim { comm: 5, data: 2 });
    let full = vec![alt(255, 0, RNDIS, &[])];
    assert!(UsbDevice::has_no_room(&full));
    assert!(!UsbDevice::has_no_room(&two));
}

#[test]
fn endpoints_are_chosen() {
    let list = vec![
        alt(0, 0, RNDIS, &[(0x83, Interrupt)]),
        alt(1, 0, DATA, &[(0x81, Bulk), (0x02, Bulk), (0x84, Interrupt), (0x85, Isochronous)]),
        alt(2, 0, (8, 6, 80), &[(0x86, Bulk), (0x07, Bulk)]),
    ];
    assert_eq!(
        UsbDevice::choose_endpoints(&list, 0, 1),
        ProbeAction::Accept(UsbDevice {
            ep_in_addr: 0x81,
            ep_out_addr: 0x02,
            ep_int_addr: 0x83,
            comm_iface: 0,
            data_iface: 1,
        })
    );
}

#[test]
fn alternate_setting_is_tried() {
    let list = vec![alt(0, 0, RNDIS, &[(0x83, Interrupt)]), alt(1, 0, DATA, &[(0x81, Bulk)])];
    let found = Endpoints { ep_in: 0x81, ep_out: 0, ep_int: 0x83 };
    assert_eq!(UsbDevice::choose_endpoints(&list, 0, 1), ProbeAction::Switch(found));
    assert_eq!(UsbDevice::with_alternate(found, None, 0, 1), ProbeAction::Skip);
    let switched = vec![
        alt(1, 0, DATA, &[(0x08, Bulk)]),
        alt(1, 1, DATA, &[(0x89, Bulk), (0x0A, Bulk)]),
        alt(0, 1, RNDIS, &[(0x8B, Bulk)]),
    ];
    assert_eq!(
        UsbDevice::with_alternate(found, Some(switched), 0, 1),
        ProbeAction::Accept(UsbDevice {
            ep_in_addr: 0x89,
            ep_out_addr: 0x0A,
            ep_int_addr: 0x83,
            comm_iface: 0,
            data_iface: 1,
        })
    );
    let useless = vec![alt(1, 1, DATA, &[(0x89, Bulk)])];
    assert_eq!(UsbDevice::with_alternate(found, Some(useless), 0, 1), ProbeAction::Skip);
}

#[test]
fn no_device_is_told() {
    assert_eq!(
        UsbDevice::not_found().message(),
        "Device not found: no Android RNDIS device found — ensure USB tethering is enabled"
    );
}

#[test]
fn sizes_of_transfers() {
    assert_eq!(UsbDevice::transfer_size(32768, 512), 32768);
    assert_eq!(UsbDevice::transfer_size(32769, 512), 33280);
    assert_eq!(UsbDevice::transfer_size(1, 64), 64);
    assert_eq!(UsbDevice::transfer_size(0, 64), 0);
    let mut buf = [0u8; 4];
    assert_eq!(UsbDevice::take_reply(&[1, 2, 3, 4, 5], &mut buf), 4);
    assert_eq!(buf, [1, 2, 3, 4]);
    let mut buf = [9u8; 4];
    assert_eq!(UsbDevice::take_reply(&[1], &mut buf), 1);
    assert_eq!(buf, [1, 9, 9, 9]);
}

fn whole_frame(sender: [u8; 6]) -> Vec<u8> {
    let mut frame = vec![0u8; 14];
    frame[6..12].copy_from_slice(&sender);
    frame
}

fn hear(gateway: &mut [u8; 6], frame: &[u8]) {
    let drv = RndisDriver::new();
    let mut stats = SharedStats::default();
    process_rx(&drv, &packet_of(frame), &OURS, ip(1, 1, 1, 1), gateway, &mut stats);
}

#[test]
fn gateway_is_the_first_sender() {
    let first = [0xFF, 1, 2, 3, 4, 5];
    let mut gateway = [0xFF; 6];
    hear(&mut gateway, &whole_frame([0xFF; 6]));
    assert_eq!(gateway, [0xFF; 6]);
    hear(&mut gateway, &whole_frame(GATEWAY)[..13]);
    assert_eq!(gateway, [0xFF; 6]);
    hear(&mut gateway, &whole_frame(first));
    assert_eq!(gateway, first);
    hear(&mut gateway, &whole_frame(GATEWAY));
    assert_eq!(gateway, first);
}

#[test]
fn gateway_is_learned_within_one_transfer() {
    let drv = RndisDriver::new();
    let mut data = packet_of(&whole_frame([0xFF; 6]));
    data.extend(packet_of(&whole_frame(GATEWAY)));
    data.extend(packet_of(&whole_frame(OURS)));
    let mut gateway = [0xFF; 6];
    let mut stats = SharedStats::default();
    process_rx(&drv, &data, &OURS, ip(1, 1, 1, 1), &mut gateway, &mut stats);
    assert_eq!(gateway, GATEWAY);
}

#[test]
fn completions_of_transfers() {
    assert_eq!(on_completion(false, 0), RxStep::Lost);
    assert_eq!(on_completion(false, 60), RxStep::Lost);
    assert_eq!(on_completion(true, 0), RxStep::Restart);
    assert_eq!(on_completion(true, 1), RxStep::ProcessThenRestart);
}

#[test]
fn first_frames_go_to_everyone() {
    let mut drv = RndisDriver::new();
    drv.state.mac_addr = OURS;
    let addresses = first_addresses(&drv);
    assert_eq!(addresses.host, OURS);
    assert_eq!(addresses.gateway, [0xFF; 6]);

    let mut pkt = vec![0u8; 24];
    pkt[3] = 2;
    pkt[4] = 0x45;
    let action = route_packet(
        &drv,
        DnsMode::System,
        &pkt,
        ip(10, 0, 0, 7),
        ip(10, 0, 0, 1),
        &addresses.host,
        &addresses.gateway,
    );
    let bytes = match action {
        TxAction::Send(bytes) => bytes,
        other => panic!("{:?}", other),
    };
    let mut frames = drv.unwrap_data(&bytes);
    frames.extend(drv.unwrap_data(&send_gratuitous(&addresses.host, ip(10, 0, 0, 7))));
    frames.push(build_presence(&addresses.host, ip(10, 0, 0, 7)));
    assert_eq!(frames.len(), 3);
    for frame in frames {
        assert_eq!(frame[..6], [0xFF; 6]);
        assert_eq!(frame[6..12], OURS);
    }
}

#[test]
fn tasks_of_an_active_session() {
    let config = TetherConfig::default();
    let tun = Utun { fd: 3, unit: 7, ifname: "utun7".to_string() };
    let mut tasks = active_tasks(&config, &lease(), &OURS, &tun).into_iter();
    match tasks.next() {
        Some(ActiveTask::Take(steps)) => {
            assert_eq!(texts(steps), texts(setup_steps(&config, &lease(), "utun7")))
        }
        other => panic!("{:?}", other),
    }
    assert!(matches!(tasks.next(), Some(ActiveTask::Pause(500))));
    match tasks.next() {
        Some(ActiveTask::Take(steps)) => {
            assert_eq!(texts(steps), texts(route_steps(&config, &tun, ip(10, 0, 0, 1))))
        }
        other => panic!("{:?}", other),
    }
    match tasks.next() {
        Some(ActiveTask::Send(bytes)) => {
            assert_eq!(bytes, send_gratuitous(&OURS, ip(10, 0, 0, 7)))
        }
        other => panic!("{:?}", other),
    }
    match tasks.next() {
        Some(ActiveTask::ReportConnected { ip, ifname }) => {
            assert_eq!(ip, "10.0.0.7");
            assert_eq!(ifname, "utun7");
        }
        other => panic!("{:?}", other),
    }
    assert!(matches!(tasks.next(), Some(ActiveTask::PassPackets)));
    match tasks.next() {
        Some(ActiveTask::Take(steps)) => {
            assert_eq!(texts(steps), texts(teardown_steps(&config)))
        }
        other => panic!("{:?}", other),
    }
    assert!(matches!(tasks.next(), Some(ActiveTask::ReportDisconnected)));
    assert!(tasks.next().is_none());
}

#[test]
fn routes_are_left_alone() {
    let mut config = TetherConfig::default();
    config.no_route = true;
    let tun = Utun { fd: 3, unit: 7, ifname: "utun7".to_string() };
    assert!(route_steps(&config, &tun, ip(10, 0, 0, 1)).is_empty());
    for (scutil, _) in texts(teardown_steps(&config)) {
        assert!(scutil);
    }
}

#[test]
fn connections_come_back() {
    let mut pool = vec![1u8];
    keep_connections(&mut pool, vec![2, 3]);
    assert_eq!(pool, [1, 2, 3]);
    keep_connections(&mut pool, vec![4, 5, 6]);
    assert_eq!(pool, [1, 2, 3, 4]);
    keep_connections(&mut pool, vec![]);
    assert_eq!(pool, [1, 2, 3, 4]);
}

#[test]
fn smallest_unit_that_connects_is_taken() {
    assert_eq!(Utun::find_unit(|_| true).unwrap(), 0);
    assert_eq!(Utun::find_unit(|number| number >= 4).unwrap(), 3);
    assert_eq!(Utun::find_unit(|number| number == 7 || number == 9).unwrap(), 6);
    assert_eq!(Utun::find_unit(|number| number == 256).unwrap(), 255);
    match Utun::find_unit(|number| number == 0 || number > 256) {
        Err(TetherError::Network(s)) => assert_eq!(s, "no available utun unit"),
        other => panic!("{:?}", other),
    }
}

#[test]
fn waits_of_watch_mode() {
    assert_eq!(AfterSession::AwaitDevice.waits(), (6, 500));
    assert_eq!(AfterSession::Pause.waits(), (1, 1000));
    assert_eq!(AfterSession::Leave.waits(), (0, 0));
    assert_eq!((IDLE_MS, LINGER_MS, POLL_MS, TICK_MS), (500, 250, 100, 100));
}
