//! A tethering session: its addresses, what is done to the network before and
//! after it, where packets go, and when it ends.

use crate::arp::{
    everyone, gratuitous_frame, lemma_announcement_bytes, presence_frame, send_gratuitous,
};
use crate::bytes::{be16, be16_at, be32, be32_at, lemma_be16_roundtrip, lemma_read_values};
use crate::config::{DnsMode, TetherConfig};
use crate::dhcp::{
    default_lease, dhcp_frame, discover_frame, discover_options, ones, request_frame,
    request_options,
};
use crate::dns_proxy::{
    answerable, header_len, is_dns_query, is_dns_to_gateway, lemma_every_query_is_caught,
    lemma_only_queries_are_caught, udp_header_from, udp_packet,
};
use crate::frame::{
    eth_frame_of, ethertype_of, ip_to_eth, lemma_packet_returns, lemma_packets_become_frames,
    utun_packet_of, AF_INET, AF_INET6,
};
use crate::ipc::IpcCommand;
use crate::net_types::{
    dns1_default, dns2_default, gateway_default, lemma_text_not_empty, DhcpLease, Ipv4Addr,
    ARP_ETHERTYPE, ETH_BUF_SIZE, ETH_HDR_SIZE, RNDIS_BUF_SIZE,
};
use crate::proto_driver::ProtocolDriver;
use crate::proto_rndis::RndisDriver;
use crate::rndis::{carried_frames, data_packet, lemma_packet_roundtrip};
use crate::usb_io::{
    after_frames, ip_family, ip_kind, learned_gateway, lemma_gateway_stays, names_sender, RxView,
    UTUN_BUF_SIZE,
};
use crate::utun::{
    register_scripts, route_commands, service_address_script, text_views, unregister_script, Utun,
};
use vstd::prelude::*;
use vstd::slice::slice_to_vec;

verus! {

/// How many packets of the virtual interface are taken at once.
pub const TX_BATCH: usize = 64;

/// How many packets wait for the device at most.
pub const TX_QUEUE: usize = 4096;

/// How often the device is shown that we are there, and how often the counters
/// are reported, in nanoseconds.
pub const REPORT_INTERVAL: u64 = 5_000_000_000;

/// How many connections to a provider are kept at most.
pub const MAX_POOL: usize = 4;

/// How long the virtual interface is asked for packets at once, in
/// milliseconds.
pub const POLL_MS: u64 = 100;

/// How long a session waits between two looks at its clock, in milliseconds.
pub const TICK_MS: u64 = 100;

/// How long watch mode waits before it looks for commands again, in
/// milliseconds.
pub const IDLE_MS: u64 = 500;

/// How often watch mode waits for a device that went away.
pub const RECONNECT_WAITS: u32 = 6;

/// How long each of these waits is, in milliseconds.
pub const RECONNECT_MS: u64 = 500;

/// How long watch mode waits after a session that ended otherwise, in
/// milliseconds.
pub const RETRY_MS: u64 = 1000;

/// How long a process without watch mode waits before it looks again whether it
/// is to end, in milliseconds.
pub const LINGER_MS: u64 = 250;

/// What the process is to do.
#[derive(Debug, Clone, Copy, PartialEq, Eq, Structural)]
pub enum Startup {
    Install,
    Uninstall,
    Tether,
    /// Nothing: installing needs more rights.
    RefuseInstall,
    /// Nothing: uninstalling needs more rights.
    RefuseUninstall,
    /// Nothing: tethering needs more rights.
    RefuseTether,
}

/// What the process is to do. Installing comes before uninstalling, and all of
/// it needs the rights of the superuser.
pub fn startup(config: &TetherConfig, is_root: bool) -> (r: Startup)
    ensures
        r == (if config.install {
            if is_root {
                Startup::Install
            } else {
                Startup::RefuseInstall
            }
        } else if config.uninstall {
            if is_root {
                Startup::Uninstall
            } else {
                Startup::RefuseUninstall
            }
        } else if is_root {
            Startup::Tether
        } else {
            Startup::RefuseTether
        }),
{
    if config.install {
        if is_root {
            Startup::Install
        } else {
            Startup::RefuseInstall
        }
    } else if config.uninstall {
        if is_root {
            Startup::Uninstall
        } else {
            Startup::RefuseUninstall
        }
    } else if is_root {
        Startup::Tether
    } else {
        Startup::RefuseTether
    }
}

/// Whether to go on: neither this run nor the process has been told to stop.
pub fn is_running(running: bool, global_running: bool) -> (r: bool)
    ensures
        r == (running && global_running),
{
    running && global_running
}

/// Whether the address has to be asked for.
pub fn needs_dhcp(config: &TetherConfig) -> (r: bool)
    ensures
        r == (config.static_ip is None),
{
    config.static_ip.is_none()
}

/// The addresses of a session: the configured ones, or else those that were
/// leased, or else the defaults.
pub open spec fn chosen_addresses(config: TetherConfig, lease: Option<DhcpLease>) -> DhcpLease {
    match config.static_ip {
        Some(ip) => DhcpLease {
            ip,
            gateway: match config.gateway {
                Some(gw) => gw,
                None => gateway_default(),
            },
            netmask: config.netmask,
            dns1: dns1_default(),
            dns2: dns2_default(),
        },
        None => match lease {
            Some(l) => l,
            None => default_lease(),
        },
    }
}

/// The addresses of a session. `lease` is what asking for addresses has led to.
pub fn choose_addresses(config: &TetherConfig, lease: Option<DhcpLease>) -> (r: DhcpLease)
    ensures
        r == chosen_addresses(*config, lease),
{
    match config.static_ip {
        Some(ip) => DhcpLease {
            ip,
            gateway: match config.gateway {
                Some(gw) => gw,
                None => Ipv4Addr { bits: 0xC0A8_2A81 },
            },
            netmask: config.netmask,
            dns1: Ipv4Addr { bits: 0x0808_0808 },
            dns2: Ipv4Addr { bits: 0x0808_0404 },
        },
        None => match lease {
            Some(l) => l,
            None => DhcpLease {
                ip: Ipv4Addr { bits: 0xC0A8_2A64 },
                gateway: Ipv4Addr { bits: 0xC0A8_2A81 },
                netmask: Ipv4Addr { bits: 0xFFFF_FF00 },
                dns1: Ipv4Addr { bits: 0x0808_0808 },
                dns2: Ipv4Addr { bits: 0x0808_0404 },
            },
        },
    }
}

/// How far a session has come.
#[derive(Debug, Clone, Copy, PartialEq, Eq, Structural)]
pub enum SessionStage {
    /// A device is being looked for.
    Finding,
    /// The device is being set up.
    Initializing,
    /// Addresses are being asked for.
    Leasing,
    /// The virtual interface is being made.
    Creating,
    /// The virtual interface is being given its addresses.
    Configuring,
    /// Packets go through.
    Active,
    /// It is over.
    Over,
}

/// What has come of the task that a session has set.
#[derive(Debug, Clone, Copy, PartialEq, Eq, Structural)]
pub enum SessionEvent {
    Succeeded,
    /// Addresses have been leased.
    Leased(DhcpLease),
    Failed,
    /// The session was ended, or the device went away.
    Ended { device_gone: bool },
}

/// What a session needs done next.
#[derive(Debug, Clone, Copy, PartialEq, Eq, Structural)]
pub enum SessionTask {
    FindDevice,
    InitDevice,
    Lease,
    CreateInterface,
    ConfigureInterface,
    /// Set up the network, pass packets until the session ends, and restore the
    /// network.
    PassPackets,
    /// Nothing more; whether the device went away.
    Return(bool),
}

/// A session on its way.
#[derive(Debug, Clone, Copy, PartialEq, Eq, Structural)]
pub struct Session {
    pub config: TetherConfig,
    pub stage: SessionStage,
    /// The addresses, once they are known.
    pub addresses: Option<DhcpLease>,
}

/// The session after an event, and what it needs done then.
pub open spec fn advanced(session: Session, event: SessionEvent) -> (Session, SessionTask) {
    let over = Session { stage: SessionStage::Over, ..session };
    match (session.stage, event) {
        (SessionStage::Finding, SessionEvent::Succeeded) => (
            Session { stage: SessionStage::Initializing, ..session },
            SessionTask::InitDevice,
        ),
        (SessionStage::Initializing, SessionEvent::Succeeded) => if session.config.static_ip
            is None {
            (Session { stage: SessionStage::Leasing, ..session }, SessionTask::Lease)
        } else {
            (
                Session {
                    stage: SessionStage::Creating,
                    addresses: Some(chosen_addresses(session.config, None)),
                    ..session
                },
                SessionTask::CreateInterface,
            )
        },
        (SessionStage::Leasing, SessionEvent::Leased(lease)) => (
            Session {
                stage: SessionStage::Creating,
                addresses: Some(chosen_addresses(session.config, Some(lease))),
                ..session
            },
            SessionTask::CreateInterface,
        ),
        (SessionStage::Leasing, _) => (
            Session {
                stage: SessionStage::Creating,
                addresses: Some(chosen_addresses(session.config, None)),
                ..session
            },
            SessionTask::CreateInterface,
        ),
        (SessionStage::Creating, SessionEvent::Succeeded) => (
            Session { stage: SessionStage::Configuring, ..session },
            SessionTask::ConfigureInterface,
        ),
        (SessionStage::Configuring, SessionEvent::Succeeded) => (
            Session { stage: SessionStage::Active, ..session },
            SessionTask::PassPackets,
        ),
        (SessionStage::Active, SessionEvent::Ended { device_gone }) => (
            over,
            SessionTask::Return(device_gone),
        ),
        _ => (over, SessionTask::Return(false)),
    }
}

impl Session {
    /// Starts with looking for a device.
    pub fn start(config: &TetherConfig) -> (r: Session)
        ensures
            r == (Session { config: *config, stage: SessionStage::Finding, addresses: None }),
    {
        Session { config: *config, stage: SessionStage::Finding, addresses: None }
    }

    /// Takes in what has come of the last task. A device that cannot be found
    /// or set up, or an interface that cannot be made or configured, ends the
    /// session; a lease that cannot be had does not.
    pub fn advance(&mut self, event: SessionEvent) -> (r: SessionTask)
        ensures
            (*final(self), r) == advanced(*old(self), event),
    {
        match self.stage {
            SessionStage::Finding => match event {
                SessionEvent::Succeeded => {
                    self.stage = SessionStage::Initializing;
                    return SessionTask::InitDevice;
                },
                _ => {},
            },
            SessionStage::Initializing => match event {
                SessionEvent::Succeeded => {
                    if needs_dhcp(&self.config) {
                        self.stage = SessionStage::Leasing;
                        return SessionTask::Lease;
                    }
                    self.stage = SessionStage::Creating;
                    self.addresses = Some(choose_addresses(&self.config, None));
                    return SessionTask::CreateInterface;
                },
                _ => {},
            },
            SessionStage::Leasing => {
                let lease = match event {
                    SessionEvent::Leased(lease) => Some(lease),
                    _ => None,
                };
                self.stage = SessionStage::Creating;
                self.addresses = Some(choose_addresses(&self.config, lease));
                return SessionTask::CreateInterface;
            },
            SessionStage::Creating => match event {
                SessionEvent::Succeeded => {
                    self.stage = SessionStage::Configuring;
                    return SessionTask::ConfigureInterface;
                },
                _ => {},
            },
            SessionStage::Configuring => match event {
                SessionEvent::Succeeded => {
                    self.stage = SessionStage::Active;
                    return SessionTask::PassPackets;
                },
                _ => {},
            },
            SessionStage::Active => match event {
                SessionEvent::Ended { device_gone } => {
                    self.stage = SessionStage::Over;
                    return SessionTask::Return(device_gone);
                },
                _ => {},
            },
            SessionStage::Over => {},
        }
        self.stage = SessionStage::Over;
        SessionTask::Return(false)
    }
}

/// Whether a session knows its addresses where it needs them.
pub open spec fn session_wf(session: Session) -> bool {
    match session.stage {
        SessionStage::Creating | SessionStage::Configuring | SessionStage::Active => {
            session.addresses is Some
        },
        _ => true,
    }
}

/// Packets go through only in a session that knows its addresses, and the
/// network is touched by none that fails before: a session ends at once, with
/// nothing set up, unless every task before has succeeded. Asking for addresses
/// is the one task that may fail.
pub proof fn lemma_session_order(session: Session, event: SessionEvent)
    requires
        session_wf(session),
    ensures
        session_wf(advanced(session, event).0),
        advanced(session, event).1 == SessionTask::PassPackets ==> {
            &&& session.stage == SessionStage::Configuring
            &&& event == SessionEvent::Succeeded
            &&& advanced(session, event).0.addresses is Some
        },
        event == SessionEvent::Failed && session.stage != SessionStage::Leasing ==> advanced(
            session,
            event,
        ).1 == SessionTask::Return(false),
        event == SessionEvent::Failed && session.stage == SessionStage::Leasing ==> advanced(
            session,
            event,
        ).0.addresses == Some(chosen_addresses(session.config, None)),
        advanced(session, event).0.config == session.config,
{
}

/// One step in setting up or restoring the network.
#[derive(Debug)]
pub enum Step {
    /// Hand this script to `scutil`.
    Scutil(String),
    /// Run this command in a shell.
    Shell(String),
}

/// A [`Step`] with its text as a sequence of characters.
pub enum StepView {
    Scutil(Seq<char>),
    Shell(Seq<char>),
}

impl View for Step {
    type V = StepView;

    open spec fn view(&self) -> StepView {
        match *self {
            Step::Scutil(s) => StepView::Scutil(s@),
            Step::Shell(s) => StepView::Shell(s@),
        }
    }
}

/// A list of steps by their views.
pub open spec fn step_views(steps: Seq<Step>) -> Seq<StepView> {
    steps.map_values(|s: Step| s@)
}

/// Scripts for `scutil`, in a row.
pub open spec fn scripts(texts: Seq<Seq<char>>) -> Seq<StepView> {
    texts.map_values(|t: Seq<char>| StepView::Scutil(t))
}

/// Commands for a shell, in a row.
pub open spec fn commands(texts: Seq<Seq<char>>) -> Seq<StepView> {
    texts.map_values(|t: Seq<char>| StepView::Shell(t))
}

fn push_step(out: &mut Vec<Step>, step: Step)
    ensures
        step_views(final(out)@) == step_views(old(out)@).push(step@),
{
    let ghost before = out@;
    out.push(step);
    assert(step_views(out@) =~= step_views(before).push(step@));
}

fn copy_text(s: &String) -> (r: String)
    ensures
        r@ == s@,
{
    s.as_str().to_owned()
}

fn push_scripts(out: &mut Vec<Step>, texts: &Vec<String>)
    ensures
        step_views(final(out)@) == step_views(old(out)@) + scripts(text_views(texts@)),
{
    let ghost before = step_views(out@);
    let ghost all = scripts(text_views(texts@));
    let mut i: usize = 0;
    assert(before =~= before + all.take(0));
    while i < texts.len()
        invariant
            i <= texts@.len(),
            all == scripts(text_views(texts@)),
            step_views(out@) == before + all.take(i as int),
        decreases texts@.len() - i,
    {
        push_step(out, Step::Scutil(copy_text(&texts[i])));
        assert(all[i as int] == StepView::Scutil(texts@[i as int]@));
        assert(before + all.take(i + 1) =~= (before + all.take(i as int)).push(all[i as int]));
        i = i + 1;
    }
    assert(all.take(texts@.len() as int) =~= all);
}

fn push_commands(out: &mut Vec<Step>, texts: &Vec<String>)
    ensures
        step_views(final(out)@) == step_views(old(out)@) + commands(text_views(texts@)),
{
    let ghost before = step_views(out@);
    let ghost all = commands(text_views(texts@));
    let mut i: usize = 0;
    assert(before =~= before + all.take(0));
    while i < texts.len()
        invariant
            i <= texts@.len(),
            all == commands(text_views(texts@)),
            step_views(out@) == before + all.take(i as int),
        decreases texts@.len() - i,
    {
        push_step(out, Step::Shell(copy_text(&texts[i])));
        assert(all[i as int] == StepView::Shell(texts@[i as int]@));
        assert(before + all.take(i + 1) =~= (before + all.take(i as int)).push(all[i as int]));
        i = i + 1;
    }
    assert(all.take(texts@.len() as int) =~= all);
}

/// The command that makes the system forget what DNS has told it.
pub const FLUSH_COMMAND: &'static str =
    "dscacheutil -flushcache 2>/dev/null; killall -HUP mDNSResponder 2>/dev/null";

/// The script that removes the name servers.
pub const REMOVE_DNS_SCRIPT: &'static str = "remove State:/Network/Global/DNS\nquit\n";

/// The script that sets the name servers.
pub open spec fn dns_script(dns1: Ipv4Addr, dns2: Ipv4Addr) -> Seq<char> {
    "d.init\nd.add ServerAddresses * "@ + dns1.text() + " "@ + dns2.text()
        + "\nset State:/Network/Global/DNS\nquit\n"@
}

/// The script that sets the name servers.
pub fn set_dns(dns1: Ipv4Addr, dns2: Ipv4Addr) -> (r: String)
    ensures
        r@ == dns_script(dns1, dns2),
{
    let mut script = "d.init\nd.add ServerAddresses * ".to_owned();
    dns1.append_text(&mut script);
    script.append(" ");
    dns2.append_text(&mut script);
    script.append("\nset State:/Network/Global/DNS\nquit\n");
    script
}

/// The name servers that the system is told of. Where queries are caught, the
/// first is enough.
pub open spec fn announced_servers(config: TetherConfig, lease: DhcpLease) -> (Ipv4Addr, Ipv4Addr) {
    if config.dns_mode == DnsMode::System {
        (lease.dns1, lease.dns2)
    } else {
        (lease.dns1, lease.dns1)
    }
}

/// The steps that tell the system of name servers and of the service.
pub open spec fn setup_plan(config: TetherConfig, lease: DhcpLease, ifname: Seq<char>) -> Seq<
    StepView,
> {
    let (dns1, dns2) = announced_servers(config, lease);
    if !config.no_dns {
        seq![StepView::Scutil(dns_script(dns1, dns2)), StepView::Shell(FLUSH_COMMAND@)] + scripts(
            register_scripts(
                ifname,
                lease.ip.text(),
                lease.gateway.text(),
                lease.netmask.text(),
                dns1.text(),
                dns2.text(),
            ),
        )
    } else if !config.no_route {
        scripts(
            register_scripts(
                ifname,
                lease.ip.text(),
                lease.gateway.text(),
                lease.netmask.text(),
                ""@,
                ""@,
            ),
        )
    } else {
        Seq::empty()
    }
}

/// The steps that tell the system of name servers and of the service.
pub fn setup_steps(config: &TetherConfig, lease: &DhcpLease, ifname: &str) -> (r: Vec<Step>)
    ensures
        step_views(r@) == setup_plan(*config, *lease, ifname@),
{
    let mut out: Vec<Step> = Vec::new();
    assert(step_views(out@) =~= Seq::empty());
    let ip = lease.ip.to_text();
    let gateway = lease.gateway.to_text();
    let netmask = lease.netmask.to_text();
    if !config.no_dns {
        let dns1 = lease.dns1;
        let dns2 = if config.dns_mode == DnsMode::System {
            lease.dns2
        } else {
            lease.dns1
        };
        push_step(&mut out, Step::Scutil(set_dns(dns1, dns2)));
        push_step(&mut out, Step::Shell(FLUSH_COMMAND.to_owned()));
        let texts = Utun::register_service(
            ifname,
            ip.as_str(),
            gateway.as_str(),
            netmask.as_str(),
            dns1.to_text().as_str(),
            dns2.to_text().as_str(),
        );
        push_scripts(&mut out, &texts);
        assert(step_views(out@) =~= setup_plan(*config, *lease, ifname@));
    } else if !config.no_route {
        let texts = Utun::register_service(
            ifname,
            ip.as_str(),
            gateway.as_str(),
            netmask.as_str(),
            "",
            "",
        );
        push_scripts(&mut out, &texts);
        assert(step_views(out@) =~= setup_plan(*config, *lease, ifname@));
    }
    out
}

/// The steps that lead all traffic to the gateway, unless routes are to be left
/// alone.
pub open spec fn route_plan(config: TetherConfig, gateway: Ipv4Addr) -> Seq<StepView> {
    if config.no_route {
        Seq::empty()
    } else {
        commands(route_commands(gateway.text()))
    }
}

/// The steps that lead all traffic to the gateway, unless routes are to be left
/// alone.
pub fn route_steps(config: &TetherConfig, tun: &Utun, gateway: Ipv4Addr) -> (r: Vec<Step>)
    ensures
        step_views(r@) == route_plan(*config, gateway),
{
    let mut out: Vec<Step> = Vec::new();
    assert(step_views(out@) =~= Seq::empty());
    if !config.no_route {
        let texts = tun.set_default_route(gateway.to_text().as_str());
        push_commands(&mut out, &texts);
        assert(step_views(out@) =~= route_plan(*config, gateway));
    }
    out
}

/// The steps that restore the network.
pub open spec fn teardown_plan(config: TetherConfig) -> Seq<StepView> {
    let routes = if config.no_route {
        Seq::empty()
    } else {
        seq![
            StepView::Shell("route delete -net 0.0.0.0/1 2>/dev/null"@),
            StepView::Shell("route delete -net 128.0.0.0/1 2>/dev/null"@),
        ]
    };
    let service = routes.push(StepView::Scutil(unregister_script()));
    if config.no_dns {
        service
    } else {
        service.push(StepView::Scutil(REMOVE_DNS_SCRIPT@))
    }
}

/// The steps that restore the network.
pub fn teardown_steps(config: &TetherConfig) -> (r: Vec<Step>)
    ensures
        step_views(r@) == teardown_plan(*config),
{
    let mut out: Vec<Step> = Vec::new();
    assert(step_views(out@) =~= Seq::empty());
    if !config.no_route {
        push_step(&mut out, Step::Shell("route delete -net 0.0.0.0/1 2>/dev/null".to_owned()));
        push_step(&mut out, Step::Shell("route delete -net 128.0.0.0/1 2>/dev/null".to_owned()));
    }
    push_step(&mut out, Step::Scutil(Utun::unregister_service()));
    if !config.no_dns {
        push_step(&mut out, Step::Scutil(REMOVE_DNS_SCRIPT.to_owned()));
    }
    assert(step_views(out@) =~= teardown_plan(*config));
    out
}

/// What a session sets, its end removes: the service in any case, the name
/// servers where they were set, and the two routes where they were added. Where
/// the user wants routes left alone, no route is added or deleted.
pub proof fn lemma_teardown_undoes_setup(
    config: TetherConfig,
    lease: DhcpLease,
    ifname: Seq<char>,
)
    ensures
        teardown_plan(config).contains(StepView::Scutil(unregister_script())),
        !config.no_dns ==> {
            let (dns1, dns2) = announced_servers(config, lease);
            &&& setup_plan(config, lease, ifname)[0] == StepView::Scutil(dns_script(dns1, dns2))
            &&& teardown_plan(config).contains(StepView::Scutil(REMOVE_DNS_SCRIPT@))
        },
        !config.no_route ==> {
            &&& route_plan(config, lease.gateway) == commands(
                route_commands(lease.gateway.text()),
            )
            &&& teardown_plan(config).contains(
                StepView::Shell("route delete -net 0.0.0.0/1 2>/dev/null"@),
            )
            &&& teardown_plan(config).contains(
                StepView::Shell("route delete -net 128.0.0.0/1 2>/dev/null"@),
            )
        },
        config.no_route ==> {
            &&& route_plan(config, lease.gateway).len() == 0
            &&& forall|i: int|
                0 <= i < teardown_plan(config).len() ==> #[trigger] teardown_plan(config)[i]
                    is Scutil
        },
{
    let plan = teardown_plan(config);
    let at = if config.no_route {
        0int
    } else {
        2int
    };
    assert(plan[at] == StepView::Scutil(unregister_script()));
    if !config.no_dns {
        assert(plan[at + 1] == StepView::Scutil(REMOVE_DNS_SCRIPT@));
    }
    if !config.no_route {
        assert(plan[0] == StepView::Shell("route delete -net 0.0.0.0/1 2>/dev/null"@));
        assert(plan[1] == StepView::Shell("route delete -net 128.0.0.0/1 2>/dev/null"@));
    }
}

/// How long a session waits before it adds routes, in milliseconds.
pub const SETTLE_MS: u64 = 500;

/// Something that a session does once the virtual interface has its addresses.
#[derive(Debug)]
pub enum ActiveTask {
    /// Take these steps.
    Take(Vec<Step>),
    /// Wait so many milliseconds.
    Pause(u64),
    /// Send these bytes to the device.
    Send(Vec<u8>),
    /// Report that the link is up.
    ReportConnected { ip: String, ifname: String },
    /// Pass packets until the session ends.
    PassPackets,
    /// Report that the link is down.
    ReportDisconnected,
}

/// An [`ActiveTask`] with its texts and bytes as sequences.
pub enum ActiveTaskView {
    Take(Seq<StepView>),
    Pause(u64),
    Send(Seq<u8>),
    ReportConnected { ip: Seq<char>, ifname: Seq<char> },
    PassPackets,
    ReportDisconnected,
}

impl View for ActiveTask {
    type V = ActiveTaskView;

    open spec fn view(&self) -> ActiveTaskView {
        match *self {
            ActiveTask::Take(steps) => ActiveTaskView::Take(step_views(steps@)),
            ActiveTask::Pause(ms) => ActiveTaskView::Pause(ms),
            ActiveTask::Send(bytes) => ActiveTaskView::Send(bytes@),
            ActiveTask::ReportConnected { ip, ifname } => ActiveTaskView::ReportConnected {
                ip: ip@,
                ifname: ifname@,
            },
            ActiveTask::PassPackets => ActiveTaskView::PassPackets,
            ActiveTask::ReportDisconnected => ActiveTaskView::ReportDisconnected,
        }
    }
}

/// A list of tasks by their views.
pub open spec fn task_views(tasks: Seq<ActiveTask>) -> Seq<ActiveTaskView> {
    tasks.map_values(|t: ActiveTask| t@)
}

/// What a session does once the virtual interface has its addresses, in order:
/// it tells the system of the service, waits, leads traffic to the gateway,
/// announces our address, reports that the link is up, passes packets, restores
/// the network, and reports that the link is down.
pub open spec fn active_plan(
    config: TetherConfig,
    lease: DhcpLease,
    mac: Seq<u8>,
    ifname: Seq<char>,
) -> Seq<ActiveTaskView> {
    seq![
        ActiveTaskView::Take(setup_plan(config, lease, ifname)),
        ActiveTaskView::Pause(SETTLE_MS),
        ActiveTaskView::Take(route_plan(config, lease.gateway)),
        ActiveTaskView::Send(data_packet(gratuitous_frame(mac, lease.ip))),
        ActiveTaskView::ReportConnected { ip: lease.ip.text(), ifname },
        ActiveTaskView::PassPackets,
        ActiveTaskView::Take(teardown_plan(config)),
        ActiveTaskView::ReportDisconnected,
    ]
}

/// What a session does once the virtual interface has its addresses, in order.
pub fn active_tasks(config: &TetherConfig, lease: &DhcpLease, mac: &[u8; 6], tun: &Utun) -> (r: Vec<
    ActiveTask,
>)
    ensures
        task_views(r@) == active_plan(*config, *lease, mac@, tun.ifname@),
{
    let mut out: Vec<ActiveTask> = Vec::new();
    out.push(ActiveTask::Take(setup_steps(config, lease, tun.ifname.as_str())));
    out.push(ActiveTask::Pause(SETTLE_MS));
    out.push(ActiveTask::Take(route_steps(config, tun, lease.gateway)));
    out.push(ActiveTask::Send(send_gratuitous(mac, lease.ip)));
    out.push(
        ActiveTask::ReportConnected { ip: lease.ip.to_text(), ifname: copy_text(&tun.ifname) },
    );
    out.push(ActiveTask::PassPackets);
    out.push(ActiveTask::Take(teardown_steps(config)));
    out.push(ActiveTask::ReportDisconnected);
    assert(task_views(out@) =~= active_plan(*config, *lease, mac@, tun.ifname@));
    out
}

/// The hardware addresses that frames to the device carry.
#[derive(Debug, Clone, Copy, PartialEq, Eq)]
pub struct LinkAddresses {
    pub host: [u8; 6],
    pub gateway: [u8; 6],
}

/// The hardware addresses of a session that has heard nothing yet: frames come
/// from the driver's address and go to everyone.
pub fn first_addresses<D: ProtocolDriver>(drv: &D) -> (r: LinkAddresses)
    ensures
        r.host == drv.address(),
        r.gateway@ == everyone(),
{
    let gateway = [0xFFu8, 0xFF, 0xFF, 0xFF, 0xFF, 0xFF];
    assert(gateway@ =~= everyone());
    LinkAddresses { host: drv.mac(), gateway }
}

/// Where a packet of the virtual interface goes.
#[derive(Debug)]
pub enum TxAction {
    /// Nowhere.
    Drop,
    /// To the device, as these bytes.
    Send(Vec<u8>),
    /// To the resolver: the packet, and the query in it.
    Resolve { packet: Vec<u8>, query: Vec<u8> },
}

/// A [`TxAction`] with its bytes as sequences.
pub enum TxActionView {
    Drop,
    Send(Seq<u8>),
    Resolve { packet: Seq<u8>, query: Seq<u8> },
}

impl View for TxAction {
    type V = TxActionView;

    open spec fn view(&self) -> TxActionView {
        match *self {
            TxAction::Drop => TxActionView::Drop,
            TxAction::Send(bytes) => TxActionView::Send(bytes@),
            TxAction::Resolve { packet, query } => TxActionView::Resolve {
                packet: packet@,
                query: query@,
            },
        }
    }
}

/// Where a packet of the virtual interface goes: a DNS query to the resolver,
/// unless the phone is to answer; a packet of IP to the device, unless it is
/// too large; anything else nowhere.
pub open spec fn tx_route<D: ProtocolDriver>(
    drv: D,
    mode: DnsMode,
    pkt: Seq<u8>,
    our_ip: Ipv4Addr,
    our_mac: Seq<u8>,
    gateway_mac: Seq<u8>,
) -> TxActionView {
    if mode != DnsMode::System && is_dns_query(pkt, our_ip.bits) {
        TxActionView::Resolve {
            packet: pkt,
            query: pkt.subrange(12 + header_len(pkt), pkt.len() as int),
        }
    } else {
        match eth_frame_of(pkt, our_mac, gateway_mac) {
            Some(frame) if frame.len() <= ETH_BUF_SIZE && drv.wrapped(frame).len()
                <= RNDIS_BUF_SIZE => TxActionView::Send(drv.wrapped(frame)),
            _ => TxActionView::Drop,
        }
    }
}

/// Where a packet of the virtual interface goes.
pub fn route_packet<D: ProtocolDriver>(
    drv: &D,
    mode: DnsMode,
    pkt: &[u8],
    our_ip: Ipv4Addr,
    gateway_ip: Ipv4Addr,
    our_mac: &[u8; 6],
    gateway_mac: &[u8; 6],
) -> (r: TxAction)
    requires
        forall|n: nat| n <= ETH_BUF_SIZE ==> #[trigger] drv.fits(n),
    ensures
        r@ == tx_route(*drv, mode, pkt@, our_ip, our_mac@, gateway_mac@),
{
    if mode != DnsMode::System {
        if let Some(dns_len) = is_dns_to_gateway(pkt, our_ip.bits, gateway_ip.bits) {
            let n = pkt.len();
            let query = slice_to_vec(&pkt[n - dns_len..n]);
            let packet = slice_to_vec(pkt);
            return TxAction::Resolve { packet, query };
        }
    }
    let mut ebuf: Vec<u8> = vec![0u8; ETH_BUF_SIZE];
    let elen = match ip_to_eth(pkt, ebuf.as_mut_slice(), our_mac, gateway_mac) {
        Ok(n) => n,
        Err(_) => return TxAction::Drop,
    };
    if elen == 0 {
        return TxAction::Drop;
    }
    let frame = &ebuf.as_slice()[0..elen];
    assert(frame@ =~= eth_frame_of(pkt@, our_mac@, gateway_mac@)->0);
    assert(drv.fits(frame@.len()));
    let mut rbuf: Vec<u8> = vec![0u8; RNDIS_BUF_SIZE];
    match drv.wrap_frame(frame, rbuf.as_mut_slice()) {
        Ok(n) => {
            let bytes = slice_to_vec(&rbuf.as_slice()[0..n]);
            assert(bytes@ =~= drv.wrapped(frame@));
            TxAction::Send(bytes)
        },
        Err(_) => TxAction::Drop,
    }
}

/// Whether an Ethernet frame goes from `mac` to everyone.
pub open spec fn sent_to_everyone(frame: Seq<u8>, mac: Seq<u8>) -> bool {
    &&& frame.len() >= ETH_HDR_SIZE
    &&& frame.subrange(0, 6) == everyone()
    &&& frame.subrange(6, 12) == mac
}

proof fn lemma_addresses_in_front(frame: Seq<u8>, dst: Seq<u8>, src: Seq<u8>, rest: Seq<u8>)
    requires
        frame == dst + src + rest,
        dst == everyone(),
        src.len() == 6,
        rest.len() >= 2,
    ensures
        sent_to_everyone(frame, src),
{
    assert(frame.subrange(0, 6) =~= dst);
    assert(frame.subrange(6, 12) =~= src);
}

proof fn lemma_dhcp_addresses(mac: Seq<u8>, xid: u32, options: Seq<u8>)
    requires
        mac.len() == 6,
    ensures
        sent_to_everyone(dhcp_frame(mac, xid, options), mac),
{
    let frame = dhcp_frame(mac, xid, options);
    let rest = frame.subrange(12, frame.len() as int);
    assert(ones(6) =~= everyone());
    assert(frame =~= everyone() + mac + rest);
    lemma_addresses_in_front(frame, everyone(), mac, rest);
}

/// Until a frame that names a sender has been heard, every frame that is sent to
/// the device goes from the driver's address to everyone: those that look for
/// and ask for addresses, those that announce ours or show that we are there,
/// and those that carry packets.
pub proof fn lemma_first_frames<D: ProtocolDriver>(
    drv: D,
    mode: DnsMode,
    pkt: Seq<u8>,
    our_ip: Ipv4Addr,
    rx: RxView,
    heard: Seq<Seq<u8>>,
    xid: u32,
    offered: Ipv4Addr,
    server: Ipv4Addr,
)
    requires
        rx.gateway == everyone(),
        forall|i: int| 0 <= i < heard.len() ==> !names_sender(#[trigger] heard[i]),
    ensures
        ({
            let mac = drv.address()@;
            let gateway = after_frames(rx, heard, mac, our_ip).gateway;
            &&& sent_to_everyone(discover_frame(mac, xid), mac)
            &&& sent_to_everyone(request_frame(mac, xid, offered, server), mac)
            &&& sent_to_everyone(gratuitous_frame(mac, our_ip), mac)
            &&& sent_to_everyone(presence_frame(mac, our_ip), mac)
            &&& tx_route(drv, mode, pkt, our_ip, mac, gateway) matches TxActionView::Send(bytes)
                ==> {
                &&& eth_frame_of(pkt, mac, gateway) is Some
                &&& bytes == drv.wrapped(eth_frame_of(pkt, mac, gateway)->0)
                &&& sent_to_everyone(eth_frame_of(pkt, mac, gateway)->0, mac)
            }
        }),
{
    let mac = drv.address()@;
    let gateway = after_frames(rx, heard, mac, our_ip).gateway;
    lemma_gateway_stays(rx, heard, mac, our_ip);
    lemma_dhcp_addresses(mac, xid, discover_options());
    lemma_dhcp_addresses(mac, xid, request_options(offered, server));
    let gratuitous = gratuitous_frame(mac, our_ip);
    let rest = gratuitous.subrange(12, gratuitous.len() as int);
    assert(gratuitous =~= everyone() + mac + rest);
    lemma_addresses_in_front(gratuitous, everyone(), mac, rest);
    let presence = presence_frame(mac, our_ip);
    let rest = presence.subrange(12, presence.len() as int);
    assert(presence =~= everyone() + mac + rest);
    lemma_addresses_in_front(presence, everyone(), mac, rest);
    if let Some(frame) = eth_frame_of(pkt, mac, gateway) {
        let rest = frame.subrange(12, frame.len() as int);
        assert(frame =~= everyone() + mac + rest);
        lemma_addresses_in_front(frame, everyone(), mac, rest);
    }
}

/// A packet that goes to the resolver can be answered with any response that fits
/// in memory.
pub proof fn lemma_caught_queries_are_answerable<D: ProtocolDriver>(
    drv: D,
    mode: DnsMode,
    pkt: Seq<u8>,
    our_ip: Ipv4Addr,
    our_mac: Seq<u8>,
    gateway_mac: Seq<u8>,
    response_len: nat,
)
    requires
        response_len + 32 <= usize::MAX,
    ensures
        tx_route(drv, mode, pkt, our_ip, our_mac, gateway_mac) matches TxActionView::Resolve {
            packet,
            query,
        } ==> answerable(packet, response_len),
{
}

/// No DNS leaks: with encrypted DNS, a DNS query goes to the resolver and never
/// to the phone, wherever it is addressed to.
pub proof fn lemma_no_dns_leaks<D: ProtocolDriver>(
    drv: D,
    mode: DnsMode,
    pkt: Seq<u8>,
    our_ip: Ipv4Addr,
    our_mac: Seq<u8>,
    gateway_mac: Seq<u8>,
)
    requires
        mode != DnsMode::System,
        is_dns_query(pkt, our_ip.bits),
    ensures
        tx_route(drv, mode, pkt, our_ip, our_mac, gateway_mac) is Resolve,
        tx_route(drv, mode, pkt, our_ip, our_mac, gateway_mac) !is Send,
{
}

/// In system mode nothing is kept from the phone: DNS queries go the way of all
/// packets.
pub proof fn lemma_system_mode_passes<D: ProtocolDriver>(
    drv: D,
    pkt: Seq<u8>,
    our_ip: Ipv4Addr,
    our_mac: Seq<u8>,
    gateway_mac: Seq<u8>,
)
    ensures
        tx_route(drv, DnsMode::System, pkt, our_ip, our_mac, gateway_mac) !is Resolve,
        eth_frame_of(pkt, our_mac, gateway_mac) matches Some(frame) && frame.len() <= ETH_BUF_SIZE
            && drv.wrapped(frame).len() <= RNDIS_BUF_SIZE ==> tx_route(
            drv,
            DnsMode::System,
            pkt,
            our_ip,
            our_mac,
            gateway_mac,
        ) == TxActionView::Send(drv.wrapped(eth_frame_of(pkt, our_mac, gateway_mac)->0)),
{
}

/// What goes to the device carries the packet as it was: whoever takes these
/// bytes in as data from a device finds in them this one packet, and nothing to
/// answer.
pub proof fn lemma_packet_passes_through(
    drv: RndisDriver,
    mode: DnsMode,
    pkt: Seq<u8>,
    our_ip: Ipv4Addr,
    our_mac: Seq<u8>,
    gateway_mac: Seq<u8>,
    rx: RxView,
    peer_mac: Seq<u8>,
    peer_ip: Ipv4Addr,
)
    requires
        our_mac.len() == 6,
        gateway_mac.len() == 6,
        pkt.len() >= 5,
        be32_at(pkt, 0) == AF_INET || be32_at(pkt, 0) == AF_INET6,
        tx_route(drv, mode, pkt, our_ip, our_mac, gateway_mac) is Send,
    ensures
        ({
            let bytes = tx_route(drv, mode, pkt, our_ip, our_mac, gateway_mac)->Send_0;
            let frame = eth_frame_of(pkt, our_mac, gateway_mac)->0;
            &&& drv.unwrapped(bytes) == seq![frame]
            &&& after_frames(rx, drv.unwrapped(bytes), peer_mac, peer_ip) == (RxView {
                gateway: learned_gateway(rx.gateway, frame),
                packets: rx.packets.push(pkt),
                replies: rx.replies,
                stats: rx.stats.received(frame.len() as int),
            })
        }),
{
    let frame = eth_frame_of(pkt, our_mac, gateway_mac)->0;
    let t = ethertype_of(pkt)->0;
    assert(frame.len() == pkt.len() + 10);
    assert(carried_frames(data_packet(frame)) == seq![frame]) by {
        lemma_packet_roundtrip(frame);
    }
    assert(utun_packet_of(frame) == Some(pkt)) by {
        lemma_packet_returns(pkt, our_mac, gateway_mac);
    }
    assert(be16_at(frame, 12) == t) by {
        lemma_be16_roundtrip(t);
        assert(frame[12] == be16(t)[0] && frame[13] == be16(t)[1]);
    }
    lemma_one_frame(rx, frame, pkt, peer_mac, peer_ip);
}

proof fn lemma_one_frame(
    rx: RxView,
    frame: Seq<u8>,
    pkt: Seq<u8>,
    our_mac: Seq<u8>,
    our_ip: Ipv4Addr,
)
    requires
        frame.len() >= 14,
        be16_at(frame, 12) != ARP_ETHERTYPE,
        utun_packet_of(frame) == Some(pkt),
        pkt.len() <= UTUN_BUF_SIZE,
    ensures
        after_frames(rx, seq![frame], our_mac, our_ip) == (RxView {
            gateway: learned_gateway(rx.gateway, frame),
            packets: rx.packets.push(pkt),
            replies: rx.replies,
            stats: rx.stats.received(frame.len() as int),
        }),
{
    let frames = seq![frame];
    assert(frames.drop_last() =~= Seq::empty());
    assert(after_frames(rx, frames.drop_last(), our_mac, our_ip) == rx);
    assert(frames.last() == frame);
}

/// When the device was last shown that we are there, and when the counters were
/// last reported, in nanoseconds of a clock that does not go back.
#[derive(Debug, Clone, Copy, PartialEq, Eq, Structural)]
pub struct SessionClock {
    pub last_keepalive: u64,
    pub last_stats: u64,
}

/// What it is time for.
#[derive(Debug, Clone, Copy, PartialEq, Eq, Structural)]
pub struct Due {
    /// Show the device that we are there.
    pub keepalive: bool,
    /// Report the counters, and look for commands.
    pub report: bool,
}

impl SessionClock {
    /// A clock for a session that begins now.
    pub fn new(now: u64) -> (r: Self)
        ensures
            r.last_keepalive == now,
            r.last_stats == now,
    {
        SessionClock { last_keepalive: now, last_stats: now }
    }

    /// What it is time for: that which was done last an interval ago, or more.
    pub fn tick(&mut self, now: u64) -> (r: Due)
        ensures
            r.keepalive == (now - old(self).last_keepalive >= REPORT_INTERVAL),
            r.report == (now - old(self).last_stats >= REPORT_INTERVAL),
            final(self).last_keepalive == (if r.keepalive {
                now
            } else {
                old(self).last_keepalive
            }),
            final(self).last_stats == (if r.report {
                now
            } else {
                old(self).last_stats
            }),
    {
        let keepalive = now >= self.last_keepalive && now - self.last_keepalive >= REPORT_INTERVAL;
        let report = now >= self.last_stats && now - self.last_stats >= REPORT_INTERVAL;
        if keepalive {
            self.last_keepalive = now;
        }
        if report {
            self.last_stats = now;
        }
        Due { keepalive, report }
    }
}

/// Whether a command ends the session.
pub fn ends_session(command: IpcCommand) -> (r: bool)
    ensures
        r == (command == IpcCommand::Stop || command == IpcCommand::Disable),
{
    match command {
        IpcCommand::Stop | IpcCommand::Disable => true,
        _ => false,
    }
}

/// How the connection stands.
#[derive(Debug, Clone, Copy, PartialEq, Eq, Structural)]
pub enum LinkState {
    Idle,
    Watching,
    Connected,
    Disconnected,
}

impl LinkState {
    /// The word for a state.
    pub fn word(&self) -> (r: &'static str)
        ensures
            r@ == (match *self {
                LinkState::Idle => "idle"@,
                LinkState::Watching => "watching"@,
                LinkState::Connected => "connected"@,
                LinkState::Disconnected => "disconnected"@,
            }),
    {
        match self {
            LinkState::Idle => "idle",
            LinkState::Watching => "watching",
            LinkState::Connected => "connected",
            LinkState::Disconnected => "disconnected",
        }
    }
}

/// What to do before a session, in watch mode.
#[derive(Debug, Clone, Copy, PartialEq, Eq, Structural)]
pub enum WatchStep {
    /// Report that nothing goes on, wait for [`IDLE_MS`], and look for commands
    /// again.
    StayIdle,
    /// Report that devices are watched for, then begin a session.
    Announce,
    /// Begin a session.
    Connect,
}

/// What to do before a session, after a command or none.
pub fn before_session(command: IpcCommand) -> (r: WatchStep)
    ensures
        r == (match command {
            IpcCommand::Disable => WatchStep::StayIdle,
            IpcCommand::Enable | IpcCommand::Status => WatchStep::Announce,
            IpcCommand::Stop | IpcCommand::Nothing => WatchStep::Connect,
        }),
{
    match command {
        IpcCommand::Disable => WatchStep::StayIdle,
        IpcCommand::Enable | IpcCommand::Status => WatchStep::Announce,
        IpcCommand::Stop | IpcCommand::Nothing => WatchStep::Connect,
    }
}

/// What to do after a session, in watch mode.
#[derive(Debug, Clone, Copy, PartialEq, Eq, Structural)]
pub enum AfterSession {
    /// Report that devices are watched for, and wait for one.
    AwaitDevice,
    /// Wait a while.
    Pause,
    /// Leave.
    Leave,
}

/// What to do after a session. `disconnected` tells that the device went away.
pub fn after_session(disconnected: bool, running: bool) -> (r: AfterSession)
    ensures
        r == (if !running {
            AfterSession::Leave
        } else if disconnected {
            AfterSession::AwaitDevice
        } else {
            AfterSession::Pause
        }),
{
    if !running {
        AfterSession::Leave
    } else if disconnected {
        AfterSession::AwaitDevice
    } else {
        AfterSession::Pause
    }
}

impl AfterSession {
    /// How often to wait before the next session, as long as the process runs,
    /// and how long each time, in milliseconds.
    pub fn waits(&self) -> (r: (u32, u64))
        ensures
            r == (match *self {
                AfterSession::AwaitDevice => (RECONNECT_WAITS, RECONNECT_MS),
                AfterSession::Pause => (1u32, RETRY_MS),
                AfterSession::Leave => (0u32, 0u64),
            }),
    {
        match *self {
            AfterSession::AwaitDevice => (RECONNECT_WAITS, RECONNECT_MS),
            AfterSession::Pause => (1, RETRY_MS),
            AfterSession::Leave => (0, 0),
        }
    }
}

/// How many connections to a provider so many queries call for.
pub fn wanted_connections(queries: usize) -> (r: usize)
    ensures
        r == (if queries < MAX_POOL {
            queries
        } else {
            MAX_POOL
        }),
{
    if queries < MAX_POOL {
        queries
    } else {
        MAX_POOL
    }
}

/// How many workers ask queries at once: one for each connection, and at least
/// one.
pub fn worker_count(connections: usize) -> (r: usize)
    ensures
        r == (if connections == 0 {
            1
        } else {
            connections
        }),
{
    if connections == 0 {
        1
    } else {
        connections
    }
}

/// Takes back the connections that workers return, and keeps no more than the
/// pool holds.
pub fn keep_connections<C>(pool: &mut Vec<C>, returned: Vec<C>)
    ensures
        final(pool)@ == (if old(pool)@.len() + returned@.len() > MAX_POOL {
            (old(pool)@ + returned@).take(MAX_POOL as int)
        } else {
            old(pool)@ + returned@
        }),
{
    let mut returned = returned;
    pool.append(&mut returned);
    pool.truncate(MAX_POOL);
}

/// The query that a worker asks in a turn: the one whose turn it is, unless all
/// have been taken or the session ends.
pub open spec fn query_in_turn(turn: usize, queries: usize, running: bool) -> Option<usize> {
    if turn < queries && running {
        Some(turn)
    } else {
        None
    }
}

/// While the session runs, every query is asked in one turn, and in no other.
pub proof fn lemma_every_query_has_its_turn(
    query: usize,
    turn: usize,
    queries: usize,
    running: bool,
)
    requires
        query < queries,
    ensures
        query_in_turn(query, queries, true) == Some(query),
        query_in_turn(turn, queries, running) == Some(query) ==> turn == query,
{
}

/// Which query a worker asks next.
pub fn next_query(turn: usize, queries: usize, running: bool) -> (r: Option<usize>)
    ensures
        r == query_in_turn(turn, queries, running),
{
    if turn >= queries || !running {
        None
    } else {
        Some(turn)
    }
}

/// How far asking a query over a connection has come.
#[derive(Debug, Clone, Copy, PartialEq, Eq, Structural)]
pub enum DotStage {
    /// It has been asked.
    Asked,
    /// A new connection is being made.
    Reconnecting,
    /// It has been asked again, over the new connection.
    AskedAgain,
}

/// What has come of it.
#[derive(Debug)]
pub enum DotOutcome {
    /// A response.
    Response(Vec<u8>),
    /// A new connection.
    Connected,
    /// Nothing.
    Failed,
}

/// What to do next.
#[derive(Debug)]
pub enum DotNext {
    /// Make a new connection.
    Reconnect,
    /// Ask again.
    AskAgain,
    /// This is the response.
    Done(Vec<u8>),
    /// There is no response.
    GiveUp,
}

/// What to do next with a query: a connection that fails is replaced once.
pub fn after_dot(stage: DotStage, outcome: DotOutcome) -> (r: DotNext)
    ensures
        match (stage, outcome) {
            (DotStage::Asked, DotOutcome::Response(v)) => r == DotNext::Done(v),
            (DotStage::AskedAgain, DotOutcome::Response(v)) => r == DotNext::Done(v),
            (DotStage::Asked, _) => r is Reconnect,
            (DotStage::Reconnecting, DotOutcome::Connected) => r is AskAgain,
            _ => r is GiveUp,
        },
{
    match stage {
        DotStage::Asked => match outcome {
            DotOutcome::Response(v) => DotNext::Done(v),
            _ => DotNext::Reconnect,
        },
        DotStage::Reconnecting => match outcome {
            DotOutcome::Connected => DotNext::AskAgain,
            _ => DotNext::GiveUp,
        },
        DotStage::AskedAgain => match outcome {
            DotOutcome::Response(v) => DotNext::Done(v),
            _ => DotNext::GiveUp,
        },
    }
}

/// In every DNS mode a packet of IP that is no DNS query from our address goes to
/// the device, with the bytes of IP as they are, as long as it fits: in a frame
/// from our hardware address to the gateway's.
pub proof fn lemma_packets_reach_the_device<D: ProtocolDriver>(
    drv: D,
    mode: DnsMode,
    six: bool,
    ip: Seq<u8>,
    our_ip: Ipv4Addr,
    our_mac: Seq<u8>,
    gateway_mac: Seq<u8>,
)
    requires
        our_mac.len() == 6,
        gateway_mac.len() == 6,
        0 < ip.len() <= 2034,
        mode == DnsMode::System || !is_dns_query(ip_family(six) + ip, our_ip.bits),
        drv.wrapped(gateway_mac + our_mac + ip_kind(six) + ip).len() <= 32768,
    ensures
        tx_route(drv, mode, ip_family(six) + ip, our_ip, our_mac, gateway_mac)
            == TxActionView::Send(drv.wrapped(gateway_mac + our_mac + ip_kind(six) + ip)),
{
    lemma_packets_become_frames(seq![0u8, 0, 0, 2], ip, our_mac, gateway_mac);
}

/// Only DNS queries are kept back, and only where the phone is not to answer
/// them: no packet that is no UDP datagram to port 53 over IPv4 from our address
/// goes to the resolver, in whatever mode, and in system mode none does. What
/// goes to the resolver is the packet as it is.
pub proof fn lemma_only_queries_are_kept_back<D: ProtocolDriver>(
    drv: D,
    mode: DnsMode,
    pkt: Seq<u8>,
    our_ip: Ipv4Addr,
    our_mac: Seq<u8>,
    gateway_mac: Seq<u8>,
)
    ensures
        tx_route(drv, mode, pkt, our_ip, our_mac, gateway_mac) matches TxActionView::Resolve {
            packet,
            query,
        } ==> {
            &&& mode != DnsMode::System
            &&& packet == pkt
            &&& pkt.len() >= 44
            &&& pkt.subrange(0, 4) == seq![0u8, 0, 0, 2]
            &&& 0x40 <= pkt[4] <= 0x4F
            &&& pkt[13] == 17
            &&& pkt.subrange(16, 20) == be32(our_ip.bits)
            &&& be16_at(pkt, 6 + 4 * (pkt[4] - 0x40)) == 53
        },
{
    lemma_only_queries_are_caught(pkt, our_ip.bits);
    if is_dns_query(pkt, our_ip.bits) {
        let p = 6 + 4 * (pkt[4] - 0x40);
        let port = pkt.subrange(p, p + 2);
        assert(port[0] == pkt[p] && port[1] == pkt[p + 1]);
    }
}

/// With encrypted DNS every DNS query goes to the resolver, whichever of the two
/// modes it is: any UDP datagram over IPv4 from our address to port 53 that
/// carries a DNS header at least, and what it carries is the query.
pub proof fn lemma_queries_reach_the_resolver<D: ProtocolDriver>(
    drv: D,
    mode: DnsMode,
    header: Seq<u8>,
    from_port: Seq<u8>,
    length_and_sum: Seq<u8>,
    message: Seq<u8>,
    our_ip: Ipv4Addr,
    our_mac: Seq<u8>,
    gateway_mac: Seq<u8>,
)
    requires
        mode != DnsMode::System,
        udp_header_from(header, our_ip.bits),
        from_port.len() == 2,
        length_and_sum.len() == 4,
        message.len() >= 12,
    ensures
        ({
            let pkt = udp_packet(header, from_port, seq![0u8, 53], length_and_sum, message);
            tx_route(drv, mode, pkt, our_ip, our_mac, gateway_mac) == (TxActionView::Resolve {
                packet: pkt,
                query: message,
            })
        }),
{
    lemma_every_query_is_caught(header, from_port, length_and_sum, message, our_ip.bits);
}

/// A packet is dropped only if it is too short, is neither IPv4 nor IPv6, or is
/// too large to be sent.
pub proof fn lemma_dropped_packets<D: ProtocolDriver>(
    drv: D,
    mode: DnsMode,
    pkt: Seq<u8>,
    our_ip: Ipv4Addr,
    our_mac: Seq<u8>,
    gateway_mac: Seq<u8>,
)
    requires
        our_mac.len() == 6,
        gateway_mac.len() == 6,
        tx_route(drv, mode, pkt, our_ip, our_mac, gateway_mac) is Drop,
    ensures
        pkt.len() <= 4 || pkt.len() + 10 > 2048 || drv.wrapped(
            gateway_mac + our_mac + ip_kind(false) + pkt.subrange(4, pkt.len() as int),
        ).len() > 32768 || drv.wrapped(
            gateway_mac + our_mac + ip_kind(true) + pkt.subrange(4, pkt.len() as int),
        ).len() > 32768 || {
            &&& pkt.subrange(0, 4) != seq![0u8, 0, 0, 2]
            &&& pkt.subrange(0, 4) != seq![0u8, 0, 0, 30]
            &&& !(0x40 <= pkt[4] <= 0x4F)
            &&& !(0x60 <= pkt[4] <= 0x6F)
        },
{
    if pkt.len() > 4 {
        let family = pkt.subrange(0, 4);
        let ip = pkt.subrange(4, pkt.len() as int);
        assert(pkt =~= family + ip);
        assert(ip[0] == pkt[4]);
        lemma_packets_become_frames(family, ip, our_mac, gateway_mac);
    }
}

/// Whether a text has this line, with a line break behind it.
pub open spec fn has_line(text: Seq<char>, line: Seq<char>) -> bool {
    exists|before: Seq<char>, after: Seq<char>|
        text == #[trigger] (before + line + "\n"@ + after) && (before.len() == 0 || before.last()
            == '\n')
}

proof fn lemma_line(text: Seq<char>, before: Seq<char>, line: Seq<char>, after: Seq<char>)
    requires
        text =~= before + line + "\n"@ + after,
        before.len() == 0 || before.last() == '\n',
    ensures
        has_line(text, line),
{
    assert(text == before + line + "\n"@ + after);
}

proof fn lemma_service_script(ifname: Seq<char>, ip: Seq<char>, gateway: Seq<char>, mask: Seq<char>)
    ensures
        ({
            let script = service_address_script(ifname, ip, gateway, mask);
            &&& has_line(script, "d.add Addresses * "@ + ip)
            &&& has_line(script, "d.add SubnetMasks * "@ + mask)
            &&& has_line(script, "d.add Router "@ + gateway)
            &&& has_line(script, "d.add InterfaceName "@ + ifname)
            &&& has_line(script, "set State:/Network/Service/android-tether/IPv4"@)
            &&& script == "d.init\nd.add Addresses * "@ + ip + "\nd.add SubnetMasks * "@ + mask
                + "\nd.add Router "@ + gateway + "\nd.add InterfaceName "@ + ifname
                + "\nset State:/Network/Service/android-tether/IPv4\nquit\n"@
        }),
{
    reveal_strlit("d.init\n");
    reveal_strlit("\n");
    reveal_strlit("d.init\nd.add Addresses * ");
    reveal_strlit("d.add Addresses * ");
    reveal_strlit("\nd.add SubnetMasks * ");
    reveal_strlit("d.add SubnetMasks * ");
    reveal_strlit("\nd.add Router ");
    reveal_strlit("d.add Router ");
    reveal_strlit("\nd.add InterfaceName ");
    reveal_strlit("d.add InterfaceName ");
    reveal_strlit("\nset State:/Network/Service/android-tether/IPv4\nquit\n");
    reveal_strlit("set State:/Network/Service/android-tether/IPv4");
    reveal_strlit("quit\n");
    let script = service_address_script(ifname, ip, gateway, mask);
    let l1 = "d.add Addresses * "@ + ip;
    let l2 = "d.add SubnetMasks * "@ + mask;
    let l3 = "d.add Router "@ + gateway;
    let l4 = "d.add InterfaceName "@ + ifname;
    let l5 = "set State:/Network/Service/android-tether/IPv4"@;
    let e = "\n"@;
    let a0 = "d.init\n"@;
    let a1 = a0 + l1 + e;
    let a2 = a1 + l2 + e;
    let a3 = a2 + l3 + e;
    let a4 = a3 + l4 + e;
    let a5 = a4 + l5 + e;
    let end = "quit\n"@;
    assert("d.init\nd.add Addresses * "@ =~= a0 + "d.add Addresses * "@);
    assert("\nd.add SubnetMasks * "@ =~= e + "d.add SubnetMasks * "@);
    assert("\nd.add Router "@ =~= e + "d.add Router "@);
    assert("\nd.add InterfaceName "@ =~= e + "d.add InterfaceName "@);
    assert("\nset State:/Network/Service/android-tether/IPv4\nquit\n"@ =~= e + l5 + e + end);
    assert(script =~= a5 + end);
    lemma_line(script, a4, l5, end);
    assert(script =~= a3 + l4 + e + (l5 + e + end));
    lemma_line(script, a3, l4, l5 + e + end);
    let r3 = l4 + e + l5 + e + end;
    assert(script =~= a2 + l3 + e + r3);
    lemma_line(script, a2, l3, r3);
    let r2 = l3 + e + r3;
    assert(script =~= a1 + l2 + e + r2);
    lemma_line(script, a1, l2, r2);
    let r1 = l2 + e + r2;
    assert(script =~= a0 + l1 + e + r1);
    lemma_line(script, a0, l1, r1);
}

/// Whenever the service is registered, in whatever DNS mode, its script names the
/// session's address as the address, its gateway as the router, and its netmask
/// and interface.
pub proof fn lemma_service_names_the_lease(
    config: TetherConfig,
    lease: DhcpLease,
    ifname: Seq<char>,
)
    requires
        !config.no_dns || !config.no_route,
    ensures
        ({
            let plan = setup_plan(config, lease, ifname);
            let at = if config.no_dns {
                0int
            } else {
                2int
            };
            &&& plan.len() > at + 1
            &&& plan[at] matches StepView::Scutil(script) && {
                &&& has_line(script, "d.add Addresses * "@ + lease.ip.text())
                &&& has_line(script, "d.add Router "@ + lease.gateway.text())
                &&& has_line(script, "d.add SubnetMasks * "@ + lease.netmask.text())
                &&& has_line(script, "d.add InterfaceName "@ + ifname)
                &&& has_line(script, "set State:/Network/Service/android-tether/IPv4"@)
            }
            &&& plan[at + 1] == StepView::Scutil(
                "d.init\nd.add DeviceName "@ + ifname
                    + "\nd.add Type utun\nset State:/Network/Service/android-tether/Interface\nquit\n"@,
            )
        }),
{
    lemma_service_script(
        ifname,
        lease.ip.text(),
        lease.gateway.text(),
        lease.netmask.text(),
    );
    let (dns1, dns2) = announced_servers(config, lease);
    let texts = if config.no_dns {
        register_scripts(
            ifname,
            lease.ip.text(),
            lease.gateway.text(),
            lease.netmask.text(),
            ""@,
            ""@,
        )
    } else {
        register_scripts(
            ifname,
            lease.ip.text(),
            lease.gateway.text(),
            lease.netmask.text(),
            dns1.text(),
            dns2.text(),
        )
    };
    assert(scripts(texts)[0] == StepView::Scutil(texts[0]));
    assert(scripts(texts)[1] == StepView::Scutil(texts[1]));
}

/// The system is told of the name servers unless the user wants them left alone:
/// of both that were leased where the phone answers, and otherwise of the first
/// alone. They are set, the cache is emptied, and the service names them too.
/// Nothing else is set up, and nothing at all where the user wants name servers
/// and routes left alone.
pub proof fn lemma_name_servers_are_told(
    config: TetherConfig,
    lease: DhcpLease,
    ifname: Seq<char>,
)
    ensures
        ({
            let plan = setup_plan(config, lease, ifname);
            let second = if config.dns_mode == DnsMode::System {
                lease.dns2.text()
            } else {
                lease.dns1.text()
            };
            &&& !config.no_dns ==> {
                &&& plan.len() == 5
                &&& plan[0] == StepView::Scutil(
                    "d.init\nd.add ServerAddresses * "@ + lease.dns1.text() + " "@ + second
                        + "\nset State:/Network/Global/DNS\nquit\n"@,
                )
                &&& plan[1] == StepView::Shell(
                    "dscacheutil -flushcache 2>/dev/null; killall -HUP mDNSResponder 2>/dev/null"@,
                )
                &&& plan[4] matches StepView::Scutil(script) && script
                    == "d.init\nd.add ServerAddresses * "@ + (lease.dns1.text() + " "@ + second)
                    + "\nd.add SupplementalMatchDomains * \"\"\nd.add SearchOrder # 1\nset State:/Network/Service/android-tether/DNS\nquit\n"@
            }
            &&& config.no_dns && !config.no_route ==> plan.len() == 2
            &&& config.no_dns && config.no_route ==> plan.len() == 0
        }),
{
    reveal_strlit("");
    reveal_strlit(" ");
    let (dns1, dns2) = announced_servers(config, lease);
    lemma_text_not_empty(dns1);
    lemma_text_not_empty(dns2);
    let texts = register_scripts(
        ifname,
        lease.ip.text(),
        lease.gateway.text(),
        lease.netmask.text(),
        dns1.text(),
        dns2.text(),
    );
    assert(texts.len() == 3);
    assert(scripts(texts)[2] == StepView::Scutil(texts[2]));
    assert(""@.len() == 0);
}

/// Plans for configurations that differ in the DNS mode only differ at most in
/// the name servers that they announce.
#[verifier::rlimit(30)]
pub proof fn lemma_mode_changes_name_servers_only(
    config: TetherConfig,
    mode: DnsMode,
    lease: DhcpLease,
    ifname: Seq<char>,
)
    ensures
        ({
            let a = setup_plan(config, lease, ifname);
            let b = setup_plan(TetherConfig { dns_mode: mode, ..config }, lease, ifname);
            &&& a.len() == b.len()
            &&& forall|i: int|
                0 <= i < a.len() && (config.no_dns || 1 <= i <= 3) ==> #[trigger] a[i] == b[i]
        }),
        route_plan(TetherConfig { dns_mode: mode, ..config }, lease.gateway) == route_plan(
            config,
            lease.gateway,
        ),
        teardown_plan(TetherConfig { dns_mode: mode, ..config }) == teardown_plan(config),
{
    let other = TetherConfig { dns_mode: mode, ..config };
    lemma_name_servers_are_told(config, lease, ifname);
    lemma_name_servers_are_told(other, lease, ifname);
    let a = setup_plan(config, lease, ifname);
    let b = setup_plan(other, lease, ifname);
    assert forall|i: int| 0 <= i < a.len() && (config.no_dns || 1 <= i <= 3) implies
        #[trigger] a[i] == b[i] by {}
}

/// All traffic is led to the gateway of the session by two routes, one for each
/// half of the addresses, and the network is restored by deleting just these two
/// routes, the service, and the name servers; what the user wants left alone is
/// left alone.
pub proof fn lemma_routes_and_their_end(config: TetherConfig, gateway: Ipv4Addr)
    ensures
        !config.no_route ==> {
            let plan = route_plan(config, gateway);
            &&& plan.len() == 5
            &&& plan[0] == StepView::Shell("route delete "@ + gateway.text() + " 2>/dev/null"@)
            &&& plan[1] == StepView::Shell("route delete -net 0.0.0.0/1 2>/dev/null"@)
            &&& plan[2] == StepView::Shell("route add -net 0.0.0.0/1 "@ + gateway.text())
            &&& plan[3] == StepView::Shell("route delete -net 128.0.0.0/1 2>/dev/null"@)
            &&& plan[4] == StepView::Shell("route add -net 128.0.0.0/1 "@ + gateway.text())
        },
        config.no_route ==> route_plan(config, gateway).len() == 0,
        teardown_plan(config).len() == 1 + (if config.no_route {
            0int
        } else {
            2int
        }) + (if config.no_dns {
            0int
        } else {
            1int
        }),
        !config.no_route ==> {
            &&& teardown_plan(config)[0] == StepView::Shell(
                "route delete -net 0.0.0.0/1 2>/dev/null"@,
            )
            &&& teardown_plan(config)[1] == StepView::Shell(
                "route delete -net 128.0.0.0/1 2>/dev/null"@,
            )
        },
        !config.no_dns ==> teardown_plan(config).last() == StepView::Scutil(
            "remove State:/Network/Global/DNS\nquit\n"@,
        ),
        teardown_plan(config)[if config.no_route {
            0int
        } else {
            2int
        }] == StepView::Scutil(
            "remove State:/Network/Service/android-tether/IPv4\nremove State:/Network/Service/android-tether/DNS\nremove State:/Network/Service/android-tether/Interface\nquit\n"@,
        ),
{
}

/// An active session in its order: the system is told of the service, half a
/// second later traffic is led to the gateway, our address is announced, and
/// then the link is reported to be up. The network is restored only once packets
/// have ceased to pass, and the link is reported to be down last.
#[verifier::rlimit(30)]
pub proof fn lemma_active_order(
    config: TetherConfig,
    lease: DhcpLease,
    mac: Seq<u8>,
    ifname: Seq<char>,
)
    ensures
        ({
            let plan = active_plan(config, lease, mac, ifname);
            &&& plan.len() == 8
            &&& plan[0] matches ActiveTaskView::Take(steps) && steps == setup_plan(
                config,
                lease,
                ifname,
            )
            &&& plan[1] == ActiveTaskView::Pause(500)
            &&& plan[2] matches ActiveTaskView::Take(steps) && steps == route_plan(
                config,
                lease.gateway,
            )
            &&& plan[3] == ActiveTaskView::Send(data_packet(gratuitous_frame(mac, lease.ip)))
            &&& plan[4] == (ActiveTaskView::ReportConnected { ip: lease.ip.text(), ifname })
            &&& plan[5] == ActiveTaskView::PassPackets
            &&& plan[6] matches ActiveTaskView::Take(steps) && steps == teardown_plan(config)
            &&& plan[7] == ActiveTaskView::ReportDisconnected
        }),
{
}

proof fn lemma_announcement_is_carried(mac: Seq<u8>, ip: Ipv4Addr)
    requires
        mac.len() == 6,
    ensures
        carried_frames(data_packet(gratuitous_frame(mac, ip))) == seq![gratuitous_frame(mac, ip)],
{
    let frame = gratuitous_frame(mac, ip);
    assert(frame.len() == 42) by {
        lemma_announcement_bytes(mac, ip);
    }
    lemma_packet_roundtrip(frame);
}

/// What is sent first in an active session is one frame, which announces the
/// session's address.
pub proof fn lemma_address_is_announced(
    config: TetherConfig,
    lease: DhcpLease,
    mac: Seq<u8>,
    ifname: Seq<char>,
)
    requires
        mac.len() == 6,
    ensures
        active_plan(config, lease, mac, ifname)[3] matches ActiveTaskView::Send(bytes)
            && carried_frames(bytes) == seq![gratuitous_frame(mac, lease.ip)],
{
    assert(active_plan(config, lease, mac, ifname)[3] == ActiveTaskView::Send(
        data_packet(gratuitous_frame(mac, lease.ip)),
    ));
    lemma_announcement_is_carried(mac, lease.ip);
}

/// The addresses of a session: a static address comes with the gateway and the
/// netmask that are configured and with public name servers; a lease is taken as
/// it is; and without either the defaults are taken.
pub proof fn lemma_addresses_taken(config: TetherConfig, lease: DhcpLease)
    ensures
        config.static_ip matches Some(ip) ==> forall|l: Option<DhcpLease>| {
            let a = #[trigger] chosen_addresses(config, l);
            &&& a.ip == ip
            &&& config.gateway matches Some(gw) ==> a.gateway == gw
            &&& config.gateway is None ==> a.gateway.bits == 0xC0A8_2A81
            &&& a.netmask == config.netmask
            &&& a.dns1.bits == 0x0808_0808
            &&& a.dns2.bits == 0x0808_0404
        },
        config.static_ip is None ==> chosen_addresses(config, Some(lease)) == lease,
        config.static_ip is None ==> {
            let a = chosen_addresses(config, None);
            &&& a.ip.bits == 0xC0A8_2A64
            &&& a.gateway.bits == 0xC0A8_2A81
            &&& a.netmask.bits == 0xFFFF_FF00
            &&& a.dns1.bits == 0x0808_0808
            &&& a.dns2.bits == 0x0808_0404
        },
{
}

/// A session that succeeds in all its tasks does them in this order, asks for
/// addresses only if none is configured, uses the lease that it gets, and tells
/// at its end whether the device went away.
pub proof fn lemma_session_course(config: TetherConfig, lease: DhcpLease, device_gone: bool)
    ensures
        ({
            let start = Session { config, stage: SessionStage::Finding, addresses: None };
            let (found, t1) = advanced(start, SessionEvent::Succeeded);
            let (ready, t2) = advanced(found, SessionEvent::Succeeded);
            let (leased, t3) = if config.static_ip is None {
                advanced(ready, SessionEvent::Leased(lease))
            } else {
                (ready, t2)
            };
            let (created, t4) = advanced(leased, SessionEvent::Succeeded);
            let (active, t5) = advanced(created, SessionEvent::Succeeded);
            let (over, t6) = advanced(active, SessionEvent::Ended { device_gone });
            &&& t1 == SessionTask::InitDevice
            &&& config.static_ip is None ==> t2 == SessionTask::Lease
            &&& t3 == SessionTask::CreateInterface
            &&& t4 == SessionTask::ConfigureInterface
            &&& t5 == SessionTask::PassPackets
            &&& t6 == SessionTask::Return(device_gone)
            &&& config.static_ip is None ==> active.addresses == Some(lease)
            &&& config.static_ip matches Some(ip) ==> active.addresses matches Some(a) && a.ip
                == ip && a.netmask == config.netmask
            &&& over.config == config
        }),
{
}

/// A session that ends without having passed packets never reports that the
/// device went away, and one that passed them reports it if and only if it did.
pub proof fn lemma_device_gone_is_told(session: Session, event: SessionEvent)
    ensures
        advanced(session, event).1 == SessionTask::Return(true) <==> session.stage
            == SessionStage::Active && event == (SessionEvent::Ended { device_gone: true }),
        session.stage == SessionStage::Active || session.stage == SessionStage::Over ==> advanced(
            session,
            event,
        ).1 is Return,
        advanced(session, event).1 is Return ==> advanced(session, event).0.stage
            == SessionStage::Over,
        event != SessionEvent::Succeeded && session.stage != SessionStage::Leasing
            && session.stage != SessionStage::Active ==> advanced(session, event).1
            == SessionTask::Return(false),
{
}

/// A session that ends asks no more queries.
pub proof fn lemma_no_queries_after_the_end(turn: usize, queries: usize)
    ensures
        query_in_turn(turn, queries, false) is None,
        turn >= queries ==> query_in_turn(turn, queries, true) is None,
{
}

/// A list of steps or tasks has a view for each of them, in its place.
pub proof fn lemma_views_in_place(steps: Seq<Step>, tasks: Seq<ActiveTask>, texts: Seq<Seq<char>>)
    ensures
        step_views(steps).len() == steps.len(),
        forall|i: int| 0 <= i < steps.len() ==> #[trigger] step_views(steps)[i] == steps[i]@,
        task_views(tasks).len() == tasks.len(),
        forall|i: int| 0 <= i < tasks.len() ==> #[trigger] task_views(tasks)[i] == tasks[i]@,
        scripts(texts).len() == texts.len(),
        forall|i: int|
            0 <= i < texts.len() ==> #[trigger] scripts(texts)[i] == StepView::Scutil(texts[i]),
        commands(texts).len() == texts.len(),
        forall|i: int|
            0 <= i < texts.len() ==> #[trigger] commands(texts)[i] == StepView::Shell(texts[i]),
{
}

/// The views of steps, tasks and actions hold what these hold.
pub proof fn lemma_views_hold(
    text: String,
    other: String,
    bytes: Vec<u8>,
    query: Vec<u8>,
    steps: Vec<Step>,
    ms: u64,
)
    ensures
        Step::Scutil(text)@ == StepView::Scutil(text@),
        Step::Shell(text)@ == StepView::Shell(text@),
        TxAction::Drop@ == TxActionView::Drop,
        TxAction::Send(bytes)@ == TxActionView::Send(bytes@),
        (TxAction::Resolve { packet: bytes, query })@ == (TxActionView::Resolve {
            packet: bytes@,
            query: query@,
        }),
        ActiveTask::Take(steps)@ == ActiveTaskView::Take(step_views(steps@)),
        ActiveTask::Pause(ms)@ == ActiveTaskView::Pause(ms),
        ActiveTask::Send(bytes)@ == ActiveTaskView::Send(bytes@),
        (ActiveTask::ReportConnected { ip: text, ifname: other })@
            == (ActiveTaskView::ReportConnected { ip: text@, ifname: other@ }),
        ActiveTask::PassPackets@ == ActiveTaskView::PassPackets,
        ActiveTask::ReportDisconnected@ == ActiveTaskView::ReportDisconnected,
{
}

} // verus!
