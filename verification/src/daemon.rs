//! Running in the background: the property list that the system starts the
//! daemon by.

use crate::config::{configured, CliArgs, LogLevel, TetherConfig};
use crate::net_types::Ipv4Addr;
use crate::session::{route_plan, teardown_plan};
use crate::text::{append_decimal, decimal};
use crate::utun::{push_text, text_views};
use vstd::prelude::*;

verus! {

/// Where the property list stands.
pub const PLIST_PATH: &'static str = "/Library/LaunchDaemons/com.tetherd.daemon.plist";

/// The directory of the daemon's log.
pub const LOG_DIR: &'static str = "/var/log";

/// The daemon's log.
pub const LOG_FILE: &'static str = "/var/log/tetherd.log";

/// The property list up to the path of the program.
pub const PLIST_HEAD: &'static str = "<?xml version=\"1.0\" encoding=\"UTF-8\"?>\n<!DOCTYPE plist PUBLIC \"-//Apple//DTD PLIST 1.0//EN\"\n  \"http://www.apple.com/DTDs/PropertyList-1.0.dtd\">\n<plist version=\"1.0\">\n<dict>\n    <key>Label</key>\n    <string>com.tetherd.daemon</string>\n    <key>ProgramArguments</key>\n    <array>\n        <string>";

/// The property list between the arguments and the devices.
pub const PLIST_EVENTS: &'static str = "\n    </array>\n    <key>LaunchEvents</key>\n    <dict>\n        <key>com.apple.iokit.matching</key>\n        <dict>\n            <key>com.apple.device-attach</key>\n            <array>\n";

/// The property list between the devices and the log.
pub const PLIST_OUT: &'static str = "\n            </array>\n        </dict>\n    </dict>\n    <key>KeepAlive</key>\n    <false/>\n    <key>RunAtLoad</key>\n    <false/>\n    <key>StandardOutPath</key>\n    <string>";

/// The property list between the two places that name the log.
pub const PLIST_ERR: &'static str = "</string>\n    <key>StandardErrorPath</key>\n    <string>";

/// The end of the property list.
pub const PLIST_TAIL: &'static str = "</string>\n    <key>UserName</key>\n    <string>root</string>\n    <key>GroupName</key>\n    <string>wheel</string>\n</dict>\n</plist>";

/// The vendors and products of phones that can tether.
pub open spec fn known_devices() -> Seq<(u32, u32)> {
    seq![
        (0x18d1u32, 0x4eebu32),
        (0x18d1, 0x4ee1),
        (0x18d1, 0x4ee2),
        (0x18d1, 0x4ee3),
        (0x18d1, 0x4ee4),
        (0x18d1, 0x4ee5),
        (0x18d1, 0x4ee6),
        (0x18d1, 0x4ee7),
        (0x22d9, 0x2766),
        (0x22b8, 0x2e82),
        (0x0bb4, 0x0ffe),
        (0x0bb4, 0x0c02),
        (0x04e8, 0x6863),
        (0x04e8, 0x6864),
        (0x04e8, 0x6865),
        (0x04e8, 0x6866),
        (0x2717, 0xff08),
        (0x2717, 0xff80),
        (0x2a70, 0x9011),
        (0x1004, 0x633e),
    ]
}

/// The vendors and products of phones that can tether.
pub fn vid_pids() -> (r: Vec<(u32, u32)>)
    ensures
        r@ == known_devices(),
{
    let mut out: Vec<(u32, u32)> = Vec::new();
    out.push((0x18d1, 0x4eeb));
    out.push((0x18d1, 0x4ee1));
    out.push((0x18d1, 0x4ee2));
    out.push((0x18d1, 0x4ee3));
    out.push((0x18d1, 0x4ee4));
    out.push((0x18d1, 0x4ee5));
    out.push((0x18d1, 0x4ee6));
    out.push((0x18d1, 0x4ee7));
    out.push((0x22d9, 0x2766));
    out.push((0x22b8, 0x2e82));
    out.push((0x0bb4, 0x0ffe));
    out.push((0x0bb4, 0x0c02));
    out.push((0x04e8, 0x6863));
    out.push((0x04e8, 0x6864));
    out.push((0x04e8, 0x6865));
    out.push((0x04e8, 0x6866));
    out.push((0x2717, 0xff08));
    out.push((0x2717, 0xff80));
    out.push((0x2a70, 0x9011));
    out.push((0x1004, 0x633e));
    assert(out@ =~= known_devices());
    out
}

/// The word for the configured DNS mode.
pub fn dns_mode_flag(config: &TetherConfig) -> (r: &'static str)
    ensures
        r@ == config.dns_mode.word(),
{
    config.dns_mode.to_word()
}

/// The word for the configured provider.
pub fn dns_provider_flag(config: &TetherConfig) -> (r: &'static str)
    ensures
        r@ == config.dns_provider.word(),
{
    config.dns_provider.to_word()
}

/// The arguments that the daemon is started with. It leaves the default route
/// alone, waits for devices, and otherwise does what is configured.
pub open spec fn daemon_args(config: TetherConfig) -> Seq<Seq<char>> {
    let base = seq![
        "--daemon"@,
        "--no-route"@,
        "--watch"@,
        "--dns-mode="@ + config.dns_mode.word(),
        "--dns-provider="@ + config.dns_provider.word(),
    ];
    let with_ip = match config.static_ip {
        Some(ip) => base.push("--static="@ + ip.text()),
        None => base,
    };
    let with_gateway = match config.gateway {
        Some(gw) => with_ip.push("--gateway="@ + gw.text()),
        None => with_ip,
    };
    if config.log_level == LogLevel::Debug {
        with_gateway.push("--verbose"@)
    } else {
        with_gateway
    }
}

/// The arguments that the daemon is started with.
pub fn daemon_arguments(config: &TetherConfig) -> (r: Vec<String>)
    ensures
        text_views(r@) == daemon_args(*config),
{
    let mut out: Vec<String> = Vec::new();
    push_text(&mut out, "--daemon".to_owned());
    push_text(&mut out, "--no-route".to_owned());
    push_text(&mut out, "--watch".to_owned());
    let mut mode = "--dns-mode=".to_owned();
    mode.append(dns_mode_flag(config));
    push_text(&mut out, mode);
    let mut provider = "--dns-provider=".to_owned();
    provider.append(dns_provider_flag(config));
    push_text(&mut out, provider);
    if let Some(ip) = config.static_ip {
        let mut arg = "--static=".to_owned();
        ip.append_text(&mut arg);
        push_text(&mut out, arg);
    }
    if let Some(gw) = config.gateway {
        let mut arg = "--gateway=".to_owned();
        gw.append_text(&mut arg);
        push_text(&mut out, arg);
    }
    match config.log_level {
        LogLevel::Debug => {
            push_text(&mut out, "--verbose".to_owned());
        },
        _ => {},
    }
    assert(text_views(out@) =~= daemon_args(*config));
    out
}

/// The lines of a list, with line breaks between them.
pub open spec fn joined_lines(lines: Seq<Seq<char>>) -> Seq<char>
    decreases lines.len(),
{
    if lines.len() == 0 {
        Seq::empty()
    } else if lines.len() == 1 {
        lines[0]
    } else {
        joined_lines(lines.drop_last()) + "\n"@ + lines.last()
    }
}

/// An argument in the property list.
pub open spec fn argument_line(arg: Seq<char>) -> Seq<char> {
    "            <string>"@ + arg + "</string>"@
}

/// A device in the property list.
pub open spec fn device_entry(vid: u32, pid: u32) -> Seq<char> {
    "                <dict>\n<key>idVendor</key>\n<integer>"@ + decimal(vid as nat)
        + "</integer>\n<key>idProduct</key>\n<integer>"@ + decimal(pid as nat)
        + "</integer>\n<key>IOProviderClass</key>\n<string>IOUSBDevice</string>\n</dict>"@
}

/// The arguments in the property list.
pub open spec fn argument_lines(args: Seq<Seq<char>>) -> Seq<Seq<char>> {
    args.map_values(|a: Seq<char>| argument_line(a))
}

/// The devices in the property list.
pub open spec fn device_entries(devices: Seq<(u32, u32)>) -> Seq<Seq<char>> {
    devices.map_values(|d: (u32, u32)| device_entry(d.0, d.1))
}

/// The property list for a program with these arguments.
pub open spec fn plist_text(exe: Seq<char>, args: Seq<Seq<char>>) -> Seq<char> {
    PLIST_HEAD@ + exe + "</string>\n"@ + joined_lines(argument_lines(args)) + PLIST_EVENTS@
        + joined_lines(device_entries(known_devices())) + PLIST_OUT@ + LOG_FILE@ + PLIST_ERR@
        + LOG_FILE@ + PLIST_TAIL@
}

proof fn lemma_joined_push(lines: Seq<Seq<char>>, line: Seq<char>)
    ensures
        joined_lines(lines.push(line)) == (if lines.len() == 0 {
            line
        } else {
            joined_lines(lines) + "\n"@ + line
        }),
{
    assert(lines.push(line).drop_last() =~= lines);
}

fn join_arguments(args: &Vec<String>) -> (r: String)
    ensures
        r@ == joined_lines(argument_lines(text_views(args@))),
{
    let ghost lines = argument_lines(text_views(args@));
    let mut out = String::new();
    let mut i: usize = 0;
    assert(lines.take(0) =~= Seq::empty());
    assert(out@ =~= Seq::empty());
    while i < args.len()
        invariant
            i <= args@.len(),
            lines == argument_lines(text_views(args@)),
            out@ == joined_lines(lines.take(i as int)),
        decreases args@.len() - i,
    {
        let ghost before = out@;
        proof {
            lemma_joined_push(lines.take(i as int), lines[i as int]);
            assert(lines.take(i + 1) =~= lines.take(i as int).push(lines[i as int]));
            assert(lines[i as int] == argument_line(args@[i as int]@));
        }
        if i > 0 {
            out.append("\n");
        }
        let ghost start = out@;
        out.append("            <string>");
        out.append(args[i].as_str());
        out.append("</string>");
        assert(out@ =~= start + argument_line(args@[i as int]@));
        i = i + 1;
    }
    assert(lines.take(args@.len() as int) =~= lines);
    out
}

fn join_devices(devices: &Vec<(u32, u32)>) -> (r: String)
    ensures
        r@ == joined_lines(device_entries(devices@)),
{
    let ghost lines = device_entries(devices@);
    let mut out = String::new();
    let mut i: usize = 0;
    assert(lines.take(0) =~= Seq::empty());
    assert(out@ =~= Seq::empty());
    while i < devices.len()
        invariant
            i <= devices@.len(),
            lines == device_entries(devices@),
            out@ == joined_lines(lines.take(i as int)),
        decreases devices@.len() - i,
    {
        let (vid, pid) = devices[i];
        proof {
            lemma_joined_push(lines.take(i as int), lines[i as int]);
            assert(lines.take(i + 1) =~= lines.take(i as int).push(lines[i as int]));
            assert(lines[i as int] == device_entry(vid, pid));
        }
        if i > 0 {
            out.append("\n");
        }
        let ghost start = out@;
        out.append("                <dict>\n<key>idVendor</key>\n<integer>");
        append_decimal(&mut out, vid as u64);
        out.append("</integer>\n<key>idProduct</key>\n<integer>");
        append_decimal(&mut out, pid as u64);
        out.append(
            "</integer>\n<key>IOProviderClass</key>\n<string>IOUSBDevice</string>\n</dict>",
        );
        assert(out@ =~= start + device_entry(vid, pid));
        i = i + 1;
    }
    assert(lines.take(devices@.len() as int) =~= lines);
    out
}

/// The property list that starts the program at `exe_path` as the daemon.
pub fn install_daemon(config: &TetherConfig, exe_path: &str) -> (r: String)
    ensures
        r@ == plist_text(exe_path@, daemon_args(*config)),
{
    let args = daemon_arguments(config);
    let devices = vid_pids();
    let mut out = PLIST_HEAD.to_owned();
    out.append(exe_path);
    out.append("</string>\n");
    out.append(join_arguments(&args).as_str());
    out.append(PLIST_EVENTS);
    out.append(join_devices(&devices).as_str());
    out.append(PLIST_OUT);
    out.append(LOG_FILE);
    out.append(PLIST_ERR);
    out.append(LOG_FILE);
    out.append(PLIST_TAIL);
    out
}

/// How much the daemon writes to its log: all of it where the level asks for
/// that, and otherwise what is of general interest.
pub fn daemon_level(level: LogLevel) -> (r: LogLevel)
    ensures
        r == (if level == LogLevel::Debug {
            LogLevel::Debug
        } else {
            LogLevel::Info
        }),
{
    if level == LogLevel::Debug {
        LogLevel::Debug
    } else {
        LogLevel::Info
    }
}

/// The daemon is told to leave the default route alone and to wait for devices,
/// and it is told the DNS mode and the provider that were configured when it was
/// installed.
pub proof fn lemma_daemon_arguments(config: TetherConfig)
    ensures
        daemon_args(config).contains("--no-route"@),
        daemon_args(config).contains("--watch"@),
        daemon_args(config).contains("--dns-mode="@ + config.dns_mode.word()),
        daemon_args(config).contains("--dns-provider="@ + config.dns_provider.word()),
        config.static_ip matches Some(ip) ==> daemon_args(config).contains(
            "--static="@ + ip.text(),
        ),
        config.gateway matches Some(gw) ==> daemon_args(config).contains(
            "--gateway="@ + gw.text(),
        ),
        config.log_level == LogLevel::Debug ==> daemon_args(config).contains("--verbose"@),
{
    let args = daemon_args(config);
    assert(args[1] == "--no-route"@);
    assert(args[2] == "--watch"@);
    assert(args[3] == "--dns-mode="@ + config.dns_mode.word());
    assert(args[4] == "--dns-provider="@ + config.dns_provider.word());
    if config.static_ip is Some {
        assert(args[5] == "--static="@ + config.static_ip->0.text());
    }
    if config.gateway is Some {
        let at = if config.static_ip is Some {
            6int
        } else {
            5int
        };
        assert(args[at] == "--gateway="@ + config.gateway->0.text());
    }
    if config.log_level == LogLevel::Debug {
        assert(args.last() == "--verbose"@);
        assert(args[args.len() - 1] == "--verbose"@);
    }
}

/// A process that is told to leave the default route alone, as the daemon is,
/// adds no route and deletes none, whatever its configuration file says.
pub proof fn lemma_daemon_leaves_routes(
    args: CliArgs,
    file: Option<Seq<char>>,
    gateway: Ipv4Addr,
)
    requires
        args.no_route,
        configured(args, file) is Ok,
    ensures
        ({
            let config = configured(args, file)->Ok_0;
            &&& config.no_route
            &&& route_plan(config, gateway).len() == 0
            &&& forall|i: int|
                0 <= i < teardown_plan(config).len() ==> #[trigger] teardown_plan(config)[i]
                    is Scutil
        }),
{
}

/// The daemon is started with just these arguments, in this order; those for
/// addresses and for the log are left out where nothing is configured.
pub proof fn lemma_daemon_argument_list(config: TetherConfig)
    ensures
        ({
            let args = daemon_args(config);
            let ip = if config.static_ip is Some {
                1int
            } else {
                0int
            };
            let gateway = if config.gateway is Some {
                1int
            } else {
                0int
            };
            let verbose = if config.log_level == LogLevel::Debug {
                1int
            } else {
                0int
            };
            &&& args.len() == 5 + ip + gateway + verbose
            &&& args[0] == "--daemon"@
            &&& args[1] == "--no-route"@
            &&& args[2] == "--watch"@
            &&& args[3] == "--dns-mode="@ + config.dns_mode.word()
            &&& args[4] == "--dns-provider="@ + config.dns_provider.word()
            &&& config.static_ip matches Some(a) ==> args[5] == "--static="@ + a.text()
            &&& config.gateway matches Some(a) ==> args[5 + ip] == "--gateway="@ + a.text()
            &&& config.log_level == LogLevel::Debug ==> args[5 + ip + gateway] == "--verbose"@
        }),
{
}

/// Lines are joined in their order, with one line break between any two.
pub proof fn lemma_lines_are_joined(lines: Seq<Seq<char>>, line: Seq<char>)
    ensures
        joined_lines(Seq::empty()) == Seq::<char>::empty(),
        joined_lines(seq![line]) == line,
        lines.len() > 0 ==> joined_lines(lines.push(line)) == joined_lines(lines) + "\n"@ + line,
{
    lemma_joined_push(lines, line);
    assert(joined_lines(Seq::<Seq<char>>::empty()) =~= Seq::empty());
}

/// The property list names the program, each argument on a line of its own, each
/// phone by its vendor and its product, and the log for all that is printed.
pub proof fn lemma_property_list(exe: Seq<char>, args: Seq<Seq<char>>, i: int, j: int)
    requires
        0 <= i < args.len(),
        0 <= j < 20,
    ensures
        plist_text(exe, args) == PLIST_HEAD@ + exe + "</string>\n"@ + joined_lines(
            argument_lines(args),
        ) + PLIST_EVENTS@ + joined_lines(device_entries(known_devices())) + PLIST_OUT@
            + "/var/log/tetherd.log"@ + PLIST_ERR@ + "/var/log/tetherd.log"@ + PLIST_TAIL@,
        argument_lines(args).len() == args.len(),
        argument_lines(args)[i] == "            <string>"@ + args[i] + "</string>"@,
        device_entries(known_devices()).len() == 20,
        device_entries(known_devices())[j]
            == "                <dict>\n<key>idVendor</key>\n<integer>"@ + decimal(
            known_devices()[j].0 as nat,
        ) + "</integer>\n<key>idProduct</key>\n<integer>"@ + decimal(known_devices()[j].1 as nat)
            + "</integer>\n<key>IOProviderClass</key>\n<string>IOUSBDevice</string>\n</dict>"@,
{
}

} // verus!
