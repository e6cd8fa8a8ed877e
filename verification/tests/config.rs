use android_tether::config::{
    parse_level, CliArgs, DnsMode, DnsProvider, LogLevel, TetherConfig,
};
use android_tether::daemon::{
    daemon_arguments, daemon_level, dns_mode_flag, dns_provider_flag, install_daemon, vid_pids, LOG_FILE,
};
use android_tether::error::TetherError;
use android_tether::ipc::{IpcCommand, IpcServer};
use android_tether::net_types::Ipv4Addr;
use android_tether::stats::SharedStats;
use android_tether::text::{
    append_decimal, append_prefixed_hex, chars_of, parse_u16, same_text, space, trim_range,
};

fn args() -> CliArgs {
    CliArgs {
        no_route: false,
        no_dns: false,
        static_ip: None,
        gateway: None,
        netmask: None,
        config: None,
        verbose: false,
        watch: false,
        dns_mode: None,
        dns_provider: None,
        install: false,
        uninstall: false,
        daemon: false,
    }
}

fn config_error(e: TetherError) -> String {
    match e {
        TetherError::Config(s) => s,
        other => panic!("{:?}", other),
    }
}

fn with_file(contents: &str) -> TetherConfig {
    TetherConfig::from_cli(&args(), Some(contents)).unwrap()
}

#[test]
fn default_configuration() {
    let config = TetherConfig::from_cli(&args(), None).unwrap();
    assert_eq!(config, TetherConfig::default());
    assert_eq!(config.netmask, Ipv4Addr::new(255, 255, 255, 0));
    assert_eq!(config.log_level, LogLevel::Info);
    assert_eq!(config.dns_mode, DnsMode::System);
    assert_eq!(config.dns_provider, DnsProvider::Cloudflare);
    assert_eq!(config.static_ip, None);
    assert_eq!(config.gateway, None);
    assert!(!config.no_route && !config.no_dns && !config.watch_mode);
}

#[test]
fn switches_count() {
    let mut a = args();
    a.no_route = true;
    a.no_dns = true;
    a.verbose = true;
    a.watch = true;
    a.dns_mode = Some(DnsMode::DoT);
    a.dns_provider = Some(DnsProvider::Quad9);
    a.daemon = true;
    let config = TetherConfig::from_cli(&a, None).unwrap();
    assert!(config.no_route && config.no_dns && config.watch_mode && config.daemon);
    assert_eq!(config.log_level, LogLevel::Debug);
    assert_eq!(config.dns_mode, DnsMode::DoT);
    assert_eq!(config.dns_provider, DnsProvider::Quad9);
}

#[test]
fn addresses_on_the_command_line() {
    let mut a = args();
    a.static_ip = Some("10.0.0.2".to_string());
    let config = TetherConfig::from_cli(&a, None).unwrap();
    assert_eq!(config.static_ip, Some(Ipv4Addr::new(10, 0, 0, 2)));
    assert_eq!(config.gateway, Some(Ipv4Addr::new(192, 168, 42, 129)));
    a.gateway = Some("10.0.0.1".to_string());
    a.netmask = Some("255.0.0.0".to_string());
    let config = TetherConfig::from_cli(&a, None).unwrap();
    assert_eq!(config.gateway, Some(Ipv4Addr::new(10, 0, 0, 1)));
    assert_eq!(config.netmask, Ipv4Addr::new(255, 0, 0, 0));
}

#[test]
fn addresses_that_cannot_be_read() {
    let mut a = args();
    a.static_ip = Some("10.0.0".to_string());
    a.gateway = Some("x".to_string());
    assert_eq!(
        config_error(TetherConfig::from_cli(&a, None).unwrap_err()),
        "invalid IP: 10.0.0"
    );
    a.static_ip = None;
    assert_eq!(
        config_error(TetherConfig::from_cli(&a, None).unwrap_err()),
        "invalid gateway: x"
    );
    a.gateway = None;
    a.netmask = Some("255.255.255.0 ".to_string());
    assert_eq!(
        config_error(TetherConfig::from_cli(&a, None).unwrap_err()),
        "invalid netmask: 255.255.255.0 "
    );
}

#[test]
fn file_is_read() {
    let config = with_file(
        "; a comment\n# another\n\n[Network]\r\n  no_route = true  \nno_dns=true\n\
         static_ip = 10.1.1.2\ngateway=10.1.1.1\nnetmask = 255.255.0.0\n\n[LOGGING]\nlevel = WARN",
    );
    assert!(config.no_route);
    assert!(config.no_dns);
    assert_eq!(config.static_ip, Some(Ipv4Addr::new(10, 1, 1, 2)));
    assert_eq!(config.gateway, Some(Ipv4Addr::new(10, 1, 1, 1)));
    assert_eq!(config.netmask, Ipv4Addr::new(255, 255, 0, 0));
    assert_eq!(config.log_level, LogLevel::Warn);
}

#[test]
fn lines_that_say_nothing() {
    let config = with_file(
        "no_route = true\n[network]\nNo_Route = true\nno_dns\nstatic_ip = \ngateway = 1.2.3\n\
         netmask = x\n[other]\nno_dns = true\n[network\nno_dns = true\nlevel = debug\n",
    );
    assert_eq!(config, TetherConfig::default());
}

#[test]
fn switches_go_before_the_file() {
    let file = "[network]\nno_route = false\nno_dns = false\n[logging]\nlevel=warn\n";
    let mut a = args();
    a.no_route = true;
    let config = TetherConfig::from_cli(&a, Some(file)).unwrap();
    assert!(config.no_route);
    assert!(!config.no_dns);
    assert_eq!(config.log_level, LogLevel::Warn);

    let mut a = args();
    a.no_dns = true;
    a.verbose = true;
    let config = TetherConfig::from_cli(&a, Some(file)).unwrap();
    assert!(!config.no_route);
    assert!(config.no_dns);
    assert_eq!(config.log_level, LogLevel::Debug);
}

#[test]
fn file_sets_what_switches_leave_open() {
    let config = with_file("[network]\nno_route = true\nno_dns = true\n[logging]\nlevel=debug\n");
    assert!(config.no_route);
    assert!(config.no_dns);
    assert_eq!(config.log_level, LogLevel::Debug);
    let config = with_file("[network]\nno_route = True\n[logging]\nlevel=nonsense\n");
    assert!(!config.no_route);
    assert_eq!(config.log_level, LogLevel::Info);
}

#[test]
fn names_are_looked_up_by_the_system_unless_told_otherwise() {
    let config = TetherConfig::from_cli(&args(), None).unwrap();
    assert_eq!(config.dns_mode, DnsMode::System);
    assert_eq!(config.dns_provider, DnsProvider::Cloudflare);
    let mut a = args();
    a.dns_mode = Some(DnsMode::DoH);
    let config = TetherConfig::from_cli(&a, Some("[network]\ndns_mode=dot\n")).unwrap();
    assert_eq!(config.dns_mode, DnsMode::DoH);
    assert_eq!(config.dns_provider, DnsProvider::Cloudflare);
}

#[test]
fn command_line_addresses_go_before_the_file() {
    let mut a = args();
    a.static_ip = Some("10.0.0.2".to_string());
    let config = TetherConfig::from_cli(
        &a,
        Some("[network]\nstatic_ip=1.1.1.1\ngateway=1.1.1.2\n"),
    )
    .unwrap();
    assert_eq!(config.static_ip, Some(Ipv4Addr::new(10, 0, 0, 2)));
    assert_eq!(config.gateway, Some(Ipv4Addr::new(1, 1, 1, 2)));
}

#[test]
fn section_names_are_lowered_as_unicode() {
    // The Kelvin sign becomes an ordinary letter.
    let config = with_file("[NETWOR\u{212A}]\nno_dns=true\n");
    assert!(config.no_dns);
}

#[test]
fn values_keep_their_equals_signs() {
    let config = with_file("[network]\nno_dns = = true\nno_route=true=\n");
    assert!(!config.no_dns && !config.no_route);
}

#[test]
fn one_setting_at_a_time() {
    let mut config = TetherConfig::default();
    config.apply_setting("network", "no_route", "true", "true");
    assert!(config.no_route);
    config.apply_setting("network", "no_route", "yes", "yes");
    assert!(!config.no_route);
    config.apply_setting("logging", "level", "DEBUG", "debug");
    assert_eq!(config.log_level, LogLevel::Debug);
    config.apply_setting("logging", "level", "DEBUG", "DEBUG");
    assert_eq!(config.log_level, LogLevel::Info);
    config.apply_setting("network", "level", "debug", "debug");
    assert_eq!(config.log_level, LogLevel::Info);
}

#[test]
fn levels() {
    assert_eq!(parse_level("debug"), LogLevel::Debug);
    assert_eq!(parse_level("info"), LogLevel::Info);
    assert_eq!(parse_level("warn"), LogLevel::Warn);
    assert_eq!(parse_level("error"), LogLevel::Error);
    assert_eq!(parse_level("trace"), LogLevel::Info);
}

#[test]
fn words_of_modes_and_providers() {
    for mode in [DnsMode::System, DnsMode::DoH, DnsMode::DoT] {
        assert_eq!(DnsMode::from_word(mode.to_word()), Some(mode));
    }
    for provider in [DnsProvider::Cloudflare, DnsProvider::Google, DnsProvider::Quad9] {
        assert_eq!(DnsProvider::from_word(provider.to_word()), Some(provider));
    }
    assert_eq!(DnsMode::from_word("DoH"), None);
    assert_eq!(DnsProvider::from_word(""), None);
}

#[test]
fn white_space_is_that_of_unicode() {
    for v in 0..=0x10FFFFu32 {
        if let Some(c) = char::from_u32(v) {
            assert_eq!(space(c), c.is_whitespace(), "{:x}", v);
        }
    }
}

#[test]
fn trimmed_ranges() {
    for s in ["", " ", "a", " a b\t", "\u{3000}x\u{85}", "  \n"] {
        let chars = chars_of(s);
        let (a, b) = trim_range(&chars, 0, chars.len());
        let trimmed: String = chars[a..b].iter().collect();
        assert_eq!(trimmed, s.trim());
    }
}

#[test]
fn numbers_as_text() {
    for n in [0u64, 7, 10, 99, 100, 65535, u64::MAX] {
        let mut s = "n=".to_string();
        append_decimal(&mut s, n);
        assert_eq!(s, format!("n={}", n));
        let mut s = String::new();
        append_prefixed_hex(&mut s, n);
        assert_eq!(s, format!("{:#x}", n));
    }
    let chars = chars_of("x123y");
    assert_eq!(parse_u16(&chars, 1, 4), Some(123));
    assert_eq!(parse_u16(&chars, 0, 4), None);
    assert!(same_text("ab", "ab"));
    assert!(!same_text("ab", "aB"));
}

#[test]
fn daemon_is_told_the_configuration() {
    let mut config = TetherConfig::default();
    assert_eq!(
        daemon_arguments(&config),
        vec!["--daemon", "--no-route", "--watch", "--dns-mode=system", "--dns-provider=cloudflare"]
    );
    config.static_ip = Some(Ipv4Addr::new(10, 0, 0, 2));
    config.gateway = Some(Ipv4Addr::new(10, 0, 0, 1));
    config.log_level = LogLevel::Debug;
    config.dns_mode = DnsMode::DoH;
    config.dns_provider = DnsProvider::Google;
    assert_eq!(dns_mode_flag(&config), "doh");
    assert_eq!(dns_provider_flag(&config), "google");
    assert_eq!(
        daemon_arguments(&config),
        vec![
            "--daemon",
            "--no-route",
            "--watch",
            "--dns-mode=doh",
            "--dns-provider=google",
            "--static=10.0.0.2",
            "--gateway=10.0.0.1",
            "--verbose"
        ]
    );
}

#[test]
fn known_phones() {
    let list = vid_pids();
    assert_eq!(list.len(), 20);
    assert_eq!(list[0], (0x18d1, 0x4eeb));
    assert_eq!(list[8], (0x22d9, 0x2766));
    assert_eq!(list[19], (0x1004, 0x633e));
}

#[test]
fn property_list() {
    let plist = install_daemon(&TetherConfig::default(), "/usr/local/bin/android-tether");
    assert!(plist.starts_with(
        "<?xml version=\"1.0\" encoding=\"UTF-8\"?>\n\
         <!DOCTYPE plist PUBLIC \"-//Apple//DTD PLIST 1.0//EN\"\n  \
         \"http://www.apple.com/DTDs/PropertyList-1.0.dtd\">\n<plist version=\"1.0\">\n<dict>\n    \
         <key>Label</key>\n    <string>com.tetherd.daemon</string>\n"
    ));
    assert!(plist.contains(
        "    <array>\n        <string>/usr/local/bin/android-tether</string>\n            \
         <string>--daemon</string>\n            <string>--no-route</string>\n            \
         <string>--watch</string>\n            <string>--dns-mode=system</string>\n            \
         <string>--dns-provider=cloudflare</string>\n    </array>\n    <key>LaunchEvents</key>\n"
    ));
    assert!(plist.contains(
        "            <array>\n                <dict>\n<key>idVendor</key>\n\
         <integer>6353</integer>\n<key>idProduct</key>\n<integer>20203</integer>\n\
         <key>IOProviderClass</key>\n<string>IOUSBDevice</string>\n</dict>\n                <dict>\n"
    ));
    assert!(plist.contains("<integer>25406</integer>\n<key>IOProviderClass</key>\n<string>IOUSBDevice</string>\n</dict>\n            </array>\n"));
    assert_eq!(plist.matches("<dict>").count(), 23);
    assert_eq!(plist.matches(LOG_FILE).count(), 2);
    assert!(plist.ends_with(
        "    <key>UserName</key>\n    <string>root</string>\n    <key>GroupName</key>\n    \
         <string>wheel</string>\n</dict>\n</plist>"
    ));
    // Without the line for it, the daemon takes over the default route.
    let without: Vec<&str> = plist.lines().filter(|l| !l.contains("--no-route")).collect();
    assert_eq!(without.len() + 1, plist.lines().count());
}

#[test]
fn commands_are_reported_once() {
    let mut server = IpcServer::new();
    assert_eq!(server.poll(), IpcCommand::Nothing);
    for word in ["status", "enable", "disable", "stop", "status", "nonsense", "STOP"] {
        server.submit(word);
    }
    assert_eq!(server.poll(), IpcCommand::Stop);
    assert_eq!(server.poll(), IpcCommand::Disable);
    assert_eq!(server.poll(), IpcCommand::Enable);
    assert_eq!(server.poll(), IpcCommand::Status);
    assert_eq!(server.poll(), IpcCommand::Nothing);
}

#[test]
fn counters() {
    let mut stats = SharedStats::default();
    stats.record_tx(100);
    stats.record_tx(50);
    stats.record_rx(7);
    let now = stats.snapshot();
    assert_eq!((now.tx_pkts, now.tx_bytes, now.rx_pkts, now.rx_bytes), (2, 150, 1, 7));
    let earlier = now;
    stats.record_rx(3);
    assert_eq!(stats.snapshot().bytes_since(&earlier), (0, 3));
    stats.rx_bytes = u64::MAX;
    stats.record_rx(2);
    assert_eq!(stats.rx_bytes, 1);
}

#[test]
fn level_of_the_daemon() {
    assert_eq!(daemon_level(LogLevel::Debug), LogLevel::Debug);
    assert_eq!(daemon_level(LogLevel::Info), LogLevel::Info);
    assert_eq!(daemon_level(LogLevel::Warn), LogLevel::Info);
    assert_eq!(daemon_level(LogLevel::Error), LogLevel::Info);
}

#[test]
fn case_of_sections_and_levels() {
    for header in ["[network]", "[NETWORK]", "[NetWork]"] {
        assert!(with_file(&format!("{header}\nno_route=true")).no_route);
    }
    for header in ["[network ]", "[net]", "network", "[]"] {
        assert!(!with_file(&format!("{header}\nno_route=true")).no_route);
    }
    for (word, level) in [
        ("debug", LogLevel::Debug),
        ("DEBUG", LogLevel::Debug),
        ("wArN", LogLevel::Warn),
        ("Error", LogLevel::Error),
        ("debug[", LogLevel::Info),
    ] {
        assert_eq!(with_file(&format!("[Logging]\nlevel={word}")).log_level, level);
    }
    // Keys are taken as they are written.
    assert!(!with_file("[network]\nNO_ROUTE=true").no_route);
}
