//! What the user has chosen, on the command line and in the configuration file.

use crate::error::{TetherError, TetherErrorView};
use crate::net_types::{
    gateway_default, lemma_ipv4_text_roundtrip, netmask_default, Ipv4Addr,
};
use crate::text::{
    ascii_lower, chars_of, find_char, find_from, is_ascii_text, is_capital, is_space,
    lemma_found_first, lemma_trimmed, same_text, trim, trim_range,
};
use vstd::prelude::*;

verus! {

/// Who answers DNS queries.
#[derive(Debug, Clone, Copy, PartialEq, Eq, Structural)]
pub enum DnsMode {
    /// The phone's resolver.
    System,
    /// A provider, over HTTPS.
    DoH,
    /// A provider, over TLS.
    DoT,
}

/// A provider of encrypted DNS.
#[derive(Debug, Clone, Copy, PartialEq, Eq, Structural)]
pub enum DnsProvider {
    Cloudflare,
    Google,
    Quad9,
}

/// How much is logged.
#[derive(Debug, Clone, Copy, PartialEq, Eq, Structural)]
pub enum LogLevel {
    Error,
    Warn,
    Info,
    Debug,
}

impl DnsMode {
    /// The word for a mode on the command line.
    pub open spec fn word(self) -> Seq<char> {
        match self {
            DnsMode::System => "system"@,
            DnsMode::DoH => "doh"@,
            DnsMode::DoT => "dot"@,
        }
    }

    /// The mode that a word on the command line stands for.
    pub fn from_word(s: &str) -> (r: Option<DnsMode>)
        ensures
            match r {
                Some(mode) => s@ == mode.word(),
                None => forall|mode: DnsMode| s@ != #[trigger] mode.word(),
            },
    {
        if same_text(s, "system") {
            Some(DnsMode::System)
        } else if same_text(s, "doh") {
            Some(DnsMode::DoH)
        } else if same_text(s, "dot") {
            Some(DnsMode::DoT)
        } else {
            None
        }
    }

    /// The word for a mode on the command line.
    pub fn to_word(&self) -> (r: &'static str)
        ensures
            r@ == self.word(),
    {
        match self {
            DnsMode::System => "system",
            DnsMode::DoH => "doh",
            DnsMode::DoT => "dot",
        }
    }
}

impl DnsProvider {
    /// The word for a provider on the command line.
    pub open spec fn word(self) -> Seq<char> {
        match self {
            DnsProvider::Cloudflare => "cloudflare"@,
            DnsProvider::Google => "google"@,
            DnsProvider::Quad9 => "quad9"@,
        }
    }

    /// The provider that a word on the command line stands for.
    pub fn from_word(s: &str) -> (r: Option<DnsProvider>)
        ensures
            match r {
                Some(provider) => s@ == provider.word(),
                None => forall|provider: DnsProvider| s@ != #[trigger] provider.word(),
            },
    {
        if same_text(s, "cloudflare") {
            Some(DnsProvider::Cloudflare)
        } else if same_text(s, "google") {
            Some(DnsProvider::Google)
        } else if same_text(s, "quad9") {
            Some(DnsProvider::Quad9)
        } else {
            None
        }
    }

    /// The word for a provider on the command line.
    pub fn to_word(&self) -> (r: &'static str)
        ensures
            r@ == self.word(),
    {
        match self {
            DnsProvider::Cloudflare => "cloudflare",
            DnsProvider::Google => "google",
            DnsProvider::Quad9 => "quad9",
        }
    }
}

/// No two modes share a word, so a word that is written for a mode is read as
/// that mode.
pub proof fn lemma_mode_words_differ(a: DnsMode, b: DnsMode)
    requires
        a.word() == b.word(),
    ensures
        a == b,
{
    reveal_strlit("system");
    reveal_strlit("doh");
    reveal_strlit("dot");
    assert("doh"@[1] == 'o' && "doh"@[2] == 'h' && "dot"@[2] == 't');
    assert("system"@.len() == 6);
}

/// No two providers share a word, so a word that is written for a provider is
/// read as that provider.
pub proof fn lemma_provider_words_differ(a: DnsProvider, b: DnsProvider)
    requires
        a.word() == b.word(),
    ensures
        a == b,
{
    reveal_strlit("cloudflare");
    reveal_strlit("google");
    reveal_strlit("quad9");
    assert("cloudflare"@.len() == 10 && "google"@.len() == 6 && "quad9"@.len() == 5);
}

/// What stands on the command line.
#[derive(Debug)]
pub struct CliArgs {
    pub no_route: bool,
    pub no_dns: bool,
    pub static_ip: Option<String>,
    pub gateway: Option<String>,
    pub netmask: Option<String>,
    pub config: Option<String>,
    pub verbose: bool,
    pub watch: bool,
    pub dns_mode: Option<DnsMode>,
    pub dns_provider: Option<DnsProvider>,
    pub install: bool,
    pub uninstall: bool,
    pub daemon: bool,
}

/// What the user has chosen.
#[derive(Debug, Clone, Copy, PartialEq, Eq, Structural)]
pub struct TetherConfig {
    pub no_route: bool,
    pub no_dns: bool,
    pub static_ip: Option<Ipv4Addr>,
    pub gateway: Option<Ipv4Addr>,
    pub netmask: Ipv4Addr,
    pub log_level: LogLevel,
    pub watch_mode: bool,
    pub dns_mode: DnsMode,
    pub dns_provider: DnsProvider,
    pub install: bool,
    pub uninstall: bool,
    pub daemon: bool,
}

/// What holds where the user has chosen nothing.
pub open spec fn default_config() -> TetherConfig {
    TetherConfig {
        no_route: false,
        no_dns: false,
        static_ip: None,
        gateway: None,
        netmask: netmask_default(),
        log_level: LogLevel::Info,
        watch_mode: false,
        dns_mode: DnsMode::System,
        dns_provider: DnsProvider::Cloudflare,
        install: false,
        uninstall: false,
        daemon: false,
    }
}

impl Default for TetherConfig {
    fn default() -> (r: Self)
        ensures
            r == default_config(),
    {
        TetherConfig {
            no_route: false,
            no_dns: false,
            static_ip: None,
            gateway: None,
            netmask: Ipv4Addr { bits: 0xFFFF_FF00 },
            log_level: LogLevel::Info,
            watch_mode: false,
            dns_mode: DnsMode::System,
            dns_provider: DnsProvider::Cloudflare,
            install: false,
            uninstall: false,
            daemon: false,
        }
    }
}

/// What `str::to_lowercase` makes of a text.
pub uninterp spec fn lowercase(s: Seq<char>) -> Seq<char>;

/// `str::to_lowercase` returns the text in lower case, which depends on the
/// text alone. In a text of ASCII it changes the capital letters, each to its
/// small letter, and nothing else.
#[verifier::external_body]
fn to_lower(s: &str) -> (r: String)
    ensures
        r@ == lowercase(s@),
        is_ascii_text(s@) ==> r@ == ascii_lower(s@),
{
    s.to_lowercase()
}

/// A text in lower case.
pub open spec fn lower_text(s: Seq<char>) -> Seq<char> {
    if is_ascii_text(s) {
        ascii_lower(s)
    } else {
        lowercase(s)
    }
}

/// The level that a word in lower case stands for.
pub open spec fn level_of(word: Seq<char>) -> LogLevel {
    if word == "debug"@ {
        LogLevel::Debug
    } else if word == "info"@ {
        LogLevel::Info
    } else if word == "warn"@ {
        LogLevel::Warn
    } else if word == "error"@ {
        LogLevel::Error
    } else {
        LogLevel::Info
    }
}

/// `old`, or what an address says, where it can be read.
pub open spec fn read_over(old_ip: Option<Ipv4Addr>, val: Seq<char>) -> Option<Ipv4Addr> {
    match Ipv4Addr::from_text(val) {
        Some(ip) => Some(ip),
        None => old_ip,
    }
}

/// The configuration after one setting of the file. `section` and `lowered`,
/// the value, are in lower case.
pub open spec fn with_setting(
    config: TetherConfig,
    section: Seq<char>,
    key: Seq<char>,
    val: Seq<char>,
    lowered: Seq<char>,
) -> TetherConfig {
    if section == "network"@ && key == "no_route"@ {
        TetherConfig { no_route: val == "true"@, ..config }
    } else if section == "network"@ && key == "no_dns"@ {
        TetherConfig { no_dns: val == "true"@, ..config }
    } else if section == "network"@ && key == "static_ip"@ {
        TetherConfig { static_ip: read_over(config.static_ip, val), ..config }
    } else if section == "network"@ && key == "gateway"@ {
        TetherConfig { gateway: read_over(config.gateway, val), ..config }
    } else if section == "network"@ && key == "netmask"@ {
        TetherConfig { netmask: read_over(Some(config.netmask), val)->0, ..config }
    } else if section == "logging"@ && key == "level"@ {
        TetherConfig { log_level: level_of(lowered), ..config }
    } else {
        config
    }
}

/// What one line of the file says.
pub enum IniLine {
    /// Nothing: it is empty, a comment, or neither of the following.
    Blank,
    /// A section begins; its name as it is written.
    Section(Seq<char>),
    /// A setting; its key and its value.
    Setting(Seq<char>, Seq<char>),
}

/// What one line of the file says.
pub open spec fn read_line(raw: Seq<char>) -> IniLine {
    let line = trim(raw);
    let eq = find_from(line, '=', 0);
    if line.len() == 0 || line[0] == ';' || line[0] == '#' {
        IniLine::Blank
    } else if line[0] == '[' && line.last() == ']' {
        IniLine::Section(line.subrange(1, line.len() - 1))
    } else if eq < line.len() {
        IniLine::Setting(
            trim(line.subrange(0, eq)),
            trim(line.subrange(eq + 1, line.len() as int)),
        )
    } else {
        IniLine::Blank
    }
}

/// The current section, in lower case, and the configuration so far.
pub struct IniState {
    pub section: Seq<char>,
    pub config: TetherConfig,
}

/// The state after one line.
pub open spec fn after_line(state: IniState, raw: Seq<char>) -> IniState {
    match read_line(raw) {
        IniLine::Blank => state,
        IniLine::Section(name) => IniState { section: lower_text(name), ..state },
        IniLine::Setting(key, val) => IniState {
            config: with_setting(state.config, state.section, key, val, lower_text(val)),
            ..state
        },
    }
}

/// The state after the lines from position `i` on.
pub open spec fn after_lines(state: IniState, s: Seq<char>, i: int) -> IniState
    decreases s.len() - i,
{
    let end = find_from(s, '\n', i);
    if i < 0 || i > s.len() || end < i {
        state
    } else {
        let next = after_line(state, s.subrange(i, end));
        if end >= s.len() {
            next
        } else {
            after_lines(next, s, end + 1)
        }
    }
}

/// The configuration after the file has been read.
pub open spec fn with_file(config: TetherConfig, contents: Seq<char>) -> TetherConfig {
    after_lines(IniState { section: Seq::empty(), config }, contents, 0).config
}

proof fn lemma_find_shift(s: Seq<char>, c: char, a: int, i: int)
    requires
        0 <= a <= a + i <= s.len(),
    ensures
        find_from(s, c, a + i) == a + find_from(s.subrange(a, s.len() as int), c, i),
        a + i <= find_from(s, c, a + i) <= s.len(),
    decreases s.len() - a - i,
{
    let t = s.subrange(a, s.len() as int);
    if a + i < s.len() {
        assert(t[i] == s[a + i]);
        if s[a + i] != c {
            lemma_find_shift(s, c, a, i + 1);
        }
    }
}

/// The level that a word in lower case stands for.
pub fn parse_level(word: &str) -> (r: LogLevel)
    ensures
        r == level_of(word@),
{
    if same_text(word, "debug") {
        LogLevel::Debug
    } else if same_text(word, "info") {
        LogLevel::Info
    } else if same_text(word, "warn") {
        LogLevel::Warn
    } else if same_text(word, "error") {
        LogLevel::Error
    } else {
        LogLevel::Info
    }
}

/// The error for an address on the command line that cannot be read.
pub open spec fn bad_address(label: Seq<char>, s: Seq<char>) -> TetherErrorView {
    TetherErrorView::Config(label + s)
}

/// The address that an argument of the command line gives, if the argument is
/// there.
pub open spec fn argument_address(arg: Option<String>, label: Seq<char>) -> Result<
    Option<Ipv4Addr>,
    TetherErrorView,
> {
    match arg {
        None => Ok(None),
        Some(s) => match Ipv4Addr::from_text(s@) {
            Some(ip) => Ok(Some(ip)),
            None => Err(bad_address(label, s@)),
        },
    }
}

/// An address, or the one in its place where it is not there.
pub open spec fn or_else(ip: Option<Ipv4Addr>, other: Option<Ipv4Addr>) -> Option<Ipv4Addr> {
    match ip {
        Some(a) => Some(a),
        None => other,
    }
}

/// The configuration from the command line alone, before the file and the
/// addresses are looked at. Names are looked up with the system's servers, and
/// the provider is Cloudflare, unless the command line says otherwise.
pub open spec fn with_options(args: CliArgs) -> TetherConfig {
    TetherConfig {
        watch_mode: args.watch,
        dns_mode: match args.dns_mode {
            Some(mode) => mode,
            None => DnsMode::System,
        },
        dns_provider: match args.dns_provider {
            Some(provider) => provider,
            None => DnsProvider::Cloudflare,
        },
        install: args.install,
        uninstall: args.uninstall,
        daemon: args.daemon,
        ..default_config()
    }
}

/// The configuration from the switches of the command line and the file. A
/// switch that is set holds whatever the file says.
pub open spec fn with_switches(args: CliArgs, file: Option<Seq<char>>) -> TetherConfig {
    let config = match file {
        Some(contents) => with_file(with_options(args), contents),
        None => with_options(args),
    };
    TetherConfig {
        no_route: config.no_route || args.no_route,
        no_dns: config.no_dns || args.no_dns,
        log_level: if args.verbose {
            LogLevel::Debug
        } else {
            config.log_level
        },
        ..config
    }
}

/// The configuration with the addresses that stand on the command line. A static
/// address without a gateway gets the default one.
pub open spec fn with_addresses(
    config: TetherConfig,
    ip: Option<Ipv4Addr>,
    gateway: Option<Ipv4Addr>,
    netmask: Option<Ipv4Addr>,
) -> TetherConfig {
    let static_ip = or_else(ip, config.static_ip);
    let chosen = or_else(gateway, config.gateway);
    TetherConfig {
        static_ip,
        gateway: if static_ip is Some && chosen is None {
            Some(gateway_default())
        } else {
            chosen
        },
        netmask: or_else(netmask, Some(config.netmask))->0,
        ..config
    }
}

/// The configuration from the command line and the file, or what is wrong with
/// the command line.
pub open spec fn configured(args: CliArgs, file: Option<Seq<char>>) -> Result<
    TetherConfig,
    TetherErrorView,
> {
    let config = with_switches(args, file);
    match argument_address(args.static_ip, "invalid IP: "@) {
        Err(e) => Err(e),
        Ok(ip) => match argument_address(args.gateway, "invalid gateway: "@) {
            Err(e) => Err(e),
            Ok(gateway) => match argument_address(args.netmask, "invalid netmask: "@) {
                Err(e) => Err(e),
                Ok(netmask) => Ok(with_addresses(config, ip, gateway, netmask)),
            },
        },
    }
}

/// What a file holds, where there is one.
pub open spec fn text_view(file: Option<&str>) -> Option<Seq<char>> {
    match file {
        Some(contents) => Some(contents@),
        None => None,
    }
}

fn read_argument(arg: &Option<String>, label: &str) -> (r: Result<Option<Ipv4Addr>, TetherError>)
    ensures
        match argument_address(*arg, label@) {
            Ok(ip) => r == Ok::<Option<Ipv4Addr>, TetherError>(ip),
            Err(e) => r matches Err(x) && x@ == e,
        },
{
    match arg {
        None => Ok(None),
        Some(s) => match Ipv4Addr::parse(s.as_str()) {
            Some(ip) => Ok(Some(ip)),
            None => {
                let mut text = label.to_owned();
                text.append(s.as_str());
                Err(TetherError::Config(text))
            },
        },
    }
}

impl TetherConfig {
    /// The configuration from the command line and from what the configuration
    /// file holds, where there is one.
    pub fn from_cli(args: &CliArgs, file: Option<&str>) -> (r: Result<Self, TetherError>)
        ensures
            match configured(*args, text_view(file)) {
                Ok(config) => r == Ok::<Self, TetherError>(config),
                Err(e) => r matches Err(x) && x@ == e,
            },
    {
        let mut config = TetherConfig::from_switches(args, file);
        let static_ip = match read_argument(&args.static_ip, "invalid IP: ") {
            Err(e) => return Err(e),
            Ok(ip) => ip,
        };
        let gateway = match read_argument(&args.gateway, "invalid gateway: ") {
            Err(e) => return Err(e),
            Ok(ip) => ip,
        };
        let netmask = match read_argument(&args.netmask, "invalid netmask: ") {
            Err(e) => return Err(e),
            Ok(ip) => ip,
        };
        config.set_addresses(static_ip, gateway, netmask);
        Ok(config)
    }

    fn set_addresses(
        &mut self,
        static_ip: Option<Ipv4Addr>,
        gateway: Option<Ipv4Addr>,
        netmask: Option<Ipv4Addr>,
    )
        ensures
            *final(self) == with_addresses(*old(self), static_ip, gateway, netmask),
    {
        if static_ip.is_some() {
            self.static_ip = static_ip;
        }
        if gateway.is_some() {
            self.gateway = gateway;
        }
        if let Some(mask) = netmask {
            self.netmask = mask;
        }
        if self.static_ip.is_some() && self.gateway.is_none() {
            self.gateway = Some(Ipv4Addr { bits: 0xC0A8_2A81 });
        }
    }

    fn from_switches(args: &CliArgs, file: Option<&str>) -> (r: Self)
        ensures
            r == with_switches(*args, text_view(file)),
    {
        let d = TetherConfig::default();
        let mut config = TetherConfig {
            watch_mode: args.watch,
            dns_mode: match args.dns_mode {
                Some(mode) => mode,
                None => DnsMode::System,
            },
            dns_provider: match args.dns_provider {
                Some(provider) => provider,
                None => DnsProvider::Cloudflare,
            },
            install: args.install,
            uninstall: args.uninstall,
            daemon: args.daemon,
            ..d
        };
        if let Some(contents) = file {
            config.merge_ini(contents);
        }
        if args.no_route {
            config.no_route = true;
        }
        if args.no_dns {
            config.no_dns = true;
        }
        if args.verbose {
            config.log_level = LogLevel::Debug;
        }
        config
    }

    /// Takes over one setting of the file. `section` and `lowered`, the value,
    /// are in lower case.
    pub fn apply_setting(&mut self, section: &str, key: &str, val: &str, lowered: &str)
        ensures
            *final(self) == with_setting(*old(self), section@, key@, val@, lowered@),
    {
        if same_text(section, "network") {
            if same_text(key, "no_route") {
                self.no_route = same_text(val, "true");
                return ;
            }
            if same_text(key, "no_dns") {
                self.no_dns = same_text(val, "true");
                return ;
            }
            if same_text(key, "static_ip") {
                if let Some(ip) = Ipv4Addr::parse(val) {
                    self.static_ip = Some(ip);
                }
                return ;
            }
            if same_text(key, "gateway") {
                if let Some(ip) = Ipv4Addr::parse(val) {
                    self.gateway = Some(ip);
                }
                return ;
            }
            if same_text(key, "netmask") {
                if let Some(ip) = Ipv4Addr::parse(val) {
                    self.netmask = ip;
                }
                return ;
            }
        }
        if same_text(section, "logging") && same_text(key, "level") {
            self.log_level = parse_level(lowered);
        }
    }

    /// Takes over what the configuration file says.
    pub fn merge_ini(&mut self, contents: &str)
        ensures
            *final(self) == with_file(*old(self), contents@),
    {
        let chars = chars_of(contents);
        let s: &[char] = chars.as_slice();
        let n = s.len();
        let mut section = String::new();
        let mut at: usize = 0;
        let mut more = true;
        let ghost start = IniState { section: Seq::empty(), config: *self };
        assert(section@ =~= start.section);
        while more
            invariant
                n == s@.len(),
                s@ == contents@,
                at <= n,
                more ==> after_lines(start, s@, 0) == after_lines(
                    IniState { section: section@, config: *self },
                    s@,
                    at as int,
                ),
                !more ==> after_lines(start, s@, 0) == (IniState {
                    section: section@,
                    config: *self,
                }),
            decreases
                    (if more {
                        1int
                    } else {
                        0int
                    }),
                    n - at,
        {
            let end = find_char(s, '\n', at, n);
            let ghost raw = s@.subrange(at as int, end as int);
            let ghost before = IniState { section: section@, config: *self };
            proof {
                lemma_find_shift(s@, '\n', at as int, 0);
            }
            let (a, b) = trim_range(s, at, end);
            let ghost line = trim(raw);
            assert(line.len() == b - a);
            assert(forall|k: int| 0 <= k < b - a ==> line[k] == s@[a + k]);
            if a < b && s[a] != ';' && s[a] != '#' {
                if s[a] == '[' && s[b - 1] == ']' {
                    let name = contents.substring_char(a + 1, b - 1);
                    assert(name@ =~= line.subrange(1, line.len() - 1));
                    section = to_lower(name);
                } else {
                    let eq = find_char(s, '=', a, b);
                    if eq < b {
                        let (ka, kb) = trim_range(s, a, eq);
                        let (va, vb) = trim_range(s, eq + 1, b);
                        let key = contents.substring_char(ka, kb);
                        let val = contents.substring_char(va, vb);
                        assert(s@.subrange(a as int, eq as int) =~= line.subrange(0, eq - a));
                        assert(s@.subrange(eq + 1, b as int) =~= line.subrange(
                            eq - a + 1,
                            line.len() as int,
                        ));
                        let lowered = to_lower(val);
                        self.apply_setting(section.as_str(), key, val, lowered.as_str());
                    }
                }
            }
            assert(after_line(before, raw) == (IniState { section: section@, config: *self }));
            if end < n {
                at = end + 1;
            } else {
                more = false;
            }
        }
    }
}

/// A static address never comes without a gateway. What stands on the command
/// line goes before what the file holds: an address, a switch that is set, the
/// DNS mode and the provider.
pub proof fn lemma_command_line_wins(args: CliArgs, file: Option<Seq<char>>)
    requires
        configured(args, file) is Ok,
    ensures
        ({
            let config = configured(args, file)->Ok_0;
            &&& config.static_ip is Some ==> config.gateway is Some
            &&& args.static_ip matches Some(s) ==> config.static_ip == Ipv4Addr::from_text(s@)
            &&& args.gateway matches Some(s) ==> config.gateway == Ipv4Addr::from_text(s@)
            &&& args.netmask matches Some(s) ==> Some(config.netmask) == Ipv4Addr::from_text(s@)
            &&& args.no_route ==> config.no_route
            &&& args.no_dns ==> config.no_dns
            &&& args.verbose ==> config.log_level == LogLevel::Debug
            &&& config.dns_mode == (match args.dns_mode {
                Some(mode) => mode,
                None => DnsMode::System,
            })
            &&& config.dns_provider == (match args.dns_provider {
                Some(provider) => provider,
                None => DnsProvider::Cloudflare,
            })
        }),
{
    if let Some(contents) = file {
        lemma_file_is_limited(with_options(args), contents);
    }
}

/// Whatever the configuration file holds, it decides only over routes, name
/// servers, addresses and logging.
pub proof fn lemma_file_is_limited(config: TetherConfig, contents: Seq<char>)
    ensures
        ({
            let after = with_file(config, contents);
            &&& after.watch_mode == config.watch_mode
            &&& after.dns_mode == config.dns_mode
            &&& after.dns_provider == config.dns_provider
            &&& after.install == config.install
            &&& after.uninstall == config.uninstall
            &&& after.daemon == config.daemon
        }),
{
    lemma_lines_are_limited(IniState { section: Seq::empty(), config }, contents, 0);
}

proof fn lemma_lines_are_limited(state: IniState, s: Seq<char>, i: int)
    ensures
        ({
            let after = after_lines(state, s, i).config;
            &&& after.watch_mode == state.config.watch_mode
            &&& after.dns_mode == state.config.dns_mode
            &&& after.dns_provider == state.config.dns_provider
            &&& after.install == state.config.install
            &&& after.uninstall == state.config.uninstall
            &&& after.daemon == state.config.daemon
        }),
    decreases s.len() - i,
{
    let end = find_from(s, '\n', i);
    if 0 <= i <= s.len() && end >= i {
        let next = after_line(state, s.subrange(i, end));
        if end < s.len() {
            lemma_lines_are_limited(next, s, end + 1);
        }
    }
}

/// A name in brackets opens the section of that name in lower case, and changes
/// nothing else. A name of ASCII without capital letters is its own lower case.
pub proof fn lemma_header_opens_section(state: IniState, name: Seq<char>)
    ensures
        after_line(state, seq!['['] + name + seq![']']) == (IniState {
            section: lower_text(name),
            ..state
        }),
        is_ascii_text(name) && (forall|i: int|
            0 <= i < name.len() ==> !is_capital(#[trigger] name[i])) ==> lower_text(name) == name,
{
    let line = seq!['['] + name + seq![']'];
    assert(line.first() == '[' && line.last() == ']');
    assert(trim(line) == line);
    assert(line.subrange(1, line.len() - 1) =~= name);
    if forall|i: int| 0 <= i < name.len() ==> !is_capital(#[trigger] name[i]) {
        assert(ascii_lower(name) =~= name);
    }
}

/// Texts of ASCII that differ in case only open the same section and give the
/// same level.
pub proof fn lemma_case_does_not_matter(state: IniState, a: Seq<char>, b: Seq<char>)
    requires
        is_ascii_text(a),
        is_ascii_text(b),
        ascii_lower(a) == ascii_lower(b),
    ensures
        after_line(state, seq!['['] + a + seq![']']) == after_line(
            state,
            seq!['['] + b + seq![']'],
        ),
        level_of(lower_text(a)) == level_of(lower_text(b)),
{
    lemma_header_opens_section(state, a);
    lemma_header_opens_section(state, b);
}

proof fn lemma_find_first(s: Seq<char>, c: char, i: int, j: int)
    requires
        0 <= i <= j <= s.len(),
        forall|k: int| i <= k < j ==> s[k] != c,
        j == s.len() || s[j] == c,
    ensures
        find_from(s, c, i) == j,
    decreases j - i,
{
    if i < j {
        lemma_find_first(s, c, i + 1, j);
    }
}

/// A line of a key, an equals sign and a value is a setting of that key to that
/// value. The key is a word that holds no equals sign and does not begin as a
/// comment or a header does; neither it nor the value has white space around it.
pub proof fn lemma_line_is_setting(key: Seq<char>, val: Seq<char>)
    requires
        key.len() > 0,
        key[0] != ';' && key[0] != '#' && key[0] != '[',
        !is_space(key.first()) && !is_space(key.last()),
        !key.contains('='),
        val.len() > 0 ==> !is_space(val.first()) && !is_space(val.last()),
    ensures
        read_line(key + seq!['='] + val) == IniLine::Setting(key, val),
{
    let line = key + seq!['='] + val;
    assert(line.first() == key.first());
    assert(line.last() == (if val.len() > 0 {
        val.last()
    } else {
        '='
    }));
    assert(trim(line) == line);
    assert forall|k: int| 0 <= k < key.len() implies line[k] != '=' by {
        assert(key.contains(key[k]));
    }
    lemma_find_first(line, '=', 0, key.len() as int);
    assert(line.subrange(0, key.len() as int) =~= key);
    assert(line.subrange(key.len() + 1int, line.len() as int) =~= val);
    assert(trim(key) == key);
    assert(trim(val) == val);
}

/// A setting under the header of a section takes effect there, with the name of
/// the section in lower case.
pub proof fn lemma_setting_under_header(
    config: TetherConfig,
    name: Seq<char>,
    key: Seq<char>,
    val: Seq<char>,
)
    requires
        !name.contains('\n') && !key.contains('\n') && !val.contains('\n'),
        key.len() > 0,
        key[0] != ';' && key[0] != '#' && key[0] != '[',
        !is_space(key.first()) && !is_space(key.last()),
        !key.contains('='),
        val.len() > 0 ==> !is_space(val.first()) && !is_space(val.last()),
    ensures
        with_file(
            config,
            seq!['['] + name + seq![']'] + seq!['\n'] + (key + seq!['='] + val),
        ) == with_setting(config, lower_text(name), key, val, lower_text(val)),
{
    let header = seq!['['] + name + seq![']'];
    let line = key + seq!['='] + val;
    let s = header + seq!['\n'] + line;
    let n = header.len() as int;
    let start = IniState { section: Seq::empty(), config };
    assert forall|k: int| 0 <= k < n implies s[k] != '\n' by {
        if 0 < k < n - 1 {
            assert(name.contains(name[k - 1]));
            assert(s[k] == name[k - 1]);
        }
    }
    lemma_find_first(s, '\n', 0, n);
    assert(s.subrange(0, n) =~= header);
    lemma_header_opens_section(start, name);
    let opened = after_line(start, header);
    assert forall|k: int| n + 1 <= k < s.len() implies s[k] != '\n' by {
        let j = k - n - 1;
        assert(s[k] == line[j]);
        if j < key.len() {
            assert(key.contains(key[j]));
        } else if j > key.len() {
            assert(val.contains(val[j - key.len() - 1]));
        }
    }
    lemma_find_first(s, '\n', n + 1, s.len() as int);
    assert(s.subrange(n + 1, s.len() as int) =~= line);
    lemma_line_is_setting(key, val);
    assert(after_lines(opened, s, n + 1) == after_line(opened, line));
    assert(after_lines(start, s, 0) == after_lines(opened, s, n + 1));
}

/// What each setting of the file does: it changes its own part of the
/// configuration and no other. A switch is on exactly for the word `true`, an
/// address is taken if it can be read, and a level by its word.
pub proof fn lemma_settings_take_effect(
    config: TetherConfig,
    val: Seq<char>,
    lowered: Seq<char>,
    ip: Ipv4Addr,
)
    ensures
        with_setting(config, "network"@, "no_route"@, val, lowered) == (TetherConfig {
            no_route: val == "true"@,
            ..config
        }),
        with_setting(config, "network"@, "no_dns"@, val, lowered) == (TetherConfig {
            no_dns: val == "true"@,
            ..config
        }),
        with_setting(config, "network"@, "static_ip"@, ip.text(), lowered) == (TetherConfig {
            static_ip: Some(ip),
            ..config
        }),
        with_setting(config, "network"@, "gateway"@, ip.text(), lowered) == (TetherConfig {
            gateway: Some(ip),
            ..config
        }),
        with_setting(config, "network"@, "netmask"@, ip.text(), lowered) == (TetherConfig {
            netmask: ip,
            ..config
        }),
        Ipv4Addr::from_text(val) is None ==> {
            &&& with_setting(config, "network"@, "static_ip"@, val, lowered) == config
            &&& with_setting(config, "network"@, "gateway"@, val, lowered) == config
            &&& with_setting(config, "network"@, "netmask"@, val, lowered) == config
        },
        with_setting(config, "logging"@, "level"@, val, "debug"@) == (TetherConfig {
            log_level: LogLevel::Debug,
            ..config
        }),
        with_setting(config, "logging"@, "level"@, val, "info"@) == (TetherConfig {
            log_level: LogLevel::Info,
            ..config
        }),
        with_setting(config, "logging"@, "level"@, val, "warn"@) == (TetherConfig {
            log_level: LogLevel::Warn,
            ..config
        }),
        with_setting(config, "logging"@, "level"@, val, "error"@) == (TetherConfig {
            log_level: LogLevel::Error,
            ..config
        }),
        lowered != "debug"@ && lowered != "warn"@ && lowered != "error"@ ==> with_setting(
            config,
            "logging"@,
            "level"@,
            val,
            lowered,
        ) == (TetherConfig { log_level: LogLevel::Info, ..config }),
{
    reveal_strlit("network");
    reveal_strlit("logging");
    reveal_strlit("no_route");
    reveal_strlit("no_dns");
    reveal_strlit("static_ip");
    reveal_strlit("gateway");
    reveal_strlit("netmask");
    reveal_strlit("level");
    reveal_strlit("debug");
    reveal_strlit("info");
    reveal_strlit("warn");
    reveal_strlit("error");
    assert("network"@[0] == 'n' && "logging"@[0] == 'l');
    assert("no_route"@.len() == 8 && "no_dns"@.len() == 6 && "static_ip"@.len() == 9);
    assert("gateway"@.len() == 7 && "netmask"@.len() == 7 && "level"@.len() == 5);
    assert("gateway"@[0] == 'g' && "netmask"@[0] == 'n');
    assert("debug"@[0] == 'd' && "info"@[0] == 'i' && "warn"@[0] == 'w' && "error"@[0] == 'e');
    lemma_ipv4_text_roundtrip(ip);
}

/// Settings of other sections and of other names do nothing.
pub proof fn lemma_other_settings_do_nothing(
    config: TetherConfig,
    section: Seq<char>,
    key: Seq<char>,
    val: Seq<char>,
    lowered: Seq<char>,
)
    requires
        section == "network"@ ==> key != "no_route"@ && key != "no_dns"@ && key != "static_ip"@
            && key != "gateway"@ && key != "netmask"@,
        section == "logging"@ ==> key != "level"@,
    ensures
        with_setting(config, section, key, val, lowered) == config,
{
}

proof fn lemma_lines_shift(state: IniState, p: Seq<char>, s: Seq<char>, i: int)
    requires
        0 <= i <= s.len(),
    ensures
        after_lines(state, p + s, p.len() + i) == after_lines(state, s, i),
    decreases s.len() - i,
{
    let t = p + s;
    let n = p.len() as int;
    lemma_find_shift(t, '\n', n, i);
    assert(t.subrange(n, t.len() as int) =~= s);
    let end = find_from(s, '\n', i);
    assert(find_from(t, '\n', n + i) == n + end);
    assert(t.subrange(n + i, n + end) =~= s.subrange(i, end));
    if end < s.len() {
        lemma_lines_shift(after_line(state, s.subrange(i, end)), p, s, end + 1);
    }
}

proof fn lemma_lines_add(state: IniState, a: Seq<char>, b: Seq<char>, i: int)
    requires
        0 <= i <= a.len(),
    ensures
        after_lines(state, a + seq!['\n'] + b, i) == after_lines(
            after_lines(state, a, i),
            b,
            0,
        ),
    decreases a.len() - i,
{
    let t = a + seq!['\n'] + b;
    lemma_found_first(a, '\n', i);
    let end = find_from(a, '\n', i);
    assert forall|k: int| i <= k < end implies t[k] != '\n' by {
        assert(t[k] == a[k]);
    }
    assert(t[end] == '\n');
    lemma_find_first(t, '\n', i, end);
    assert(t.subrange(i, end) =~= a.subrange(i, end));
    let next = after_line(state, a.subrange(i, end));
    if end < a.len() {
        lemma_lines_add(next, a, b, end + 1);
    } else {
        lemma_lines_shift(next, a + seq!['\n'], b, 0);
    }
}

/// A file is read line by line: what stands before a line break is read first,
/// and what stands behind it is read from where that has led to. A text without
/// line breaks is one line.
pub proof fn lemma_lines_one_by_one(state: IniState, a: Seq<char>, b: Seq<char>)
    ensures
        after_lines(state, a + seq!['\n'] + b, 0) == after_lines(
            after_lines(state, a, 0),
            b,
            0,
        ),
        !a.contains('\n') ==> after_lines(state, a, 0) == after_line(state, a),
{
    lemma_lines_add(state, a, b, 0);
    if !a.contains('\n') {
        assert forall|k: int| 0 <= k < a.len() implies a[k] != '\n' by {
            assert(a.contains(a[k]));
        }
        lemma_find_first(a, '\n', 0, a.len() as int);
        assert(a.subrange(0, a.len() as int) =~= a);
    }
}

/// White space around a line does not matter. Lines that are empty, comments, and
/// lines that are neither headers nor settings say nothing.
pub proof fn lemma_lines_that_say_nothing(
    state: IniState,
    before: Seq<char>,
    line: Seq<char>,
    after: Seq<char>,
)
    requires
        forall|i: int| 0 <= i < before.len() ==> is_space(#[trigger] before[i]),
        forall|i: int| 0 <= i < after.len() ==> is_space(#[trigger] after[i]),
        line.len() > 0 ==> !is_space(line.first()) && !is_space(line.last()),
    ensures
        after_line(state, before + line + after) == after_line(state, line),
        line.len() == 0 || line[0] == ';' || line[0] == '#' ==> after_line(state, line) == state,
        !line.contains('=') && !(line.len() > 0 && line[0] == '[' && line.last() == ']')
            ==> after_line(state, line) == state,
{
    lemma_trimmed(before, line, after);
    lemma_trimmed(Seq::empty(), line, Seq::empty());
    assert(Seq::<char>::empty() + line + Seq::<char>::empty() =~= line);
    if !line.contains('=') {
        assert forall|k: int| 0 <= k < line.len() implies line[k] != '=' by {
            assert(line.contains(line[k]));
        }
        lemma_find_first(line, '=', 0, line.len() as int);
    }
}

/// A setting counts whatever white space stands around its key and its value.
pub proof fn lemma_space_around_settings(
    key: Seq<char>,
    val: Seq<char>,
    gap1: Seq<char>,
    gap2: Seq<char>,
)
    requires
        key.len() > 0,
        key[0] != ';' && key[0] != '#' && key[0] != '[',
        !is_space(key.first()) && !is_space(key.last()),
        !key.contains('='),
        val.len() > 0,
        !is_space(val.first()) && !is_space(val.last()),
        forall|i: int| 0 <= i < gap1.len() ==> is_space(#[trigger] gap1[i]),
        forall|i: int| 0 <= i < gap2.len() ==> is_space(#[trigger] gap2[i]),
    ensures
        read_line(key + gap1 + seq!['='] + (gap2 + val)) == IniLine::Setting(key, val),
{
    let line = key + gap1 + seq!['='] + (gap2 + val);
    assert(line.first() == key.first());
    assert(line.last() == val.last());
    assert(trim(line) == line);
    let n = (key.len() + gap1.len()) as int;
    assert forall|k: int| 0 <= k < n implies line[k] != '=' by {
        if k < key.len() {
            assert(line[k] == key[k]);
            assert(key.contains(key[k]));
        } else {
            assert(line[k] == gap1[k - key.len()]);
            assert(is_space(gap1[k - key.len()]));
        }
    }
    assert(line[n] == '=');
    lemma_find_first(line, '=', 0, n);
    assert(line.subrange(0, n) =~= Seq::<char>::empty() + key + gap1);
    assert(line.subrange(n + 1, line.len() as int) =~= gap2 + val + Seq::<char>::empty());
    lemma_trimmed(Seq::empty(), key, gap1);
    lemma_trimmed(gap2, val, Seq::empty());
}

/// The command line is accepted exactly if each address on it can be read; the
/// first that cannot, of the static address, the gateway and the netmask, is
/// reported as it stands there.
pub proof fn lemma_arguments_accepted(args: CliArgs, file: Option<Seq<char>>)
    ensures
        ({
            let bad_ip = args.static_ip matches Some(s) && Ipv4Addr::from_text(s@) is None;
            let bad_gw = args.gateway matches Some(s) && Ipv4Addr::from_text(s@) is None;
            let bad_mask = args.netmask matches Some(s) && Ipv4Addr::from_text(s@) is None;
            &&& configured(args, file) is Ok <==> !bad_ip && !bad_gw && !bad_mask
            &&& bad_ip ==> configured(args, file) == Err::<TetherConfig, TetherErrorView>(
                TetherErrorView::Config("invalid IP: "@ + args.static_ip->0@),
            )
            &&& !bad_ip && bad_gw ==> configured(args, file) == Err::<TetherConfig, TetherErrorView>(
                TetherErrorView::Config("invalid gateway: "@ + args.gateway->0@),
            )
            &&& !bad_ip && !bad_gw && bad_mask ==> configured(args, file) == Err::<
                TetherConfig,
                TetherErrorView,
            >(TetherErrorView::Config("invalid netmask: "@ + args.netmask->0@))
        }),
{
}

/// Without a file, what is configured is what stands on the command line, and the
/// defaults for the rest: routes and name servers are set, addresses are leased,
/// the netmask has 24 bits, and what is of general interest is logged.
pub proof fn lemma_command_line_alone(args: CliArgs)
    requires
        configured(args, None) is Ok,
    ensures
        ({
            let config = configured(args, None)->Ok_0;
            &&& config.no_route == args.no_route
            &&& config.no_dns == args.no_dns
            &&& config.log_level == (if args.verbose {
                LogLevel::Debug
            } else {
                LogLevel::Info
            })
            &&& config.watch_mode == args.watch
            &&& config.install == args.install
            &&& config.uninstall == args.uninstall
            &&& config.daemon == args.daemon
            &&& args.static_ip is None ==> config.static_ip is None
            &&& args.static_ip is None && args.gateway is None ==> config.gateway is None
            &&& args.static_ip is Some && args.gateway is None ==> config.gateway == Some(
                Ipv4Addr { bits: 0xC0A8_2A81 },
            )
            &&& args.netmask is None ==> config.netmask.bits == 0xFFFF_FF00
        }),
{
}

/// A switch on the command line adds to what the file says, and does nothing
/// else: with it the configuration is the one without it, but for that switch.
pub proof fn lemma_switches_add(args: CliArgs, file: Option<Seq<char>>)
    requires
        configured(args, file) is Ok,
    ensures
        ({
            let plain = CliArgs { no_route: false, no_dns: false, verbose: false, ..args };
            &&& configured(plain, file) is Ok
            &&& configured(args, file)->Ok_0 == (TetherConfig {
                no_route: args.no_route || configured(plain, file)->Ok_0.no_route,
                no_dns: args.no_dns || configured(plain, file)->Ok_0.no_dns,
                log_level: if args.verbose {
                    LogLevel::Debug
                } else {
                    configured(plain, file)->Ok_0.log_level
                },
                ..configured(plain, file)->Ok_0
            })
        }),
{
    let plain = CliArgs { no_route: false, no_dns: false, verbose: false, ..args };
    assert(with_options(plain) == with_options(args));
    let x = with_switches(args, file);
    let y = with_switches(plain, file);
    assert(x == (TetherConfig {
        no_route: args.no_route || y.no_route,
        no_dns: args.no_dns || y.no_dns,
        log_level: if args.verbose {
            LogLevel::Debug
        } else {
            y.log_level
        },
        ..y
    }));
}

/// What the file says counts wherever the command line says nothing.
pub proof fn lemma_file_counts(args: CliArgs, contents: Seq<char>)
    requires
        configured(args, Some(contents)) is Ok,
    ensures
        ({
            let config = configured(args, Some(contents))->Ok_0;
            let file = with_file(configured(
                CliArgs { static_ip: None, gateway: None, netmask: None, ..args },
                None,
            )->Ok_0, contents);
            &&& args.static_ip is None ==> config.static_ip == file.static_ip
            &&& args.gateway is None && file.gateway is Some ==> config.gateway == file.gateway
            &&& args.netmask is None ==> config.netmask == file.netmask
        }),
{
    let bare = CliArgs { static_ip: None, gateway: None, netmask: None, ..args };
    let base = configured(bare, None)->Ok_0;
    lemma_lines_agree(
        IniState { section: Seq::empty(), config: with_options(args) },
        IniState { section: Seq::empty(), config: base },
        contents,
        0,
    );
}

proof fn lemma_lines_agree(x: IniState, y: IniState, s: Seq<char>, i: int)
    requires
        x.section == y.section,
        x.config.static_ip == y.config.static_ip,
        x.config.gateway == y.config.gateway,
        x.config.netmask == y.config.netmask,
    ensures
        after_lines(x, s, i).config.static_ip == after_lines(y, s, i).config.static_ip,
        after_lines(x, s, i).config.gateway == after_lines(y, s, i).config.gateway,
        after_lines(x, s, i).config.netmask == after_lines(y, s, i).config.netmask,
    decreases s.len() - i,
{
    let end = find_from(s, '\n', i);
    if 0 <= i <= s.len() && end >= i && end < s.len() {
        lemma_lines_agree(
            after_line(x, s.subrange(i, end)),
            after_line(y, s.subrange(i, end)),
            s,
            end + 1,
        );
    }
}

/// Texts of ASCII are lowered letter by letter, and others as Unicode has it.
pub proof fn lemma_lower_case(s: Seq<char>)
    ensures
        (forall|i: int| 0 <= i < s.len() ==> (#[trigger] s[i]) as int <= 127) ==> lower_text(s)
            == ascii_lower(s),
        (exists|i: int| 0 <= i < s.len() && (#[trigger] s[i]) as int > 127) ==> lower_text(s)
            == lowercase(s),
{
}

} // verus!
