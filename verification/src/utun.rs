//! The virtual interface: its name, and the commands and scripts that set it up.

use crate::bytes::{overlay, put};
use crate::error::{TetherError, TetherErrorView};
use crate::net_types::zeros;
use crate::rndis::fitting;
use crate::text::{append_decimal, decimal, lemma_decimal_reads_back, number};
use vstd::prelude::*;
use vstd::utf8::encode_utf8;

verus! {

/// The number of units that are tried for a new interface.
pub const UTUN_UNITS: u32 = 256;

/// The name of the kernel control that interfaces come from.
pub const UTUN_CONTROL_NAME: &'static str = "com.apple.net.utun_control";

/// A virtual interface.
#[derive(Debug)]
pub struct Utun {
    pub fd: i32,
    pub unit: u32,
    pub ifname: String,
}

/// A list of texts, each as a sequence of characters.
pub open spec fn text_views(texts: Seq<String>) -> Seq<Seq<char>> {
    texts.map_values(|t: String| t@)
}

/// Appends a text to a list.
pub fn push_text(out: &mut Vec<String>, text: String)
    ensures
        text_views(final(out)@) == text_views(old(out)@).push(text@),
{
    let ghost before = out@;
    out.push(text);
    assert(text_views(out@) =~= text_views(before).push(text@));
}

/// The name of the interface with this unit.
pub open spec fn interface_name(unit: u32) -> Seq<char> {
    "utun"@ + decimal(unit as nat)
}

/// The command that gives an interface its addresses.
pub open spec fn address_command(
    ifname: Seq<char>,
    local: Seq<char>,
    remote: Seq<char>,
    netmask: Seq<char>,
) -> Seq<char> {
    "ifconfig "@ + ifname + " inet "@ + local + " "@ + remote + " netmask "@ + netmask + " up"@
}

/// The command that sets the largest packet of an interface.
pub open spec fn mtu_command(ifname: Seq<char>) -> Seq<char> {
    "ifconfig "@ + ifname + " mtu 1500"@
}

/// The commands that lead all traffic to a gateway: the address space in two
/// halves, so that the default route of another interface stays as it is.
pub open spec fn route_commands(gateway: Seq<char>) -> Seq<Seq<char>> {
    seq![
        "route delete "@ + gateway + " 2>/dev/null"@,
        "route delete -net 0.0.0.0/1 2>/dev/null"@,
        "route add -net 0.0.0.0/1 "@ + gateway,
        "route delete -net 128.0.0.0/1 2>/dev/null"@,
        "route add -net 128.0.0.0/1 "@ + gateway,
    ]
}

/// The script that announces the addresses of the service.
pub open spec fn service_address_script(
    ifname: Seq<char>,
    ip: Seq<char>,
    gateway: Seq<char>,
    netmask: Seq<char>,
) -> Seq<char> {
    "d.init\nd.add Addresses * "@ + ip + "\nd.add SubnetMasks * "@ + netmask + "\nd.add Router "@
        + gateway + "\nd.add InterfaceName "@ + ifname
        + "\nset State:/Network/Service/android-tether/IPv4\nquit\n"@
}

/// The script that announces the interface of the service.
pub open spec fn service_interface_script(ifname: Seq<char>) -> Seq<char> {
    "d.init\nd.add DeviceName "@ + ifname
        + "\nd.add Type utun\nset State:/Network/Service/android-tether/Interface\nquit\n"@
}

/// The script that announces the name servers of the service.
pub open spec fn service_dns_script(servers: Seq<char>) -> Seq<char> {
    "d.init\nd.add ServerAddresses * "@ + servers
        + "\nd.add SupplementalMatchDomains * \"\"\nd.add SearchOrder # 1\nset State:/Network/Service/android-tether/DNS\nquit\n"@
}

/// The name servers of a service in a row. Without the first there are none.
pub open spec fn server_row(dns1: Seq<char>, dns2: Seq<char>) -> Seq<char> {
    if dns1.len() == 0 {
        Seq::empty()
    } else if dns2.len() == 0 {
        dns1
    } else {
        dns1 + " "@ + dns2
    }
}

/// The scripts that register the service.
pub open spec fn register_scripts(
    ifname: Seq<char>,
    ip: Seq<char>,
    gateway: Seq<char>,
    netmask: Seq<char>,
    dns1: Seq<char>,
    dns2: Seq<char>,
) -> Seq<Seq<char>> {
    let base = seq![
        service_address_script(ifname, ip, gateway, netmask),
        service_interface_script(ifname),
    ];
    let servers = server_row(dns1, dns2);
    if servers.len() == 0 {
        base
    } else {
        base.push(service_dns_script(servers))
    }
}

/// The script that removes the service.
pub open spec fn unregister_script() -> Seq<char> {
    "remove State:/Network/Service/android-tether/IPv4\nremove State:/Network/Service/android-tether/DNS\nremove State:/Network/Service/android-tether/Interface\nquit\n"@
}

/// The field for the name of the kernel control: the name, then zeros.
pub open spec fn control_name_field() -> Seq<u8> {
    let name = encode_utf8(UTUN_CONTROL_NAME@);
    overlay(zeros(96), 0, fitting(name, 95))
}

/// The unit to try after so many have been tried in vain, if one is left.
pub open spec fn unit_to_try(tried: int) -> Option<int> {
    if 0 <= tried < UTUN_UNITS {
        Some(tried)
    } else {
        None
    }
}

/// The unit that a search takes after so many have been tried in vain: the first
/// that connects. `outcomes` tells for each unit whether it connects.
pub open spec fn chosen_unit(outcomes: Seq<bool>, tried: int) -> Option<int>
    decreases UTUN_UNITS - tried,
{
    match unit_to_try(tried) {
        None => None,
        Some(unit) => if outcomes[unit] {
            Some(unit)
        } else {
            chosen_unit(outcomes, tried + 1)
        },
    }
}

/// Whether each unit connects as `outcomes` tells, whenever it is tried.
pub open spec fn connects_as<F: Fn(u32) -> bool>(connect: F, outcomes: Seq<bool>) -> bool {
    &&& outcomes.len() == UTUN_UNITS
    &&& forall|number: u32, connected: bool| #[trigger]
        call_ensures(connect, (number,), connected) && 1 <= number <= UTUN_UNITS ==> connected
            == outcomes[number - 1]
}

proof fn lemma_search(outcomes: Seq<bool>, tried: int)
    requires
        outcomes.len() == UTUN_UNITS,
        0 <= tried <= UTUN_UNITS,
    ensures
        match chosen_unit(outcomes, tried) {
            Some(unit) => {
                &&& tried <= unit < UTUN_UNITS
                &&& outcomes[unit]
                &&& forall|i: int| tried <= i < unit ==> !outcomes[i]
            },
            None => forall|i: int| tried <= i < UTUN_UNITS ==> !outcomes[i],
        },
    decreases UTUN_UNITS - tried,
{
    if tried < UTUN_UNITS && !outcomes[tried] {
        lemma_search(outcomes, tried + 1);
    }
}

/// A new interface gets the smallest unit that connects; it gets none only where
/// no unit connects.
pub proof fn lemma_smallest_unit_is_chosen(outcomes: Seq<bool>)
    requires
        outcomes.len() == UTUN_UNITS,
    ensures
        match chosen_unit(outcomes, 0) {
            Some(unit) => {
                &&& 0 <= unit < UTUN_UNITS
                &&& outcomes[unit]
                &&& forall|i: int| 0 <= i < unit ==> !outcomes[i]
            },
            None => forall|i: int| 0 <= i < UTUN_UNITS ==> !outcomes[i],
        },
{
    lemma_search(outcomes, 0);
}

impl Utun {
    /// The field for the name of the kernel control.
    pub fn control_name() -> (r: [u8; 96])
        ensures
            r@ == control_name_field(),
    {
        let name = UTUN_CONTROL_NAME.as_bytes();
        let n = if name.len() < 95 {
            name.len()
        } else {
            95
        };
        let mut field = [0u8; 96];
        assert(field@ =~= zeros(96));
        let part = &name[0..n];
        assert(part@ =~= fitting(name@, 95));
        put(&mut field, 0, part);
        field
    }

    /// The interface with this unit, open at `fd`.
    pub fn create(fd: i32, unit: u32) -> (r: Self)
        ensures
            r.fd == fd,
            r.unit == unit,
            r.ifname@ == interface_name(unit),
    {
        let mut ifname = "utun".to_owned();
        append_decimal(&mut ifname, unit as u64);
        Utun { fd, unit, ifname }
    }

    /// The next unit to try for a new interface, after so many have been tried
    /// in vain; or the error when none is left.
    pub fn next_unit(tried: u32) -> (r: Result<u32, TetherError>)
        ensures
            match unit_to_try(tried as int) {
                Some(unit) => r == Ok::<u32, TetherError>(unit as u32),
                None => r matches Err(e) && e@ == TetherErrorView::Network(
                    "no available utun unit"@,
                ),
            },
    {
        if tried < UTUN_UNITS {
            Ok(tried)
        } else {
            Err(TetherError::Network("no available utun unit".to_owned()))
        }
    }

    /// The number by which the kernel knows a unit.
    pub fn kernel_unit(unit: u32) -> (r: u32)
        requires
            unit < UTUN_UNITS,
        ensures
            r == unit + 1,
    {
        unit + 1
    }

    /// Searches for the unit of a new interface. `connect` tries the unit that
    /// the kernel knows by a number, and tells whether it worked.
    pub fn find_unit<F: Fn(u32) -> bool>(connect: F) -> (r: Result<u32, TetherError>)
        requires
            forall|number: u32|
                1 <= number <= UTUN_UNITS ==> #[trigger] call_requires(connect, (number,)),
        ensures
            match r {
                Ok(unit) => {
                    &&& unit < UTUN_UNITS
                    &&& call_ensures(connect, ((unit + 1) as u32,), true)
                    &&& forall|number: u32|
                        1 <= number <= unit ==> #[trigger] call_ensures(connect, (number,), false)
                },
                Err(e) => {
                    &&& e@ == TetherErrorView::Network("no available utun unit"@)
                    &&& forall|number: u32|
                        1 <= number <= UTUN_UNITS ==> #[trigger] call_ensures(
                            connect,
                            (number,),
                            false,
                        )
                },
            },
            forall|outcomes: Seq<bool>| #[trigger]
                connects_as(connect, outcomes) ==> match chosen_unit(outcomes, 0) {
                    Some(unit) => r == Ok::<u32, TetherError>(unit as u32),
                    None => r is Err,
                },
    {
        let mut tried: u32 = 0;
        loop
            invariant
                tried <= UTUN_UNITS,
                forall|number: u32|
                    1 <= number <= UTUN_UNITS ==> #[trigger] call_requires(connect, (number,)),
                forall|number: u32|
                    1 <= number <= tried ==> #[trigger] call_ensures(connect, (number,), false),
                forall|outcomes: Seq<bool>| #[trigger]
                    connects_as(connect, outcomes) ==> chosen_unit(outcomes, 0) == chosen_unit(
                        outcomes,
                        tried as int,
                    ),
            decreases UTUN_UNITS - tried,
        {
            let unit = match Utun::next_unit(tried) {
                Ok(unit) => unit,
                Err(e) => return Err(e),
            };
            if connect(Utun::kernel_unit(unit)) {
                return Ok(unit);
            }
            tried = tried + 1;
        }
    }

    fn outcome(label: &str, n: i64, would_block: bool, error: &str) -> (r: Result<
        usize,
        TetherError,
    >)
        requires
            n <= usize::MAX,
        ensures
            if n >= 0 {
                r == Ok::<usize, TetherError>(n as usize)
            } else if would_block {
                r == Ok::<usize, TetherError>(0)
            } else {
                r matches Err(e) && e@ == TetherErrorView::Network(label@ + error@)
            },
    {
        if n >= 0 {
            return Ok(n as usize);
        }
        if would_block {
            return Ok(0);
        }
        let mut text = label.to_owned();
        text.append(error);
        Err(TetherError::Network(text))
    }

    /// What reading from the interface has led to: the system returned `n`, and
    /// where that is negative, the error tells whether there was just nothing to
    /// read.
    pub fn read(n: i64, would_block: bool, error: &str) -> (r: Result<usize, TetherError>)
        requires
            n <= usize::MAX,
        ensures
            if n >= 0 {
                r == Ok::<usize, TetherError>(n as usize)
            } else if would_block {
                r == Ok::<usize, TetherError>(0)
            } else {
                r matches Err(e) && e@ == TetherErrorView::Network("utun read: "@ + error@)
            },
    {
        Utun::outcome("utun read: ", n, would_block, error)
    }

    /// What writing to the interface has led to: the system returned `n`, and
    /// where that is negative, the error tells whether there was just no room.
    pub fn write(n: i64, would_block: bool, error: &str) -> (r: Result<usize, TetherError>)
        requires
            n <= usize::MAX,
        ensures
            if n >= 0 {
                r == Ok::<usize, TetherError>(n as usize)
            } else if would_block {
                r == Ok::<usize, TetherError>(0)
            } else {
                r matches Err(e) && e@ == TetherErrorView::Network("utun write: "@ + error@)
            },
    {
        Utun::outcome("utun write: ", n, would_block, error)
    }

    /// The commands that give the interface its addresses and its largest
    /// packet.
    pub fn configure(&self, local_ip: &str, remote_ip: &str, netmask: &str) -> (r: (String, String))
        ensures
            r.0@ == address_command(self.ifname@, local_ip@, remote_ip@, netmask@),
            r.1@ == mtu_command(self.ifname@),
    {
        let mut cmd = "ifconfig ".to_owned();
        cmd.append(self.ifname.as_str());
        cmd.append(" inet ");
        cmd.append(local_ip);
        cmd.append(" ");
        cmd.append(remote_ip);
        cmd.append(" netmask ");
        cmd.append(netmask);
        cmd.append(" up");
        let mut mtu = "ifconfig ".to_owned();
        mtu.append(self.ifname.as_str());
        mtu.append(" mtu 1500");
        (cmd, mtu)
    }

    /// The commands that lead all traffic to a gateway.
    pub fn set_default_route(&self, gateway: &str) -> (r: Vec<String>)
        ensures
            text_views(r@) == route_commands(gateway@),
    {
        let mut out: Vec<String> = Vec::new();
        let mut first = "route delete ".to_owned();
        first.append(gateway);
        first.append(" 2>/dev/null");
        push_text(&mut out, first);
        push_text(&mut out, "route delete -net 0.0.0.0/1 2>/dev/null".to_owned());
        let mut low = "route add -net 0.0.0.0/1 ".to_owned();
        low.append(gateway);
        push_text(&mut out, low);
        push_text(&mut out, "route delete -net 128.0.0.0/1 2>/dev/null".to_owned());
        let mut high = "route add -net 128.0.0.0/1 ".to_owned();
        high.append(gateway);
        push_text(&mut out, high);
        assert(text_views(out@) =~= route_commands(gateway@));
        out
    }

    /// The scripts that register the service.
    pub fn register_service(
        ifname: &str,
        ip: &str,
        gateway: &str,
        netmask: &str,
        dns1: &str,
        dns2: &str,
    ) -> (r: Vec<String>)
        ensures
            text_views(r@) == register_scripts(ifname@, ip@, gateway@, netmask@, dns1@, dns2@),
    {
        let mut out: Vec<String> = Vec::new();
        let mut script = "d.init\nd.add Addresses * ".to_owned();
        script.append(ip);
        script.append("\nd.add SubnetMasks * ");
        script.append(netmask);
        script.append("\nd.add Router ");
        script.append(gateway);
        script.append("\nd.add InterfaceName ");
        script.append(ifname);
        script.append("\nset State:/Network/Service/android-tether/IPv4\nquit\n");
        push_text(&mut out, script);
        let mut script2 = "d.init\nd.add DeviceName ".to_owned();
        script2.append(ifname);
        script2.append(
            "\nd.add Type utun\nset State:/Network/Service/android-tether/Interface\nquit\n",
        );
        push_text(&mut out, script2);
        if dns1.unicode_len() > 0 {
            let mut servers = dns1.to_owned();
            if dns2.unicode_len() > 0 {
                servers.append(" ");
                servers.append(dns2);
            }
            let mut script3 = "d.init\nd.add ServerAddresses * ".to_owned();
            script3.append(servers.as_str());
            script3.append(
                "\nd.add SupplementalMatchDomains * \"\"\nd.add SearchOrder # 1\nset State:/Network/Service/android-tether/DNS\nquit\n",
            );
            push_text(&mut out, script3);
        }
        assert(text_views(out@) =~= register_scripts(
            ifname@,
            ip@,
            gateway@,
            netmask@,
            dns1@,
            dns2@,
        ));
        out
    }

    /// The script that removes the service.
    pub fn unregister_service() -> (r: String)
        ensures
            r@ == unregister_script(),
    {
        "remove State:/Network/Service/android-tether/IPv4\nremove State:/Network/Service/android-tether/DNS\nremove State:/Network/Service/android-tether/Interface\nquit\n".to_owned()
    }
}

/// An interface is named by its unit, and is given our address first and that of
/// the other end second, with the netmask, and packets of at most 1500 bytes.
/// Interfaces with different units have different names.
pub proof fn lemma_interface_commands(
    a: u32,
    b: u32,
    ifname: Seq<char>,
    local: Seq<char>,
    remote: Seq<char>,
    netmask: Seq<char>,
)
    ensures
        interface_name(a).take(4) == "utun"@,
        number(interface_name(a).skip(4)) == a,
        interface_name(a) == interface_name(b) ==> a == b,
        address_command(ifname, local, remote, netmask) == "ifconfig "@ + ifname + " inet "@ + local
            + " "@ + remote + " netmask "@ + netmask + " up"@,
        mtu_command(ifname) == "ifconfig "@ + ifname + " mtu 1500"@,
{
    reveal_strlit("utun");
    assert("utun"@.len() == 4);
    assert(interface_name(a).take(4) =~= "utun"@);
    assert(interface_name(a).skip(4) =~= decimal(a as nat));
    assert(interface_name(b).skip(4) =~= decimal(b as nat));
    lemma_decimal_reads_back(a as nat);
    lemma_decimal_reads_back(b as nat);
}

/// The service names those name servers that are there: both, or the first
/// alone; without the first it names none, and has no script for them.
pub proof fn lemma_servers_in_a_row(
    ifname: Seq<char>,
    ip: Seq<char>,
    gateway: Seq<char>,
    netmask: Seq<char>,
    dns1: Seq<char>,
    dns2: Seq<char>,
)
    ensures
        ({
            let list = register_scripts(ifname, ip, gateway, netmask, dns1, dns2);
            let front = "d.init\nd.add ServerAddresses * "@;
            let back =
                "\nd.add SupplementalMatchDomains * \"\"\nd.add SearchOrder # 1\nset State:/Network/Service/android-tether/DNS\nquit\n"@;
            &&& dns1.len() == 0 ==> list.len() == 2
            &&& dns1.len() > 0 ==> list.len() == 3
            &&& dns1.len() > 0 && dns2.len() == 0 ==> list[2] == front + dns1 + back
            &&& dns1.len() > 0 && dns2.len() > 0 ==> list[2] == front + (dns1 + " "@ + dns2) + back
            &&& forall|x: Seq<char>, y: Seq<char>|
                {
                    let other = #[trigger] register_scripts(ifname, ip, gateway, netmask, x, y);
                    other[0] == list[0] && other[1] == list[1]
                }
        }),
{
}

/// A list of texts has a view for each of them, in its place.
pub proof fn lemma_texts_in_place(texts: Seq<String>)
    ensures
        text_views(texts).len() == texts.len(),
        forall|i: int| 0 <= i < texts.len() ==> #[trigger] text_views(texts)[i] == texts[i]@,
{
}

} // verus!
