//! Finding the tethering function of a USB device in its descriptors.

use crate::bytes::{overlay, put};
use crate::error::{TetherError, TetherErrorView};
use crate::rndis::fitting;
use vstd::prelude::*;

verus! {

pub const CDC_SEND_ENCAPSULATED: u8 = 0x00;

pub const CDC_GET_ENCAPSULATED: u8 = 0x01;

/// How long a control transfer may take, in milliseconds.
pub const USB_CTRL_TIMEOUT_MS: u64 = 5000;

/// How long sending a bulk transfer may take, in milliseconds.
pub const USB_BULK_TIMEOUT_MS: u64 = 500;

/// How data goes through an endpoint.
#[derive(Debug, Clone, Copy, PartialEq, Eq, Structural)]
pub enum TransferKind {
    Control,
    Isochronous,
    Bulk,
    Interrupt,
}

/// An endpoint of an interface. The highest bit of the address tells that it
/// leads to the host.
#[derive(Debug, Clone, Copy, PartialEq, Eq, Structural)]
pub struct EndpointInfo {
    pub address: u8,
    pub kind: TransferKind,
}

/// One setting of an interface.
#[derive(Debug)]
pub struct AltSetting {
    pub interface_number: u8,
    pub alternate_setting: u8,
    pub class: u8,
    pub subclass: u8,
    pub protocol: u8,
    pub endpoints: Vec<EndpointInfo>,
}

/// The endpoints that are used; zero where there is none.
#[derive(Debug, Clone, Copy, PartialEq, Eq, Structural)]
pub struct Endpoints {
    pub ep_in: u8,
    pub ep_out: u8,
    pub ep_int: u8,
}

/// A device that can be used, by the numbers of its parts.
#[derive(Debug, Clone, Copy, PartialEq, Eq, Structural)]
pub struct UsbDevice {
    pub ep_in_addr: u8,
    pub ep_out_addr: u8,
    pub ep_int_addr: u8,
    pub comm_iface: u8,
    pub data_iface: u8,
}

/// Whether an interface is one for control of tethering: RNDIS in its four
/// guises, NCM or ECM.
pub open spec fn is_control(class: u8, subclass: u8, protocol: u8) -> bool {
    ||| class == 0xE0 && subclass == 0x01 && protocol == 0x03
    ||| class == 0x02 && subclass == 0x02 && protocol == 0x03
    ||| class == 0x02 && subclass == 0xFF && protocol == 0x03
    ||| class == 0xFF && subclass == 0x01 && protocol == 0x03
    ||| class == 0x02 && subclass == 0x0D && protocol == 0x00
    ||| class == 0x02 && subclass == 0x06 && protocol == 0x00
}

/// The number of the last interface for control.
pub open spec fn control_interface(alts: Seq<AltSetting>) -> Option<u8>
    decreases alts.len(),
{
    if alts.len() == 0 {
        None
    } else if is_control(alts.last().class, alts.last().subclass, alts.last().protocol) {
        Some(alts.last().interface_number)
    } else {
        control_interface(alts.drop_last())
    }
}

/// The number of the last interface for data that stands behind an interface
/// for control.
pub open spec fn data_interface(alts: Seq<AltSetting>) -> Option<u8>
    decreases alts.len(),
{
    if alts.len() == 0 {
        None
    } else if alts.last().class == 0x0A && control_interface(alts) is Some {
        Some(alts.last().interface_number)
    } else {
        data_interface(alts.drop_last())
    }
}

/// The interfaces for control and for data. Without an interface for data, the
/// one that follows on the interface for control is taken.
pub open spec fn chosen_interfaces(alts: Seq<AltSetting>) -> Option<(u8, int)> {
    match control_interface(alts) {
        None => None,
        Some(comm) => Some(
            (
                comm,
                match data_interface(alts) {
                    Some(data) => data as int,
                    None => comm + 1,
                },
            ),
        ),
    }
}

/// The endpoints of the settings that are to be kept, in their order.
pub open spec fn endpoints_of(
    alts: Seq<AltSetting>,
    keep: spec_fn(AltSetting) -> bool,
) -> Seq<EndpointInfo>
    decreases alts.len(),
{
    if alts.len() == 0 {
        Seq::empty()
    } else {
        let front = endpoints_of(alts.drop_last(), keep);
        if keep(alts.last()) {
            front + alts.last().endpoints@
        } else {
            front
        }
    }
}

/// The part that an endpoint can play.
#[derive(Debug, Clone, Copy, PartialEq, Eq, Structural)]
pub enum EndpointRole {
    BulkIn,
    BulkOut,
    Interrupt,
}

/// Whether an endpoint can play this part.
pub open spec fn plays(ep: EndpointInfo, role: EndpointRole) -> bool {
    match role {
        EndpointRole::BulkIn => ep.kind == TransferKind::Bulk && ep.address >= 0x80,
        EndpointRole::BulkOut => ep.kind == TransferKind::Bulk && ep.address < 0x80,
        EndpointRole::Interrupt => ep.kind == TransferKind::Interrupt,
    }
}

/// The address of the last endpoint that can play this part, or `other` where
/// none can.
pub open spec fn last_in_role(eps: Seq<EndpointInfo>, role: EndpointRole, other: u8) -> u8
    decreases eps.len(),
{
    if eps.len() == 0 {
        other
    } else if plays(eps.last(), role) {
        eps.last().address
    } else {
        last_in_role(eps.drop_last(), role, other)
    }
}

proof fn lemma_last_in_role_append(
    a: Seq<EndpointInfo>,
    b: Seq<EndpointInfo>,
    role: EndpointRole,
    other: u8,
)
    ensures
        last_in_role(a + b, role, other) == last_in_role(b, role, last_in_role(a, role, other)),
    decreases b.len(),
{
    if b.len() == 0 {
        assert(a + b =~= a);
    } else {
        assert((a + b).drop_last() =~= a + b.drop_last());
        lemma_last_in_role_append(a, b.drop_last(), role, other);
    }
}

/// The endpoints of the two interfaces: the last ones for bulk data either way,
/// and the last one for interrupts of the interface for control.
pub open spec fn chosen_endpoints(alts: Seq<AltSetting>, comm: u8, data: u8) -> Endpoints {
    let both = endpoints_of(
        alts,
        |a: AltSetting| a.interface_number == comm || a.interface_number == data,
    );
    let control = endpoints_of(alts, |a: AltSetting| a.interface_number == comm);
    Endpoints {
        ep_in: last_in_role(both, EndpointRole::BulkIn, 0),
        ep_out: last_in_role(both, EndpointRole::BulkOut, 0),
        ep_int: last_in_role(control, EndpointRole::Interrupt, 0),
    }
}

/// The endpoints after the interface for data has been switched to its first
/// alternate setting.
pub open spec fn switched_endpoints(found: Endpoints, alts: Seq<AltSetting>, data: u8) -> Endpoints {
    let eps = endpoints_of(
        alts,
        |a: AltSetting| a.interface_number == data && a.alternate_setting == 1,
    );
    Endpoints {
        ep_in: last_in_role(eps, EndpointRole::BulkIn, found.ep_in),
        ep_out: last_in_role(eps, EndpointRole::BulkOut, found.ep_out),
        ..found
    }
}

impl Endpoints {
    /// Whether data can go both ways.
    pub open spec fn complete(self) -> bool {
        self.ep_in != 0 && self.ep_out != 0
    }

    /// Takes over the endpoints that can play a part. Interrupts count only for
    /// the interface for control.
    fn take(&mut self, eps: &Vec<EndpointInfo>, interrupts: bool)
        ensures
            final(self).ep_in == last_in_role(eps@, EndpointRole::BulkIn, old(self).ep_in),
            final(self).ep_out == last_in_role(eps@, EndpointRole::BulkOut, old(self).ep_out),
            final(self).ep_int == (if interrupts {
                last_in_role(eps@, EndpointRole::Interrupt, old(self).ep_int)
            } else {
                old(self).ep_int
            }),
    {
        let mut i: usize = 0;
        assert(eps@.take(0) =~= Seq::empty());
        while i < eps.len()
            invariant
                i <= eps@.len(),
                self.ep_in == last_in_role(
                    eps@.take(i as int),
                    EndpointRole::BulkIn,
                    old(self).ep_in,
                ),
                self.ep_out == last_in_role(
                    eps@.take(i as int),
                    EndpointRole::BulkOut,
                    old(self).ep_out,
                ),
                self.ep_int == (if interrupts {
                    last_in_role(eps@.take(i as int), EndpointRole::Interrupt, old(self).ep_int)
                } else {
                    old(self).ep_int
                }),
            decreases eps@.len() - i,
        {
            let ep = eps[i];
            assert(eps@.take(i + 1).drop_last() =~= eps@.take(i as int));
            match ep.kind {
                TransferKind::Interrupt => {
                    if interrupts {
                        self.ep_int = ep.address;
                    }
                },
                TransferKind::Bulk => {
                    if ep.address >= 0x80 {
                        self.ep_in = ep.address;
                    } else {
                        self.ep_out = ep.address;
                    }
                },
                _ => {},
            }
            i = i + 1;
        }
        assert(eps@.take(eps@.len() as int) =~= eps@);
    }
}

/// What to do next with a device.
#[derive(Debug, Clone, Copy, PartialEq, Eq, Structural)]
pub enum ProbeAction {
    /// It cannot be used.
    Skip,
    /// Claim these interfaces.
    Claim { comm: u8, data: u8 },
    /// Switch the interface for data to its first alternate setting.
    Switch(Endpoints),
    /// It can be used.
    Accept(UsbDevice),
}

impl UsbDevice {
    /// Whether an interface is one for control of tethering.
    pub fn is_rndis_interface(class: u8, subclass: u8, protocol: u8) -> (r: bool)
        ensures
            r == is_control(class, subclass, protocol),
    {
        (class == 0xE0 && subclass == 0x01 && protocol == 0x03) || (class == 0x02 && subclass
            == 0x02 && protocol == 0x03) || (class == 0x02 && subclass == 0xFF && protocol == 0x03)
            || (class == 0xFF && subclass == 0x01 && protocol == 0x03) || (class == 0x02
            && subclass == 0x0D && protocol == 0x00) || (class == 0x02 && subclass == 0x06
            && protocol == 0x00)
    }

    /// Whether an interface is one for data.
    pub fn is_data_interface(class: u8, _subclass: u8, _protocol: u8) -> (r: bool)
        ensures
            r == (class == 0x0A),
    {
        class == 0x0A
    }

    fn scan_interfaces(alts: &Vec<AltSetting>) -> (r: (Option<u8>, Option<u8>))
        ensures
            r.0 == control_interface(alts@),
            r.1 == data_interface(alts@),
    {
        let mut comm: Option<u8> = None;
        let mut data: Option<u8> = None;
        let mut i: usize = 0;
        assert(alts@.take(0) =~= Seq::empty());
        while i < alts.len()
            invariant
                i <= alts@.len(),
                comm == control_interface(alts@.take(i as int)),
                data == data_interface(alts@.take(i as int)),
            decreases alts@.len() - i,
        {
            let alt = &alts[i];
            assert(alts@.take(i + 1).drop_last() =~= alts@.take(i as int));
            assert(alts@.take(i + 1).last() == *alt);
            if UsbDevice::is_rndis_interface(alt.class, alt.subclass, alt.protocol) {
                comm = Some(alt.interface_number);
            }
            if UsbDevice::is_data_interface(alt.class, alt.subclass, alt.protocol)
                && comm.is_some() {
                data = Some(alt.interface_number);
            }
            i = i + 1;
        }
        assert(alts@.take(alts@.len() as int) =~= alts@);
        (comm, data)
    }

    /// Whether the interface for data would have a number that no interface can
    /// have.
    pub fn has_no_room(alts: &Vec<AltSetting>) -> (r: bool)
        ensures
            r == (chosen_interfaces(alts@) matches Some((_, data)) && data > u8::MAX),
    {
        match UsbDevice::scan_interfaces(alts) {
            (Some(comm), None) => comm == 0xFF,
            _ => false,
        }
    }

    /// Looks for a tethering function in the settings of a device.
    pub fn examine(alts: &Vec<AltSetting>) -> (r: ProbeAction)
        requires
            chosen_interfaces(alts@) matches Some((_, data)) ==> data <= u8::MAX,
        ensures
            match chosen_interfaces(alts@) {
                None => r == ProbeAction::Skip,
                Some((comm, data)) => r == (ProbeAction::Claim { comm, data: data as u8 }),
            },
    {
        match UsbDevice::scan_interfaces(alts) {
            (None, _) => ProbeAction::Skip,
            (Some(comm), Some(data)) => ProbeAction::Claim { comm, data },
            (Some(comm), None) => ProbeAction::Claim { comm, data: comm + 1 },
        }
    }

    fn accepted(eps: Endpoints, comm: u8, data: u8) -> (r: UsbDevice)
        ensures
            r == (UsbDevice {
                ep_in_addr: eps.ep_in,
                ep_out_addr: eps.ep_out,
                ep_int_addr: eps.ep_int,
                comm_iface: comm,
                data_iface: data,
            }),
    {
        UsbDevice {
            ep_in_addr: eps.ep_in,
            ep_out_addr: eps.ep_out,
            ep_int_addr: eps.ep_int,
            comm_iface: comm,
            data_iface: data,
        }
    }

    /// Looks for the endpoints of the interfaces that have been claimed.
    pub fn choose_endpoints(alts: &Vec<AltSetting>, comm: u8, data: u8) -> (r: ProbeAction)
        ensures
            ({
                let eps = chosen_endpoints(alts@, comm, data);
                if eps.complete() {
                    r == ProbeAction::Accept(
                        UsbDevice {
                            ep_in_addr: eps.ep_in,
                            ep_out_addr: eps.ep_out,
                            ep_int_addr: eps.ep_int,
                            comm_iface: comm,
                            data_iface: data,
                        },
                    )
                } else {
                    r == ProbeAction::Switch(eps)
                }
            }),
    {
        let ghost either = |a: AltSetting| a.interface_number == comm || a.interface_number == data;
        let ghost control = |a: AltSetting| a.interface_number == comm;
        let mut eps = Endpoints { ep_in: 0, ep_out: 0, ep_int: 0 };
        let mut i: usize = 0;
        assert(alts@.take(0) =~= Seq::empty());
        while i < alts.len()
            invariant
                i <= alts@.len(),
                either == (|a: AltSetting|
                    a.interface_number == comm || a.interface_number == data),
                control == (|a: AltSetting| a.interface_number == comm),
                eps.ep_in == last_in_role(
                    endpoints_of(alts@.take(i as int), either),
                    EndpointRole::BulkIn,
                    0,
                ),
                eps.ep_out == last_in_role(
                    endpoints_of(alts@.take(i as int), either),
                    EndpointRole::BulkOut,
                    0,
                ),
                eps.ep_int == last_in_role(
                    endpoints_of(alts@.take(i as int), control),
                    EndpointRole::Interrupt,
                    0,
                ),
            decreases alts@.len() - i,
        {
            let alt = &alts[i];
            proof {
                let front = alts@.take(i as int);
                assert(alts@.take(i + 1).drop_last() =~= front);
                assert(alts@.take(i + 1).last() == *alt);
                lemma_last_in_role_append(
                    endpoints_of(front, either),
                    alt.endpoints@,
                    EndpointRole::BulkIn,
                    0,
                );
                lemma_last_in_role_append(
                    endpoints_of(front, either),
                    alt.endpoints@,
                    EndpointRole::BulkOut,
                    0,
                );
                lemma_last_in_role_append(
                    endpoints_of(front, control),
                    alt.endpoints@,
                    EndpointRole::Interrupt,
                    0,
                );
            }
            if alt.interface_number == comm || alt.interface_number == data {
                eps.take(&alt.endpoints, alt.interface_number == comm);
            }
            i = i + 1;
        }
        assert(alts@.take(alts@.len() as int) =~= alts@);
        if eps.ep_in != 0 && eps.ep_out != 0 {
            ProbeAction::Accept(UsbDevice::accepted(eps, comm, data))
        } else {
            ProbeAction::Switch(eps)
        }
    }

    /// Looks for the endpoints again, after the interface for data has been
    /// switched. `alts` holds the settings then, where switching has worked.
    pub fn with_alternate(
        found: Endpoints,
        alts: Option<Vec<AltSetting>>,
        comm: u8,
        data: u8,
    ) -> (r: ProbeAction)
        ensures
            ({
                let eps = match alts {
                    Some(list) => switched_endpoints(found, list@, data),
                    None => found,
                };
                if eps.complete() {
                    r == ProbeAction::Accept(
                        UsbDevice {
                            ep_in_addr: eps.ep_in,
                            ep_out_addr: eps.ep_out,
                            ep_int_addr: eps.ep_int,
                            comm_iface: comm,
                            data_iface: data,
                        },
                    )
                } else {
                    r == ProbeAction::Skip
                }
            }),
    {
        let mut eps = found;
        if let Some(list) = alts {
            let ghost first = |a: AltSetting|
                a.interface_number == data && a.alternate_setting == 1;
            let mut i: usize = 0;
            assert(list@.take(0) =~= Seq::empty());
            while i < list.len()
                invariant
                    i <= list@.len(),
                    first == (|a: AltSetting|
                        a.interface_number == data && a.alternate_setting == 1),
                    eps.ep_in == last_in_role(
                        endpoints_of(list@.take(i as int), first),
                        EndpointRole::BulkIn,
                        found.ep_in,
                    ),
                    eps.ep_out == last_in_role(
                        endpoints_of(list@.take(i as int), first),
                        EndpointRole::BulkOut,
                        found.ep_out,
                    ),
                    eps.ep_int == found.ep_int,
                decreases list@.len() - i,
            {
                let alt = &list[i];
                proof {
                    let front = list@.take(i as int);
                    assert(list@.take(i + 1).drop_last() =~= front);
                    assert(list@.take(i + 1).last() == *alt);
                    lemma_last_in_role_append(
                        endpoints_of(front, first),
                        alt.endpoints@,
                        EndpointRole::BulkIn,
                        found.ep_in,
                    );
                    lemma_last_in_role_append(
                        endpoints_of(front, first),
                        alt.endpoints@,
                        EndpointRole::BulkOut,
                        found.ep_out,
                    );
                }
                if alt.interface_number == data && alt.alternate_setting == 1 {
                    eps.take(&alt.endpoints, false);
                }
                i = i + 1;
            }
            assert(list@.take(list@.len() as int) =~= list@);
        }
        if eps.ep_in != 0 && eps.ep_out != 0 {
            ProbeAction::Accept(UsbDevice::accepted(eps, comm, data))
        } else {
            ProbeAction::Skip
        }
    }

    /// The error for when no device can be used.
    pub fn not_found() -> (r: TetherError)
        ensures
            r@ == TetherErrorView::DeviceNotFound(
                "no Android RNDIS device found — ensure USB tethering is enabled"@,
            ),
    {
        TetherError::DeviceNotFound(
            "no Android RNDIS device found — ensure USB tethering is enabled".to_owned(),
        )
    }

    /// Copies as much of a reply as fits to the start of `buf`.
    pub fn take_reply(reply: &[u8], buf: &mut [u8]) -> (r: usize)
        ensures
            r == fitting(reply@, old(buf)@.len()).len(),
            final(buf)@ == overlay(old(buf)@, 0, fitting(reply@, old(buf)@.len())),
    {
        let room = buf.len();
        let n = if reply.len() <= room {
            reply.len()
        } else {
            room
        };
        let part = &reply[0..n];
        put(buf, 0, part);
        assert(part@ =~= fitting(reply@, room as nat));
        n
    }

    /// The size of a transfer that takes at least `len` bytes: a whole number of
    /// packets, and no more than needed.
    pub fn transfer_size(len: usize, max_packet: usize) -> (r: usize)
        requires
            max_packet > 0,
            len + max_packet <= usize::MAX,
        ensures
            exists|k: int| #![trigger k * max_packet] r == k * max_packet,
            len <= r < len + max_packet,
    {
        let rest = len % max_packet;
        proof {
            let k = (len / max_packet) as int;
            assert(len == k * max_packet + rest) by {
                vstd::arithmetic::div_mod::lemma_fundamental_div_mod(
                    len as int,
                    max_packet as int,
                );
                vstd::arithmetic::mul::lemma_mul_is_commutative(k, max_packet as int);
            }
            assert((k + 1) * max_packet == k * max_packet + max_packet) by (nonlinear_arith);
            if rest == 0 {
                assert(len == k * max_packet);
            } else {
                assert(len - rest + max_packet == (k + 1) * max_packet);
            }
        }
        if rest == 0 {
            len
        } else {
            len - rest + max_packet
        }
    }
}

/// A device that is accepted has an endpoint for bulk data to the host and
/// another one from the host, whether or not its interface for data had to be
/// switched (`switched` then holds the settings).
pub proof fn lemma_endpoints_lead_both_ways(
    alts: Seq<AltSetting>,
    switched: Seq<AltSetting>,
    comm: u8,
    data: u8,
)
    ensures
        ({
            let eps = chosen_endpoints(alts, comm, data);
            eps.complete() ==> eps.ep_in >= 0x80 && eps.ep_out < 0x80
        }),
        ({
            let eps = switched_endpoints(chosen_endpoints(alts, comm, data), switched, data);
            eps.complete() ==> eps.ep_in >= 0x80 && eps.ep_out < 0x80
        }),
{
    let both = endpoints_of(
        alts,
        |a: AltSetting| a.interface_number == comm || a.interface_number == data,
    );
    let first = endpoints_of(
        switched,
        |a: AltSetting| a.interface_number == data && a.alternate_setting == 1,
    );
    let found = chosen_endpoints(alts, comm, data);
    lemma_role_direction(both, 0, 0);
    lemma_role_direction(first, found.ep_in, found.ep_out);
}

proof fn lemma_role_direction(eps: Seq<EndpointInfo>, ep_in: u8, ep_out: u8)
    requires
        ep_in == 0 || ep_in >= 0x80,
        ep_out < 0x80,
    ensures
        ({
            let a = last_in_role(eps, EndpointRole::BulkIn, ep_in);
            a == 0 || a >= 0x80
        }),
        last_in_role(eps, EndpointRole::BulkOut, ep_out) < 0x80,
    decreases eps.len(),
{
    if eps.len() > 0 {
        lemma_role_direction(eps.drop_last(), ep_in, ep_out);
    }
}

/// The classes that an interface for control can have.
pub proof fn lemma_control_classes(class: u8, subclass: u8, protocol: u8)
    ensures
        is_control(class, subclass, protocol) <==> seq![
            (0xE0u8, 0x01u8, 0x03u8),
            (0x02, 0x02, 0x03),
            (0x02, 0xFF, 0x03),
            (0xFF, 0x01, 0x03),
            (0x02, 0x0D, 0x00),
            (0x02, 0x06, 0x00),
        ].contains((class, subclass, protocol)),
{
    let list = seq![
        (0xE0u8, 0x01u8, 0x03u8),
        (0x02, 0x02, 0x03),
        (0x02, 0xFF, 0x03),
        (0xFF, 0x01, 0x03),
        (0x02, 0x0D, 0x00),
        (0x02, 0x06, 0x00),
    ];
    assert(list[0] == (0xE0u8, 0x01u8, 0x03u8));
    assert(list[1] == (0x02u8, 0x02u8, 0x03u8));
    assert(list[2] == (0x02u8, 0xFFu8, 0x03u8));
    assert(list[3] == (0xFFu8, 0x01u8, 0x03u8));
    assert(list[4] == (0x02u8, 0x0Du8, 0x00u8));
    assert(list[5] == (0x02u8, 0x06u8, 0x00u8));
    if list.contains((class, subclass, protocol)) {
        let i = choose|i: int| 0 <= i < list.len() && list[i] == (class, subclass, protocol);
        assert(0 <= i < 6);
    }
}

/// The interface for control is that of the last setting for it, wherever it
/// stands; without such a setting there is none.
pub proof fn lemma_last_control_counts(alts: Seq<AltSetting>, j: int)
    ensures
        0 <= j < alts.len() && is_control(alts[j].class, alts[j].subclass, alts[j].protocol) && (
        forall|k: int|
            j < k < alts.len() ==> !is_control(
                (#[trigger] alts[k]).class,
                alts[k].subclass,
                alts[k].protocol,
            )) ==> control_interface(alts) == Some(alts[j].interface_number),
        (forall|k: int|
            0 <= k < alts.len() ==> !is_control(
                (#[trigger] alts[k]).class,
                alts[k].subclass,
                alts[k].protocol,
            )) ==> control_interface(alts) is None,
    decreases alts.len(),
{
    if alts.len() > 0 {
        let front = alts.drop_last();
        assert(alts.last() == alts[alts.len() - 1]);
        assert forall|k: int| 0 <= k < front.len() implies front[k] == #[trigger] alts[k] by {}
        lemma_last_control_counts(front, j);
        if j == alts.len() - 1 {
            assert(alts.last() == alts[j]);
        } else if 0 <= j < front.len() {
            assert(front[j] == alts[j]);
        }
    }
}

/// The interface for data is that of the last setting for data behind the first
/// setting for control; without such a setting there is none, and the interface
/// behind the one for control is taken.
pub proof fn lemma_last_data_counts(alts: Seq<AltSetting>, c: int, j: int)
    ensures
        0 <= c < j < alts.len() && is_control(alts[c].class, alts[c].subclass, alts[c].protocol)
            && alts[j].class == 0x0A && (forall|k: int|
            j < k < alts.len() ==> (#[trigger] alts[k]).class != 0x0A) ==> data_interface(alts)
            == Some(alts[j].interface_number),
        (forall|k: int| 0 <= k < alts.len() ==> (#[trigger] alts[k]).class != 0x0A)
            ==> data_interface(alts) is None,
        control_interface(alts) is None ==> data_interface(alts) is None,
        (control_interface(alts) matches Some(comm) && data_interface(alts) is None)
            ==> chosen_interfaces(alts) == Some(
            (control_interface(alts)->0, control_interface(alts)->0 + 1),
        ),
        (control_interface(alts) is Some && data_interface(alts) is Some) ==> chosen_interfaces(
            alts,
        ) == Some((control_interface(alts)->0, data_interface(alts)->0 as int)),
        control_interface(alts) is None ==> chosen_interfaces(alts) is None,
    decreases alts.len(),
{
    if alts.len() > 0 {
        let front = alts.drop_last();
        assert(alts.last() == alts[alts.len() - 1]);
        assert forall|k: int| 0 <= k < front.len() implies front[k] == #[trigger] alts[k] by {}
        lemma_last_data_counts(front, c, j);
        if 0 <= c < alts.len() && is_control(alts[c].class, alts[c].subclass, alts[c].protocol) {
            lemma_control_is_found(alts, c);
        }
        if 0 <= j < front.len() {
            assert(front[j] == alts[j]);
            assert(0 <= c < j ==> front[c] == alts[c]);
        }
    }
}

proof fn lemma_control_is_found(alts: Seq<AltSetting>, c: int)
    requires
        0 <= c < alts.len(),
        is_control(alts[c].class, alts[c].subclass, alts[c].protocol),
    ensures
        control_interface(alts) is Some,
    decreases alts.len(),
{
    if c < alts.len() - 1 {
        assert(alts.drop_last()[c] == alts[c]);
        lemma_control_is_found(alts.drop_last(), c);
    } else {
        assert(alts.last() == alts[c]);
    }
}

/// Of the endpoints that can play a part the last one does; where none can, what
/// was there before stays.
pub proof fn lemma_last_endpoint_counts(
    eps: Seq<EndpointInfo>,
    role: EndpointRole,
    other: u8,
    j: int,
)
    ensures
        0 <= j < eps.len() && plays(eps[j], role) && (forall|k: int|
            j < k < eps.len() ==> !plays(#[trigger] eps[k], role)) ==> last_in_role(
            eps,
            role,
            other,
        ) == eps[j].address,
        (forall|k: int| 0 <= k < eps.len() ==> !plays(#[trigger] eps[k], role)) ==> last_in_role(
            eps,
            role,
            other,
        ) == other,
    decreases eps.len(),
{
    if eps.len() > 0 {
        let front = eps.drop_last();
        assert(eps.last() == eps[eps.len() - 1]);
        assert forall|k: int| 0 <= k < front.len() implies front[k] == #[trigger] eps[k] by {}
        lemma_last_endpoint_counts(front, role, other, j);
        if 0 <= j < front.len() {
            assert(front[j] == eps[j]);
        }
    }
}

/// Bulk data comes in through endpoints whose address has its highest bit set,
/// and goes out through the others; the part for interrupts goes by the kind
/// alone.
pub proof fn lemma_parts(ep: EndpointInfo)
    ensures
        plays(ep, EndpointRole::BulkIn) <==> ep.kind == TransferKind::Bulk && ep.address >= 128,
        plays(ep, EndpointRole::BulkOut) <==> ep.kind == TransferKind::Bulk && ep.address < 128,
        plays(ep, EndpointRole::Interrupt) <==> ep.kind == TransferKind::Interrupt,
{
}

/// The endpoints of a row of settings are those of its parts, in their order;
/// settings that are not to be kept add none.
pub proof fn lemma_endpoints_add_up(
    a: Seq<AltSetting>,
    b: Seq<AltSetting>,
    alt: AltSetting,
    keep: spec_fn(AltSetting) -> bool,
)
    ensures
        endpoints_of(a + b, keep) == endpoints_of(a, keep) + endpoints_of(b, keep),
        keep(alt) ==> endpoints_of(seq![alt], keep) == alt.endpoints@,
        !keep(alt) ==> endpoints_of(seq![alt], keep).len() == 0,
    decreases b.len(),
{
    let one = seq![alt];
    assert(one.drop_last() =~= Seq::empty());
    assert(endpoints_of(one.drop_last(), keep) =~= Seq::empty());
    assert(one.last() == alt);
    assert(Seq::<EndpointInfo>::empty() + alt.endpoints@ =~= alt.endpoints@);
    if b.len() == 0 {
        assert(a + b =~= a);
        assert(endpoints_of(a, keep) + endpoints_of(b, keep) =~= endpoints_of(a, keep));
    } else {
        lemma_endpoints_add_up(a, b.drop_last(), alt, keep);
        assert((a + b).drop_last() =~= a + b.drop_last());
        assert((a + b).last() == b.last());
        assert(endpoints_of(a + b, keep) =~= endpoints_of(a, keep) + endpoints_of(b, keep));
    }
}

/// A device with one setting for control and one for data, of which the first has
/// an endpoint for interrupts and the second one for bulk data each way, is used
/// by just these endpoints, whatever their addresses and their order.
pub proof fn lemma_usual_device(
    comm: AltSetting,
    data: AltSetting,
    int_addr: u8,
    in_addr: u8,
    out_addr: u8,
)
    requires
        comm.interface_number != data.interface_number,
        is_control(comm.class, comm.subclass, comm.protocol),
        !is_control(data.class, data.subclass, data.protocol),
        data.class == 0x0A,
        comm.endpoints@ == seq![
            EndpointInfo { address: int_addr, kind: TransferKind::Interrupt },
        ],
        data.endpoints@ == seq![
            EndpointInfo { address: in_addr, kind: TransferKind::Bulk },
            EndpointInfo { address: out_addr, kind: TransferKind::Bulk },
        ] || data.endpoints@ == seq![
            EndpointInfo { address: out_addr, kind: TransferKind::Bulk },
            EndpointInfo { address: in_addr, kind: TransferKind::Bulk },
        ],
        in_addr >= 128,
        out_addr < 128,
    ensures
        chosen_interfaces(seq![comm, data]) == Some(
            (comm.interface_number, data.interface_number as int),
        ),
        chosen_endpoints(
            seq![comm, data],
            comm.interface_number,
            data.interface_number,
        ) == (Endpoints { ep_in: in_addr, ep_out: out_addr, ep_int: int_addr }),
{
    let alts = seq![comm, data];
    lemma_last_control_counts(alts, 0);
    lemma_last_data_counts(alts, 0, 1);
    let c = comm.interface_number;
    let d = data.interface_number;
    let both = |a: AltSetting| a.interface_number == c || a.interface_number == d;
    let control = |a: AltSetting| a.interface_number == c;
    assert(alts =~= seq![comm] + seq![data]);
    lemma_endpoints_add_up(seq![comm], seq![data], comm, both);
    lemma_endpoints_add_up(seq![comm], seq![data], data, both);
    lemma_endpoints_add_up(seq![comm], seq![data], comm, control);
    lemma_endpoints_add_up(seq![comm], seq![data], data, control);
    let eps = endpoints_of(alts, both);
    let ints = endpoints_of(alts, control);
    assert(eps =~= comm.endpoints@ + data.endpoints@);
    assert(ints =~= comm.endpoints@);
    assert(ints[0] == EndpointInfo { address: int_addr, kind: TransferKind::Interrupt });
    lemma_last_endpoint_counts(ints, EndpointRole::Interrupt, 0, 0);
    assert(eps.len() == 3 && eps[0] == ints[0]);
    assert(eps[1] == data.endpoints@[0] && eps[2] == data.endpoints@[1]);
    let at = if eps[1].address == in_addr {
        1int
    } else {
        2int
    };
    lemma_last_endpoint_counts(eps, EndpointRole::BulkIn, 0, at);
    lemma_last_endpoint_counts(eps, EndpointRole::BulkOut, 0, 3 - at);
}

/// Where the interface for data has to be switched, its first alternate setting
/// tells the endpoints for bulk data, whatever other settings there are; the
/// endpoint for interrupts stays, and so do those that it does not tell.
pub proof fn lemma_alternate_setting_counts(
    found: Endpoints,
    before: Seq<AltSetting>,
    alt: AltSetting,
    after: Seq<AltSetting>,
    data: u8,
    j: int,
    k: int,
)
    requires
        alt.interface_number == data && alt.alternate_setting == 1,
        forall|i: int|
            0 <= i < before.len() ==> (#[trigger] before[i]).interface_number != data
                || before[i].alternate_setting != 1,
        forall|i: int|
            0 <= i < after.len() ==> (#[trigger] after[i]).interface_number != data
                || after[i].alternate_setting != 1,
        0 <= j < alt.endpoints@.len() && plays(alt.endpoints@[j], EndpointRole::BulkIn),
        forall|i: int|
            j < i < alt.endpoints@.len() ==> !plays(
                #[trigger] alt.endpoints@[i],
                EndpointRole::BulkIn,
            ),
        0 <= k < alt.endpoints@.len() && plays(alt.endpoints@[k], EndpointRole::BulkOut),
        forall|i: int|
            k < i < alt.endpoints@.len() ==> !plays(
                #[trigger] alt.endpoints@[i],
                EndpointRole::BulkOut,
            ),
    ensures
        switched_endpoints(found, before + seq![alt] + after, data) == (Endpoints {
            ep_in: alt.endpoints@[j].address,
            ep_out: alt.endpoints@[k].address,
            ep_int: found.ep_int,
        }),
{
    let keep = |a: AltSetting| a.interface_number == data && a.alternate_setting == 1;
    let all = before + seq![alt] + after;
    lemma_endpoints_add_up(before + seq![alt], after, alt, keep);
    lemma_endpoints_add_up(before, seq![alt], alt, keep);
    lemma_no_endpoints(before, keep);
    lemma_no_endpoints(after, keep);
    assert(endpoints_of(all, keep) =~= alt.endpoints@);
    lemma_last_endpoint_counts(alt.endpoints@, EndpointRole::BulkIn, found.ep_in, j);
    lemma_last_endpoint_counts(alt.endpoints@, EndpointRole::BulkOut, found.ep_out, k);
}

proof fn lemma_no_endpoints(alts: Seq<AltSetting>, keep: spec_fn(AltSetting) -> bool)
    requires
        forall|i: int| 0 <= i < alts.len() ==> !keep(#[trigger] alts[i]),
    ensures
        endpoints_of(alts, keep).len() == 0,
    decreases alts.len(),
{
    if alts.len() > 0 {
        let front = alts.drop_last();
        assert(!keep(alts[alts.len() - 1]));
        assert forall|i: int| 0 <= i < front.len() implies !keep(#[trigger] front[i]) by {
            assert(front[i] == alts[i]);
        }
        lemma_no_endpoints(front, keep);
    }
}

proof fn lemma_none_in_role(
    alts: Seq<AltSetting>,
    keep: spec_fn(AltSetting) -> bool,
    role: EndpointRole,
    other: u8,
)
    requires
        forall|m: int, k: int|
            0 <= m < alts.len() && keep(alts[m]) && 0 <= k < alts[m].endpoints@.len() ==> !plays(
                #[trigger] alts[m].endpoints@[k],
                role,
            ),
    ensures
        last_in_role(endpoints_of(alts, keep), role, other) == other,
    decreases alts.len(),
{
    if alts.len() > 0 {
        let front = alts.drop_last();
        let n = alts.len() - 1;
        assert(alts.last() == alts[n]);
        assert forall|m: int, k: int|
            0 <= m < front.len() && keep(front[m]) && 0 <= k
                < front[m].endpoints@.len() implies !plays(
            #[trigger] front[m].endpoints@[k],
            role,
        ) by {
            assert(front[m] == alts[m]);
            assert(!plays(alts[m].endpoints@[k], role));
        }
        lemma_none_in_role(front, keep, role, other);
        if keep(alts[n]) {
            let last = alts[n].endpoints@;
            assert forall|k: int| 0 <= k < last.len() implies !plays(#[trigger] last[k], role) by {
                assert(!plays(alts[n].endpoints@[k], role));
            }
            lemma_last_in_role_append(endpoints_of(front, keep), last, role, other);
            lemma_last_endpoint_counts(last, role, other, 0);
        }
    }
}

/// Of all the endpoints of the settings that count, the last one that can play a
/// part does, wherever its setting stands.
pub proof fn lemma_last_of_all_counts(
    alts: Seq<AltSetting>,
    keep: spec_fn(AltSetting) -> bool,
    role: EndpointRole,
    other: u8,
    i: int,
    j: int,
)
    requires
        0 <= i < alts.len(),
        keep(alts[i]),
        0 <= j < alts[i].endpoints@.len(),
        plays(alts[i].endpoints@[j], role),
        forall|k: int|
            j < k < alts[i].endpoints@.len() ==> !plays(#[trigger] alts[i].endpoints@[k], role),
        forall|m: int, k: int|
            i < m < alts.len() && keep(alts[m]) && 0 <= k < alts[m].endpoints@.len() ==> !plays(
                #[trigger] alts[m].endpoints@[k],
                role,
            ),
    ensures
        last_in_role(endpoints_of(alts, keep), role, other) == alts[i].endpoints@[j].address,
{
    let front = alts.take(i);
    let back = alts.skip(i + 1);
    let alt = alts[i];
    assert(alts =~= front + seq![alt] + back);
    lemma_endpoints_add_up(front + seq![alt], back, alt, keep);
    lemma_endpoints_add_up(front, seq![alt], alt, keep);
    let a = endpoints_of(front, keep);
    let b = endpoints_of(back, keep);
    let before = last_in_role(a, role, other);
    lemma_last_in_role_append(a + alt.endpoints@, b, role, other);
    lemma_last_in_role_append(a, alt.endpoints@, role, other);
    lemma_last_endpoint_counts(alt.endpoints@, role, before, j);
    assert forall|m: int, k: int|
        0 <= m < back.len() && keep(back[m]) && 0 <= k < back[m].endpoints@.len() implies !plays(
        #[trigger] back[m].endpoints@[k],
        role,
    ) by {
        assert(back[m] == alts[i + 1 + m]);
        assert(!plays(alts[i + 1 + m].endpoints@[k], role));
    }
    lemma_none_in_role(back, keep, role, alt.endpoints@[j].address);
}

/// Which settings count: for bulk data those of both interfaces, for interrupts
/// those of the interface for control, and after a switch the first alternate
/// setting of the interface for data. A part that no endpoint can play is left
/// open, or stays as it was before the switch.
pub proof fn lemma_settings_that_count(
    found: Endpoints,
    alts: Seq<AltSetting>,
    comm: u8,
    data: u8,
)
    ensures
        ({
            let both = endpoints_of(
                alts,
                |a: AltSetting| a.interface_number == comm || a.interface_number == data,
            );
            let control = endpoints_of(alts, |a: AltSetting| a.interface_number == comm);
            let first = endpoints_of(
                alts,
                |a: AltSetting| a.interface_number == data && a.alternate_setting == 1,
            );
            let eps = chosen_endpoints(alts, comm, data);
            let switched = switched_endpoints(found, alts, data);
            &&& eps.ep_in == last_in_role(both, EndpointRole::BulkIn, 0)
            &&& eps.ep_out == last_in_role(both, EndpointRole::BulkOut, 0)
            &&& eps.ep_int == last_in_role(control, EndpointRole::Interrupt, 0)
            &&& switched.ep_in == last_in_role(first, EndpointRole::BulkIn, found.ep_in)
            &&& switched.ep_out == last_in_role(first, EndpointRole::BulkOut, found.ep_out)
            &&& switched.ep_int == found.ep_int
            &&& found.complete() <==> found.ep_in > 0 && found.ep_out > 0
        }),
{
}

/// Settings for data count only behind a setting for control.
pub proof fn lemma_data_behind_control(alts: Seq<AltSetting>)
    requires
        forall|c: int, k: int|
            0 <= c <= k < alts.len() && (#[trigger] alts[k]).class == 0x0A ==> !is_control(
                (#[trigger] alts[c]).class,
                alts[c].subclass,
                alts[c].protocol,
            ),
    ensures
        data_interface(alts) is None,
    decreases alts.len(),
{
    if alts.len() > 0 {
        let front = alts.drop_last();
        let n = alts.len() - 1;
        assert(alts.last() == alts[n]);
        assert forall|c: int, k: int|
            0 <= c <= k < front.len() && (#[trigger] front[k]).class == 0x0A implies !is_control(
            (#[trigger] front[c]).class,
            front[c].subclass,
            front[c].protocol,
        ) by {
            assert(front[k] == alts[k] && front[c] == alts[c]);
        }
        lemma_data_behind_control(front);
        if alts[n].class == 0x0A {
            assert forall|c: int| 0 <= c < alts.len() implies !is_control(
                (#[trigger] alts[c]).class,
                alts[c].subclass,
                alts[c].protocol,
            ) by {
                assert(alts[n].class == 0x0A);
            }
            lemma_last_control_counts(alts, 0);
        }
    }
}

} // verus!
