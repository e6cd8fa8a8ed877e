//! Carrying Ethernet frames over USB by RNDIS.

use crate::bytes::{le32, le32_at, overlay};
use crate::error::TetherError;
use crate::net_types::zeros;
use crate::proto_driver::{frame_views, InitAction, InitActionView, ProtocolDriver};
use crate::rndis::{
    build_data_packet, build_init, build_keepalive, build_query, build_set, carried_frames,
    data_packet, fitting, init_error, init_message, keepalive_message, lemma_data_packet_bytes,
    lemma_packet_then, lemma_query_value_is_found, next_request,
    parse_init_cmplt, parse_query_cmplt, parse_set_cmplt, query_message, query_value, set_error,
    set_message, RndisPacketIter, RndisState, OID_802_3_CURRENT_ADDRESS,
    OID_802_3_PERMANENT_ADDRESS, OID_GEN_CURRENT_PACKET_FILTER, RNDIS_MAX_TRANSFER_SIZE,
    RNDIS_PACKET_TYPE_ALL_MULTICAST, RNDIS_PACKET_TYPE_BROADCAST, RNDIS_PACKET_TYPE_DIRECTED, RNDIS_PACKET_TYPE_MULTICAST,
};
use vstd::prelude::*;
use vstd::slice::slice_to_vec;

verus! {

/// How far setting up the device has come.
#[derive(Debug, Clone, Copy, PartialEq, Eq, Structural)]
pub enum InitStage {
    /// Nothing has been sent.
    Idle,
    /// The session is being opened.
    Opening,
    /// The current hardware address has been asked for.
    CurrentAddress,
    /// The permanent hardware address has been asked for.
    PermanentAddress,
    /// The packet filter has been set.
    Filter,
    /// All is done.
    Finished,
}

/// The packets that the device is to pass on: those to us, to groups, to all
/// groups and to everyone.
pub const PACKET_FILTER: u32 = 0x0000000F;

/// A device that speaks RNDIS.
#[derive(Debug, Clone, Copy)]
pub struct RndisDriver {
    pub state: RndisState,
    pub stage: InitStage,
}

/// The state after a reply to a question for a hardware address. A reply that
/// is no good leaves the address as it was; a short address is filled up with
/// zeros.
pub open spec fn learned(before: RndisState, after: RndisState, reply: Seq<u8>) -> bool {
    match query_value(reply) {
        Ok(value) => {
            &&& after.mac_addr@ == overlay(zeros(6), 0, fitting(value, 6))
            &&& after == (RndisState { mac_addr: after.mac_addr, ..before })
        },
        Err(_) => after == before,
    }
}

/// The bytes of the packet filter.
pub open spec fn filter_bytes() -> Seq<u8> {
    le32(PACKET_FILTER)
}

impl RndisDriver {
    /// A driver for a device of which nothing is known yet.
    pub fn new() -> (r: Self)
        ensures
            r.state.request_id == 0,
            r.state.max_transfer_size == RNDIS_MAX_TRANSFER_SIZE,
            r.state.medium == 0,
            r.state.mac_addr@ == zeros(6),
            !r.state.link_up,
            r.stage == InitStage::Idle,
    {
        RndisDriver { state: RndisState::default(), stage: InitStage::Idle }
    }

    /// The driver after it has asked for the value of `oid`, and the message.
    pub open spec fn asks(
        self,
        state: RndisState,
        stage: InitStage,
        oid: u32,
        action: InitActionView,
    ) -> bool {
        &&& self.state == next_request(state)
        &&& self.stage == stage
        &&& action == (InitActionView::Send {
            message: query_message(oid, self.state.request_id),
            delay_ms: 50,
        })
    }

    /// What a reply makes of the driver `before`, and what is to be done then.
    pub open spec fn follows(
        self,
        before: RndisDriver,
        reply: Seq<u8>,
        action: InitActionView,
    ) -> bool {
        match before.stage {
            InitStage::Opening => match init_error(reply) {
                Some(e) => {
                    &&& action == InitActionView::Failed(e)
                    &&& self == (RndisDriver { stage: InitStage::Idle, ..before })
                },
                None => self.asks(
                    RndisState {
                        max_transfer_size: le32_at(reply, 40),
                        medium: le32_at(reply, 28),
                        ..before.state
                    },
                    InitStage::CurrentAddress,
                    OID_802_3_CURRENT_ADDRESS,
                    action,
                ),
            },
            InitStage::CurrentAddress => exists|state: RndisState|
                #[trigger] learned(before.state, state, reply) && self.asks(
                    state,
                    InitStage::PermanentAddress,
                    OID_802_3_PERMANENT_ADDRESS,
                    action,
                ),
            InitStage::PermanentAddress => exists|state: RndisState|
                #[trigger] learned(before.state, state, reply) && {
                    &&& self.state == next_request(state)
                    &&& self.stage == InitStage::Filter
                    &&& action == (InitActionView::Send {
                        message: set_message(
                            OID_GEN_CURRENT_PACKET_FILTER,
                            filter_bytes(),
                            self.state.request_id,
                        ),
                        delay_ms: 50,
                    })
                },
            InitStage::Filter => {
                &&& self.state == (RndisState { link_up: true, ..before.state })
                &&& self.stage == InitStage::Finished
                &&& action == (InitActionView::Ready { complete: set_error(reply) is None })
            },
            _ => true,
        }
    }

    fn ask(&mut self, stage: InitStage, oid: u32) -> (r: InitAction)
        requires
            old(self).state.request_id < u32::MAX,
        ensures
            final(self).asks(old(self).state, stage, oid, r@),
    {
        let mut buf = [0u8; 28];
        let ghost base = buf@;
        let _ = build_query(&mut buf, oid, &mut self.state);
        self.stage = stage;
        let message = slice_to_vec(&buf);
        assert(message@ =~= query_message(oid, self.state.request_id));
        InitAction::Send { message, delay_ms: 50 }
    }

    fn learn(&mut self, reply: &[u8])
        ensures
            learned(old(self).state, final(self).state, reply@),
            final(self).stage == old(self).stage,
    {
        let mut mac = [0u8; 6];
        let ghost blank = mac@;
        assert(blank =~= zeros(6));
        if parse_query_cmplt(reply, &mut mac).is_ok() {
            self.state.mac_addr = mac;
        }
    }

    fn set_filter(&mut self) -> (r: InitAction)
        requires
            old(self).state.request_id < u32::MAX,
        ensures
            final(self).state == next_request(old(self).state),
            final(self).stage == InitStage::Filter,
            r@ == (InitActionView::Send {
                message: set_message(
                    OID_GEN_CURRENT_PACKET_FILTER,
                    filter_bytes(),
                    final(self).state.request_id,
                ),
                delay_ms: 50,
            }),
    {
        let filter = RNDIS_PACKET_TYPE_DIRECTED | RNDIS_PACKET_TYPE_MULTICAST
            | RNDIS_PACKET_TYPE_ALL_MULTICAST | RNDIS_PACKET_TYPE_BROADCAST;
        assert(filter == 15) by {
            assert(1u32 | 2u32 | 4u32 | 8u32 == 15u32) by (bit_vector);
        }
        let data = [
            (filter % 256) as u8,
            (filter / 256 % 256) as u8,
            (filter / 0x1_0000 % 256) as u8,
            (filter / 0x100_0000) as u8,
        ];
        assert(data@ =~= filter_bytes());
        let mut buf = [0u8; 32];
        let _ = build_set(&mut buf, OID_GEN_CURRENT_PACKET_FILTER, &data, &mut self.state);
        self.stage = InitStage::Filter;
        let message = slice_to_vec(&buf);
        assert(message@ =~= set_message(
            OID_GEN_CURRENT_PACKET_FILTER,
            filter_bytes(),
            self.state.request_id,
        ));
        InitAction::Send { message, delay_ms: 50 }
    }
}

impl ProtocolDriver for RndisDriver {
    open spec fn wrapped(&self, eth: Seq<u8>) -> Seq<u8> {
        data_packet(eth)
    }

    open spec fn unwrapped(&self, usb_data: Seq<u8>) -> Seq<Seq<u8>> {
        carried_frames(usb_data)
    }

    open spec fn address(&self) -> [u8; 6] {
        self.state.mac_addr
    }

    open spec fn fits(&self, len: nat) -> bool {
        44 + len <= usize::MAX
    }

    open spec fn can_send(&self) -> bool {
        self.state.request_id < u32::MAX
    }

    open spec fn awaits_reply(&self) -> bool {
        match self.stage {
            InitStage::Opening | InitStage::CurrentAddress | InitStage::PermanentAddress => {
                self.state.request_id < u32::MAX
            },
            InitStage::Filter => true,
            _ => false,
        }
    }

    fn name(&self) -> (r: &str)
        ensures
            r@ == "rndis"@,
    {
        "rndis"
    }

    fn init(&mut self) -> (r: InitAction)
        ensures
            final(self).state == next_request(old(self).state),
            final(self).stage == InitStage::Opening,
            r@ == (InitActionView::Send {
                message: init_message(final(self).state.request_id),
                delay_ms: 100,
            }),
    {
        let mut buf = [0u8; 24];
        let _ = build_init(&mut buf, &mut self.state);
        self.stage = InitStage::Opening;
        let message = slice_to_vec(&buf);
        assert(message@ =~= init_message(self.state.request_id));
        InitAction::Send { message, delay_ms: 100 }
    }

    fn init_reply(&mut self, reply: &[u8]) -> (r: InitAction)
        ensures
            final(self).follows(*old(self), reply@, r@),
    {
        match self.stage {
            InitStage::Opening => {
                match parse_init_cmplt(reply, &mut self.state) {
                    Err(e) => {
                        self.stage = InitStage::Idle;
                        InitAction::Failed(e)
                    },
                    Ok(()) => self.ask(InitStage::CurrentAddress, OID_802_3_CURRENT_ADDRESS),
                }
            },
            InitStage::CurrentAddress => {
                self.learn(reply);
                self.ask(InitStage::PermanentAddress, OID_802_3_PERMANENT_ADDRESS)
            },
            InitStage::PermanentAddress => {
                self.learn(reply);
                self.set_filter()
            },
            InitStage::Filter => {
                let complete = parse_set_cmplt(reply).is_ok();
                self.state.link_up = true;
                self.stage = InitStage::Finished;
                InitAction::Ready { complete }
            },
            _ => InitAction::Ready { complete: false },
        }
    }

    fn mac(&self) -> [u8; 6] {
        self.state.mac_addr
    }

    fn wrap_frame(&self, eth: &[u8], out: &mut [u8]) -> (r: Result<usize, TetherError>) {
        build_data_packet(out, eth)
    }

    fn unwrap_data(&self, usb_data: &[u8]) -> (r: Vec<Vec<u8>>) {
        let mut out: Vec<Vec<u8>> = Vec::new();
        let mut packets = RndisPacketIter::new(usb_data);
        let ghost all = packets.remaining();
        assert(frame_views(out@) + packets.remaining() =~= all);
        loop
            invariant_except_break
                frame_views(out@) + packets.remaining() == all,
            invariant
                all == carried_frames(usb_data@),
            ensures
                frame_views(out@) == all,
            decreases packets.remaining().len(),
        {
            let ghost rest = packets.remaining();
            let ghost before = out@;
            match packets.next() {
                None => {
                    assert(frame_views(out@) + rest =~= frame_views(out@));
                    break ;
                },
                Some(frame) => {
                    out.push(slice_to_vec(frame));
                    assert(frame_views(out@) =~= frame_views(before).push(frame@));
                    assert(frame_views(out@) + packets.remaining() =~= frame_views(before) + rest);
                },
            }
        }
        out
    }

    fn keepalive(&mut self) -> (r: Option<Vec<u8>>)
        ensures
            final(self).state == next_request(old(self).state),
            final(self).stage == old(self).stage,
            r matches Some(message) && message@ == keepalive_message(
                final(self).state.request_id,
            ),
    {
        let mut buf = [0u8; 12];
        let _ = build_keepalive(&mut buf, &mut self.state);
        let message = slice_to_vec(&buf);
        assert(message@ =~= keepalive_message(self.state.request_id));
        Some(message)
    }
}

/// The hardware address that a reply names, or `other` where it names none.
pub open spec fn address_from(reply: Seq<u8>, other: Seq<u8>) -> Seq<u8> {
    match query_value(reply) {
        Ok(value) => overlay(zeros(6), 0, fitting(value, 6)),
        Err(_) => other,
    }
}

/// Once the device has accepted the session, setting it up takes three more
/// messages and always succeeds. The hardware address is then the permanent
/// one; where that could not be had, the current one; and where neither could
/// be had, the one from before.
pub proof fn lemma_set_up(
    opening: RndisDriver,
    asked: RndisDriver,
    asked_again: RndisDriver,
    filtering: RndisDriver,
    done: RndisDriver,
    replies: (Seq<u8>, Seq<u8>, Seq<u8>, Seq<u8>),
    actions: (InitActionView, InitActionView, InitActionView, InitActionView),
)
    requires
        opening.stage == InitStage::Opening,
        opening.state.request_id + 3 <= u32::MAX,
        init_error(replies.0) is None,
        asked.follows(opening, replies.0, actions.0),
        asked_again.follows(asked, replies.1, actions.1),
        filtering.follows(asked_again, replies.2, actions.2),
        done.follows(filtering, replies.3, actions.3),
    ensures
        actions.0 is Send && actions.1 is Send && actions.2 is Send,
        actions.3 == (InitActionView::Ready { complete: set_error(replies.3) is None }),
        done.stage == InitStage::Finished,
        done.state.link_up,
        done.state.request_id == opening.state.request_id + 3,
        done.state.mac_addr@ == address_from(
            replies.2,
            address_from(replies.1, opening.state.mac_addr@),
        ),
{
}

/// A reply to a question for a value, with whatever stands before the value and
/// behind it.
pub open spec fn reply_with(
    id: Seq<u8>,
    between: Seq<u8>,
    value: Seq<u8>,
    rest: Seq<u8>,
) -> Seq<u8> {
    seq![4u8, 0, 0, 0x80] + id + seq![0u8, 0, 0, 0] + le32(value.len() as u32) + le32(
        (16 + between.len()) as u32,
    ) + between + value + rest
}

/// The hardware address that a reply names is that of its value: the first six
/// bytes, or all of them with zeros behind where there are fewer.
pub proof fn lemma_address_in_reply(
    id: Seq<u8>,
    between: Seq<u8>,
    value: Seq<u8>,
    rest: Seq<u8>,
    other: Seq<u8>,
)
    requires
        id.len() == 8,
        24 + between.len() + value.len() + rest.len() <= u32::MAX,
    ensures
        value.len() >= 6 ==> address_from(reply_with(id, between, value, rest), other)
            == value.take(6),
        value.len() < 6 ==> address_from(reply_with(id, between, value, rest), other) == value
            + zeros((6 - value.len()) as nat),
{
    lemma_query_value_is_found(id, between, value, rest);
    let got = address_from(reply_with(id, between, value, rest), other);
    if value.len() >= 6 {
        assert(fitting(value, 6) =~= value.take(6));
        assert(got =~= value.take(6));
    } else {
        assert(got =~= value + zeros((6 - value.len()) as nat));
    }
}

/// Setting up a device, step by step: once it accepts the session, the current
/// address is asked for, then the permanent one, and then the packets for us,
/// for groups and for everyone are asked for, each message with the next number.
/// The address is the permanent one, if the device names it, and else the current
/// one. A device that refuses the session is given up.
pub proof fn lemma_set_up_messages(
    opening: RndisDriver,
    asked: RndisDriver,
    asked_again: RndisDriver,
    filtering: RndisDriver,
    replies: (Seq<u8>, Seq<u8>, Seq<u8>),
    actions: (InitActionView, InitActionView, InitActionView),
)
    requires
        opening.stage == InitStage::Opening,
        opening.state.request_id + 3 <= u32::MAX,
        asked.follows(opening, replies.0, actions.0),
        init_error(replies.0) is None ==> {
            &&& asked_again.follows(asked, replies.1, actions.1)
            &&& filtering.follows(asked_again, replies.2, actions.2)
        },
    ensures
        init_error(replies.0) is Some ==> actions.0 is Failed && asked.state == opening.state,
        init_error(replies.0) is None ==> {
            let id = opening.state.request_id;
            &&& actions.0 == (InitActionView::Send {
                message: query_message(0x01010102, (id + 1) as u32),
                delay_ms: 50,
            })
            &&& actions.1 == (InitActionView::Send {
                message: query_message(0x01010101, (id + 2) as u32),
                delay_ms: 50,
            })
            &&& actions.2 == (InitActionView::Send {
                message: set_message(0x0001010E, seq![15u8, 0, 0, 0], (id + 3) as u32),
                delay_ms: 50,
            })
            &&& asked.state.max_transfer_size == le32_at(replies.0, 40)
            &&& asked.state.medium == le32_at(replies.0, 28)
            &&& asked.state.mac_addr == opening.state.mac_addr
            &&& asked_again.state.mac_addr@ == address_from(
                replies.1,
                opening.state.mac_addr@,
            )
            &&& filtering.state.mac_addr@ == address_from(
                replies.2,
                asked_again.state.mac_addr@,
            )
        },
{
    assert(filter_bytes() =~= seq![15u8, 0, 0, 0]);
}

/// Bytes that the driver makes of a frame are taken apart to this frame, whatever
/// follows on them.
pub proof fn lemma_driver_roundtrip(drv: RndisDriver, frame: Seq<u8>, rest: Seq<u8>)
    requires
        0 < frame.len(),
        44 + frame.len() <= u32::MAX,
    ensures
        drv.unwrapped(drv.wrapped(frame) + rest) == seq![frame] + drv.unwrapped(rest),
        drv.wrapped(frame).len() == 44 + frame.len(),
{
    lemma_packet_then(frame, rest);
    lemma_data_packet_bytes(frame);
}

} // verus!
