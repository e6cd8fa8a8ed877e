//! RNDIS messages: control messages to the device, and the data packets that
//! carry Ethernet frames.

use crate::bytes::{
    le32, le32_at, lemma_le32_roundtrip, lemma_overlay_append, lemma_read_in_row, lemma_read_values,
    overlay, put,
};
use crate::error::{too_small, TetherError, TetherErrorView};
use crate::net_types::zeros;
use crate::text::{append_prefixed_hex, prefixed_hex};
use vstd::prelude::*;

verus! {

pub const RNDIS_MSG_INIT: u32 = 0x00000002;

pub const RNDIS_MSG_INIT_C: u32 = 0x80000002;

pub const RNDIS_MSG_HALT: u32 = 0x00000003;

pub const RNDIS_MSG_QUERY: u32 = 0x00000004;

pub const RNDIS_MSG_QUERY_C: u32 = 0x80000004;

pub const RNDIS_MSG_SET: u32 = 0x00000005;

pub const RNDIS_MSG_SET_C: u32 = 0x80000005;

pub const RNDIS_MSG_RESET: u32 = 0x00000006;

pub const RNDIS_MSG_RESET_C: u32 = 0x80000006;

pub const RNDIS_MSG_INDICATE: u32 = 0x00000001;

pub const RNDIS_MSG_KEEPALIVE: u32 = 0x00000008;

pub const RNDIS_MSG_KEEPALIVE_C: u32 = 0x80000008;

pub const RNDIS_MSG_PACKET: u32 = 0x00000001;

pub const RNDIS_STATUS_SUCCESS: u32 = 0x00000000;

pub const RNDIS_STATUS_MEDIA_CONNECT: u32 = 0x4001000B;

pub const OID_GEN_CURRENT_PACKET_FILTER: u32 = 0x0001010E;

pub const OID_802_3_PERMANENT_ADDRESS: u32 = 0x01010101;

pub const OID_802_3_CURRENT_ADDRESS: u32 = 0x01010102;

pub const RNDIS_PACKET_TYPE_DIRECTED: u32 = 0x00000001;

pub const RNDIS_PACKET_TYPE_MULTICAST: u32 = 0x00000002;

pub const RNDIS_PACKET_TYPE_ALL_MULTICAST: u32 = 0x00000004;

pub const RNDIS_PACKET_TYPE_BROADCAST: u32 = 0x00000008;

pub const RNDIS_MAJOR_VERSION: u32 = 1;

pub const RNDIS_MINOR_VERSION: u32 = 0;

pub const RNDIS_MAX_TRANSFER_SIZE: u32 = 0x8000;

/// The bytes of a row of 32-bit words, each with its least significant byte
/// first.
pub open spec fn le_words(words: Seq<u32>) -> Seq<u8> {
    Seq::new(4 * words.len(), |i: int| le32(words[i / 4])[i % 4])
}

proof fn lemma_le_words_push(words: Seq<u32>, w: u32)
    ensures
        le_words(words.push(w)) == le_words(words) + le32(w),
{
    assert(le_words(words.push(w)) =~= le_words(words) + le32(w));
}

proof fn lemma_le_words_at(words: Seq<u32>, tail: Seq<u8>, k: int)
    requires
        0 <= k < words.len(),
    ensures
        le32_at(le_words(words) + tail, 4 * k) == words[k],
{
    let s = le_words(words) + tail;
    lemma_le32_roundtrip(words[k]);
    assert(s[4 * k] == le32(words[k])[0]);
    assert(s[4 * k + 1] == le32(words[k])[1]);
    assert(s[4 * k + 2] == le32(words[k])[2]);
    assert(s[4 * k + 3] == le32(words[k])[3]);
}

/// Reads a 32-bit word, least significant byte first.
pub fn read_u32(buf: &[u8], offset: usize) -> (r: u32)
    requires
        offset + 4 <= buf@.len(),
    ensures
        r == le32_at(buf@, offset as int),
{
    buf[offset] as u32 + (buf[offset + 1] as u32) * 256 + (buf[offset + 2] as u32) * 0x1_0000 + (
    buf[offset + 3] as u32) * 0x100_0000
}

/// Writes a 32-bit word, least significant byte first.
pub fn write_u32(buf: &mut [u8], offset: usize, val: u32)
    requires
        offset + 4 <= old(buf)@.len(),
    ensures
        final(buf)@ == overlay(old(buf)@, offset as int, le32(val)),
        final(buf)@.len() == old(buf)@.len(),
{
    let bytes = [
        (val % 256) as u8,
        (val / 256 % 256) as u8,
        (val / 0x1_0000 % 256) as u8,
        (val / 0x100_0000) as u8,
    ];
    assert(bytes@ =~= le32(val));
    put(buf, offset, &bytes);
}

/// Writes a row of words at the start of `buf`.
fn write_words(buf: &mut [u8], words: &[u32])
    requires
        4 * words@.len() <= old(buf)@.len(),
    ensures
        final(buf)@ == overlay(old(buf)@, 0, le_words(words@)),
        final(buf)@.len() == old(buf)@.len(),
{
    let ghost base = buf@;
    let n = words.len();
    let total = buf.len();
    let mut i: usize = 0;
    assert(base =~= overlay(base, 0, le_words(words@.take(0))));
    while i < n
        invariant
            i <= n,
            n == words@.len(),
            total == base.len(),
            4 * n <= total,
            buf@.len() == base.len(),
            buf@ == overlay(base, 0, le_words(words@.take(i as int))),
        decreases n - i,
    {
        write_u32(buf, 4 * i, words[i]);
        proof {
            let done = words@.take(i as int);
            assert(words@.take(i + 1) =~= done.push(words@[i as int]));
            lemma_le_words_push(done, words@[i as int]);
            lemma_overlay_append(base, 0, le_words(done), le32(words@[i as int]));
        }
        i = i + 1;
    }
    assert(words@.take(n as int) =~= words@);
}

/// What is known of the device.
#[derive(Debug, Clone, Copy)]
pub struct RndisState {
    pub request_id: u32,
    pub max_transfer_size: u32,
    pub medium: u32,
    pub mac_addr: [u8; 6],
    pub link_up: bool,
}

impl Default for RndisState {
    fn default() -> (r: Self)
        ensures
            r.request_id == 0,
            r.max_transfer_size == RNDIS_MAX_TRANSFER_SIZE,
            r.medium == 0,
            r.mac_addr@ == zeros(6),
            !r.link_up,
    {
        let r = RndisState {
            request_id: 0,
            max_transfer_size: RNDIS_MAX_TRANSFER_SIZE,
            medium: 0,
            mac_addr: [0, 0, 0, 0, 0, 0],
            link_up: false,
        };
        assert(r.mac_addr@ =~= zeros(6));
        r
    }
}

/// The message that opens a session.
pub open spec fn init_message(id: u32) -> Seq<u8> {
    le_words(
        seq![
            RNDIS_MSG_INIT,
            24,
            id,
            RNDIS_MAJOR_VERSION,
            RNDIS_MINOR_VERSION,
            RNDIS_MAX_TRANSFER_SIZE,
        ],
    )
}

/// The message that asks for the value of `oid`.
pub open spec fn query_message(oid: u32, id: u32) -> Seq<u8> {
    le_words(seq![RNDIS_MSG_QUERY, 28, id, oid, 0, 20, 0])
}

/// The message that sets `oid` to `data`.
pub open spec fn set_message(oid: u32, data: Seq<u8>, id: u32) -> Seq<u8> {
    le_words(
        seq![RNDIS_MSG_SET, (28 + data.len()) as u32, id, oid, data.len() as u32, 20, 0],
    ) + data
}

/// The message that keeps a session alive.
pub open spec fn keepalive_message(id: u32) -> Seq<u8> {
    le_words(seq![RNDIS_MSG_KEEPALIVE, 12, id])
}

/// The message that carries an Ethernet frame.
pub open spec fn data_packet(frame: Seq<u8>) -> Seq<u8> {
    le_words(
        seq![
            RNDIS_MSG_PACKET,
            (44 + frame.len()) as u32,
            36,
            frame.len() as u32,
            0,
            0,
            0,
            0,
            0,
            0,
            0,
        ],
    ) + frame
}

/// A message has been written at the start of a buffer.
pub open spec fn written(before: Seq<u8>, after: Seq<u8>, message: Seq<u8>) -> bool {
    after == overlay(before, 0, message)
}

/// `state` with the next request number.
pub open spec fn next_request(state: RndisState) -> RndisState {
    RndisState { request_id: (state.request_id + 1) as u32, ..state }
}

/// Writes the message that opens a session at the start of `buf`.
pub fn build_init(buf: &mut [u8], state: &mut RndisState) -> (r: Result<usize, TetherError>)
    requires
        old(buf)@.len() >= 24 ==> old(state).request_id < u32::MAX,
    ensures
        old(buf)@.len() < 24 ==> {
            &&& r matches Err(e) && e@ == too_small(24, old(buf)@.len())
            &&& final(buf)@ == old(buf)@
            &&& *final(state) == *old(state)
        },
        old(buf)@.len() >= 24 ==> {
            &&& r == Ok::<usize, TetherError>(24)
            &&& *final(state) == next_request(*old(state))
            &&& written(old(buf)@, final(buf)@, init_message(final(state).request_id))
        },
{
    let msg_size: usize = 24;
    if buf.len() < msg_size {
        return Err(TetherError::BufferTooSmall { need: msg_size, got: buf.len() });
    }
    state.request_id = state.request_id + 1;
    let words = [
        RNDIS_MSG_INIT,
        24,
        state.request_id,
        RNDIS_MAJOR_VERSION,
        RNDIS_MINOR_VERSION,
        RNDIS_MAX_TRANSFER_SIZE,
    ];
    write_words(buf, &words);
    assert(le_words(words@) =~= init_message(state.request_id));
    Ok(msg_size)
}

/// Writes the message that asks for the value of `oid` at the start of `buf`.
pub fn build_query(buf: &mut [u8], oid: u32, state: &mut RndisState) -> (r: Result<
    usize,
    TetherError,
>)
    requires
        old(buf)@.len() >= 28 ==> old(state).request_id < u32::MAX,
    ensures
        old(buf)@.len() < 28 ==> {
            &&& r matches Err(e) && e@ == too_small(28, old(buf)@.len())
            &&& final(buf)@ == old(buf)@
            &&& *final(state) == *old(state)
        },
        old(buf)@.len() >= 28 ==> {
            &&& r == Ok::<usize, TetherError>(28)
            &&& *final(state) == next_request(*old(state))
            &&& written(old(buf)@, final(buf)@, query_message(oid, final(state).request_id))
        },
{
    let msg_size: usize = 28;
    if buf.len() < msg_size {
        return Err(TetherError::BufferTooSmall { need: msg_size, got: buf.len() });
    }
    state.request_id = state.request_id + 1;
    let words = [RNDIS_MSG_QUERY, 28, state.request_id, oid, 0, 20, 0];
    write_words(buf, &words);
    assert(le_words(words@) =~= query_message(oid, state.request_id));
    Ok(msg_size)
}

/// Writes the message that sets `oid` to `data` at the start of `buf`.
pub fn build_set(buf: &mut [u8], oid: u32, data: &[u8], state: &mut RndisState) -> (r: Result<
    usize,
    TetherError,
>)
    requires
        28 + data@.len() <= usize::MAX,
        old(buf)@.len() >= 28 + data@.len() ==> old(state).request_id < u32::MAX,
    ensures
        old(buf)@.len() < 28 + data@.len() ==> {
            &&& r matches Err(e) && e@ == too_small(28 + data@.len(), old(buf)@.len())
            &&& final(buf)@ == old(buf)@
            &&& *final(state) == *old(state)
        },
        old(buf)@.len() >= 28 + data@.len() ==> {
            &&& r matches Ok(n) && n == 28 + data@.len()
            &&& *final(state) == next_request(*old(state))
            &&& written(old(buf)@, final(buf)@, set_message(oid, data@, final(state).request_id))
        },
{
    let hdr_size: usize = 28;
    let total = hdr_size + data.len();
    if buf.len() < total {
        return Err(TetherError::BufferTooSmall { need: total, got: buf.len() });
    }
    let ghost base = buf@;
    state.request_id = state.request_id + 1;
    let words = [
        RNDIS_MSG_SET,
        total as u32,
        state.request_id,
        oid,
        data.len() as u32,
        20,
        0,
    ];
    write_words(buf, &words);
    put(buf, hdr_size, data);
    proof {
        lemma_overlay_append(base, 0, le_words(words@), data@);
        assert(le_words(words@) + data@ =~= set_message(oid, data@, state.request_id));
    }
    Ok(total)
}

/// Writes the message that keeps a session alive at the start of `buf`.
pub fn build_keepalive(buf: &mut [u8], state: &mut RndisState) -> (r: Result<usize, TetherError>)
    requires
        old(buf)@.len() >= 12 ==> old(state).request_id < u32::MAX,
    ensures
        old(buf)@.len() < 12 ==> {
            &&& r matches Err(e) && e@ == too_small(12, old(buf)@.len())
            &&& final(buf)@ == old(buf)@
            &&& *final(state) == *old(state)
        },
        old(buf)@.len() >= 12 ==> {
            &&& r == Ok::<usize, TetherError>(12)
            &&& *final(state) == next_request(*old(state))
            &&& written(old(buf)@, final(buf)@, keepalive_message(final(state).request_id))
        },
{
    let msg_size: usize = 12;
    if buf.len() < msg_size {
        return Err(TetherError::BufferTooSmall { need: msg_size, got: buf.len() });
    }
    state.request_id = state.request_id + 1;
    let words = [RNDIS_MSG_KEEPALIVE, 12, state.request_id];
    write_words(buf, &words);
    assert(le_words(words@) =~= keepalive_message(state.request_id));
    Ok(msg_size)
}

/// Writes the message that carries `eth_frame` at the start of `buf`.
pub fn build_data_packet(buf: &mut [u8], eth_frame: &[u8]) -> (r: Result<usize, TetherError>)
    requires
        44 + eth_frame@.len() <= usize::MAX,
    ensures
        old(buf)@.len() < 44 + eth_frame@.len() ==> {
            &&& r matches Err(e) && e@ == too_small(44 + eth_frame@.len(), old(buf)@.len())
            &&& final(buf)@ == old(buf)@
        },
        old(buf)@.len() >= 44 + eth_frame@.len() ==> {
            &&& r matches Ok(n) && n == 44 + eth_frame@.len()
            &&& written(old(buf)@, final(buf)@, data_packet(eth_frame@))
        },
{
    let hdr_size: usize = 44;
    let total = hdr_size + eth_frame.len();
    if buf.len() < total {
        return Err(TetherError::BufferTooSmall { need: total, got: buf.len() });
    }
    let ghost base = buf@;
    let words = [
        RNDIS_MSG_PACKET,
        total as u32,
        36,
        eth_frame.len() as u32,
        0,
        0,
        0,
        0,
        0,
        0,
        0,
    ];
    write_words(buf, &words);
    put(buf, hdr_size, eth_frame);
    proof {
        lemma_overlay_append(base, 0, le_words(words@), eth_frame@);
        assert(le_words(words@) + eth_frame@ =~= data_packet(eth_frame@));
    }
    Ok(total)
}

/// The data packet that carries `eth_frame`.
pub fn packet_of(eth_frame: &[u8]) -> (r: Vec<u8>)
    requires
        44 + eth_frame@.len() <= usize::MAX,
    ensures
        r@ == data_packet(eth_frame@),
{
    let mut buf: Vec<u8> = vec![0u8; 44 + eth_frame.len()];
    let ghost before = buf@;
    let _ = build_data_packet(buf.as_mut_slice(), eth_frame);
    assert(overlay(before, 0, data_packet(eth_frame@)) =~= data_packet(eth_frame@));
    buf
}

/// The error that a reply to a control message stands for, if it is none of
/// the expected type that reports success.
pub open spec fn completion_error(
    buf: Seq<u8>,
    need: nat,
    expected: u32,
    wrong_type: Seq<char>,
    bad_status: Seq<char>,
) -> Option<TetherErrorView> {
    if buf.len() < need {
        Some(too_small(need, buf.len()))
    } else if le32_at(buf, 0) != expected {
        Some(TetherErrorView::Rndis(wrong_type + prefixed_hex(le32_at(buf, 0) as nat)))
    } else if le32_at(buf, 12) != RNDIS_STATUS_SUCCESS {
        Some(TetherErrorView::Rndis(bad_status + prefixed_hex(le32_at(buf, 12) as nat)))
    } else {
        None
    }
}

fn check_completion(
    buf: &[u8],
    need: usize,
    expected: u32,
    wrong_type: &str,
    bad_status: &str,
) -> (r: Result<(), TetherError>)
    requires
        need >= 16,
    ensures
        match completion_error(buf@, need as nat, expected, wrong_type@, bad_status@) {
            Some(e) => r matches Err(x) && x@ == e,
            None => r is Ok,
        },
{
    if buf.len() < need {
        return Err(TetherError::BufferTooSmall { need, got: buf.len() });
    }
    let msg_type = read_u32(buf, 0);
    let status = read_u32(buf, 12);
    if msg_type != expected {
        let mut text = wrong_type.to_owned();
        append_prefixed_hex(&mut text, msg_type as u64);
        return Err(TetherError::Rndis(text));
    }
    if status != RNDIS_STATUS_SUCCESS {
        let mut text = bad_status.to_owned();
        append_prefixed_hex(&mut text, status as u64);
        return Err(TetherError::Rndis(text));
    }
    Ok(())
}

/// What is wrong with a reply to the message that opens a session.
pub open spec fn init_error(buf: Seq<u8>) -> Option<TetherErrorView> {
    completion_error(buf, 52, RNDIS_MSG_INIT_C, "expected INIT_C, got "@, "INIT_C status "@)
}

/// Takes in the reply to the message that opens a session.
pub fn parse_init_cmplt(buf: &[u8], state: &mut RndisState) -> (r: Result<(), TetherError>)
    ensures
        match init_error(buf@) {
            Some(e) => {
                &&& r matches Err(x) && x@ == e
                &&& *final(state) == *old(state)
            },
            None => {
                &&& r is Ok
                &&& *final(state) == (RndisState {
                    max_transfer_size: le32_at(buf@, 40),
                    medium: le32_at(buf@, 28),
                    ..*old(state)
                })
            },
        },
{
    match check_completion(
        buf,
        52,
        RNDIS_MSG_INIT_C,
        "expected INIT_C, got ",
        "INIT_C status ",
    ) {
        Err(e) => Err(e),
        Ok(()) => {
            state.max_transfer_size = read_u32(buf, 40);
            state.medium = read_u32(buf, 28);
            Ok(())
        },
    }
}

/// `n`, or the largest `usize` where `n` is larger.
pub open spec fn clamped(n: int) -> nat {
    if n <= usize::MAX {
        n as nat
    } else {
        usize::MAX as nat
    }
}

/// The value that a reply to a query holds, or what is wrong with the reply.
pub open spec fn query_value(buf: Seq<u8>) -> Result<Seq<u8>, TetherErrorView> {
    let len = le32_at(buf, 16) as int;
    let start = 8 + le32_at(buf, 20);
    match completion_error(
        buf,
        24,
        RNDIS_MSG_QUERY_C,
        "expected QUERY_C, got "@,
        "QUERY_C status "@,
    ) {
        Some(e) => Err(e),
        None => if len == 0 {
            Ok(Seq::empty())
        } else if start + len > buf.len() {
            Err(too_small(clamped(start + len), buf.len()))
        } else {
            Ok(buf.subrange(start, start + len))
        },
    }
}

/// As much of `value` as fits into `room` bytes.
pub open spec fn fitting(value: Seq<u8>, room: nat) -> Seq<u8> {
    if value.len() <= room {
        value
    } else {
        value.take(room as int)
    }
}

fn copy_query_value(buf: &[u8], data_out: &mut [u8]) -> (r: Result<usize, TetherError>)
    ensures
        match query_value(buf@) {
            Err(e) => {
                &&& r matches Err(x) && x@ == e
                &&& final(data_out)@ == old(data_out)@
            },
            Ok(value) => {
                let part = fitting(value, old(data_out)@.len());
                &&& r matches Ok(n) && n == part.len()
                &&& final(data_out)@ == overlay(old(data_out)@, 0, part)
            },
        },
{
    match check_completion(
        buf,
        24,
        RNDIS_MSG_QUERY_C,
        "expected QUERY_C, got ",
        "QUERY_C status ",
    ) {
        Err(e) => return Err(e),
        Ok(()) => {},
    }
    let len = read_u32(buf, 16);
    let offset = read_u32(buf, 20);
    if len == 0 {
        assert(overlay(data_out@, 0, Seq::empty()) =~= data_out@);
        return Ok(0);
    }
    let data_start: u64 = 8 + offset as u64;
    let end: u64 = data_start + len as u64;
    if end > buf.len() as u64 {
        let need = if end > usize::MAX as u64 {
            usize::MAX
        } else {
            end as usize
        };
        return Err(TetherError::BufferTooSmall { need, got: buf.len() });
    }
    let start = data_start as usize;
    let len = len as usize;
    let room = data_out.len();
    let to_copy = if len <= room {
        len
    } else {
        room
    };
    let part = &buf[start..start + to_copy];
    put(data_out, 0, part);
    assert(part@ =~= fitting(buf@.subrange(start as int, start + len), room as nat));
    Ok(to_copy)
}

/// Copies as much of the value in a reply to a query as fits to the start of
/// `data_out`.
pub fn parse_query_cmplt(buf: &[u8], data_out: &mut [u8]) -> (r: Result<usize, TetherError>)
    ensures
        match query_value(buf@) {
            Err(e) => {
                &&& r matches Err(x) && x@ == e
                &&& final(data_out)@ == old(data_out)@
            },
            Ok(value) => {
                let part = fitting(value, old(data_out)@.len());
                &&& r matches Ok(n) && n == part.len()
                &&& final(data_out)@ == overlay(old(data_out)@, 0, part)
            },
        },
{
    copy_query_value(buf, data_out)
}

/// What is wrong with a reply to a message that sets a value.
pub open spec fn set_error(buf: Seq<u8>) -> Option<TetherErrorView> {
    completion_error(buf, 16, RNDIS_MSG_SET_C, "expected SET_C, got "@, "SET_C status "@)
}

/// Takes in the reply to a message that sets a value.
pub fn parse_set_cmplt(buf: &[u8]) -> (r: Result<(), TetherError>)
    ensures
        match set_error(buf@) {
            Some(e) => r matches Err(x) && x@ == e,
            None => r is Ok,
        },
{
    check_completion(buf, 16, RNDIS_MSG_SET_C, "expected SET_C, got ", "SET_C status ")
}

/// The Ethernet frame that one message carries, if it carries one. Status
/// indications have the type of a data packet, but no data offset of 36 or
/// more with a data length behind it.
pub open spec fn carried_frame(message: Seq<u8>) -> Option<Seq<u8>> {
    let offset = le32_at(message, 8) as int;
    let len = le32_at(message, 12) as int;
    if message.len() >= 44 && le32_at(message, 0) == RNDIS_MSG_PACKET && offset >= 36 && len > 0 && 8
        + offset + len <= message.len() {
        Some(message.subrange(8 + offset, 8 + offset + len))
    } else {
        None
    }
}

/// The frames that a row of messages carries, from position `at` on. The row
/// ends where no whole message follows.
pub open spec fn frames_from(data: Seq<u8>, at: int) -> Seq<Seq<u8>>
    decreases data.len() - at,
{
    let len = le32_at(data, at + 4) as int;
    if at + 8 > data.len() || len == 0 || at + len > data.len() {
        Seq::empty()
    } else {
        match carried_frame(data.subrange(at, at + len)) {
            Some(frame) => seq![frame] + frames_from(data, at + len),
            None => frames_from(data, at + len),
        }
    }
}

/// The frames that a row of messages carries.
pub open spec fn carried_frames(data: Seq<u8>) -> Seq<Seq<u8>> {
    frames_from(data, 0)
}

/// Walks over the Ethernet frames in what the device has sent.
#[derive(Debug)]
pub struct RndisPacketIter<'a> {
    data: &'a [u8],
    offset: usize,
}

impl<'a> RndisPacketIter<'a> {
    #[verifier::type_invariant]
    spec fn in_range(self) -> bool {
        self.offset <= self.data@.len()
    }

    /// The frames that are still to come.
    pub closed spec fn remaining(self) -> Seq<Seq<u8>> {
        frames_from(self.data@, self.offset as int)
    }

    /// Starts at the first message.
    pub fn new(data: &'a [u8]) -> (r: Self)
        ensures
            r.remaining() == carried_frames(data@),
    {
        RndisPacketIter { data, offset: 0 }
    }

    /// The next frame.
    pub fn next(&mut self) -> (r: Option<&'a [u8]>)
        ensures
            match r {
                Some(frame) => old(self).remaining() == seq![frame@] + final(self).remaining(),
                None => old(self).remaining().len() == 0 && final(self).remaining().len() == 0,
            },
    {
        let data = self.data;
        let size = data.len();
        proof {
            use_type_invariant(&*self);
        }
        let mut at = self.offset;
        let ghost all = self.remaining();
        loop
            invariant
                at <= size,
                size == data@.len(),
                data == old(self).data,
                self.data == data,
                all == old(self).remaining(),
                frames_from(data@, at as int) == all,
            decreases size - at,
        {
            if size - at < 8 {
                self.offset = at;
                return None;
            }
            let msg_len = read_u32(data, at + 4) as usize;
            if msg_len == 0 || msg_len > size - at {
                self.offset = at;
                return None;
            }
            let pkt_data = &data[at..at + msg_len];
            at = at + msg_len;
            if msg_len < 44 || read_u32(pkt_data, 0) != RNDIS_MSG_PACKET {
                continue ;
            }
            let data_offset = read_u32(pkt_data, 8);
            let data_len = read_u32(pkt_data, 12);
            if data_offset < 36 || data_len == 0 {
                continue ;
            }
            let data_start: u64 = 8 + data_offset as u64;
            let data_end: u64 = data_start + data_len as u64;
            if data_end > msg_len as u64 {
                continue ;
            }
            self.offset = at;
            return Some(&pkt_data[data_start as usize..data_end as usize]);
        }
    }
}

/// The frames of a row of messages do not depend on what stands in front of
/// the row.
proof fn lemma_frames_shift(a: Seq<u8>, b: Seq<u8>, at: int)
    requires
        0 <= at <= b.len(),
    ensures
        frames_from(a + b, a.len() + at) == frames_from(b, at),
    decreases b.len() - at,
{
    let n = a.len() as int;
    if at + 8 <= b.len() {
        assert(le32_at(a + b, n + at + 4) == le32_at(b, at + 4));
        let len = le32_at(b, at + 4) as int;
        if len != 0 && at + len <= b.len() {
            assert((a + b).subrange(n + at, n + at + len) =~= b.subrange(at, at + len));
            lemma_frames_shift(a, b, at + len);
        }
    }
}

/// A data packet gives back the frame that it was built from, and what stands
/// behind the packet is read as if it stood alone.
pub proof fn lemma_packet_then(frame: Seq<u8>, rest: Seq<u8>)
    requires
        0 < frame.len(),
        44 + frame.len() <= u32::MAX,
    ensures
        carried_frames(data_packet(frame) + rest) == seq![frame] + carried_frames(rest),
{
    let words = seq![
        RNDIS_MSG_PACKET,
        (44 + frame.len()) as u32,
        36,
        frame.len() as u32,
        0,
        0,
        0,
        0,
        0,
        0,
        0,
    ];
    let packet = data_packet(frame);
    let all = packet + rest;
    assert(all =~= le_words(words) + (frame + rest));
    lemma_le_words_at(words, frame, 0);
    lemma_le_words_at(words, frame, 2);
    lemma_le_words_at(words, frame, 3);
    lemma_le_words_at(words, frame + rest, 1);
    assert(all.subrange(0, packet.len() as int) =~= packet);
    assert(packet.subrange(44, (44 + frame.len()) as int) =~= frame);
    assert(carried_frame(packet) == Some(frame));
    lemma_frames_shift(packet, rest, 0);
}

/// The data packets of a row of frames, one behind the other.
pub open spec fn packet_stream(frames: Seq<Seq<u8>>) -> Seq<u8>
    decreases frames.len(),
{
    if frames.len() == 0 {
        Seq::empty()
    } else {
        data_packet(frames.first()) + packet_stream(frames.drop_first())
    }
}

/// Frames that are sent as a row of data packets are received as they were,
/// in their order, however many there are.
pub proof fn lemma_stream_roundtrip(frames: Seq<Seq<u8>>)
    requires
        forall|i: int|
            0 <= i < frames.len() ==> 0 < #[trigger] frames[i].len() && 44 + frames[i].len()
                <= u32::MAX,
    ensures
        carried_frames(packet_stream(frames)) == frames,
    decreases frames.len(),
{
    if frames.len() > 0 {
        let rest = frames.drop_first();
        assert(0 < frames[0].len());
        lemma_stream_roundtrip(rest);
        lemma_packet_then(frames[0], packet_stream(rest));
        assert(seq![frames[0]] + rest =~= frames);
    } else {
        assert(carried_frames(packet_stream(frames)) =~= frames);
    }
}

/// A built data packet, read back, gives the one frame that it was built from.
pub proof fn lemma_packet_roundtrip(frame: Seq<u8>)
    requires
        0 < frame.len(),
        44 + frame.len() <= u32::MAX,
    ensures
        carried_frames(data_packet(frame)) == seq![frame],
{
    lemma_packet_then(frame, Seq::empty());
    assert(data_packet(frame) + Seq::<u8>::empty() =~= data_packet(frame));
    assert(seq![frame] + carried_frames(Seq::empty()) =~= seq![frame]);
}

/// A message of some type: the type, its whole length, and its body.
pub open spec fn message_with(kind: u32, body: Seq<u8>) -> Seq<u8> {
    le32(kind) + le32((8 + body.len()) as u32) + body
}

proof fn lemma_message_first(kind: u32, body: Seq<u8>, rest: Seq<u8>)
    requires
        8 + body.len() <= u32::MAX,
    ensures
        ({
            let message = message_with(kind, body);
            &&& message.len() == 8 + body.len()
            &&& le32_at(message, 0) == kind
            &&& forall|i: int| 0 <= i < body.len() ==> message[8 + i] == #[trigger] body[i]
            &&& carried_frames(message + rest) == (match carried_frame(message) {
                Some(frame) => seq![frame] + carried_frames(rest),
                None => carried_frames(rest),
            })
        }),
{
    let message = message_with(kind, body);
    let all = message + rest;
    let len = (8 + body.len()) as u32;
    lemma_read_in_row(Seq::empty(), 0, kind, le32(len) + body);
    assert(message =~= Seq::<u8>::empty() + le32(kind) + (le32(len) + body));
    lemma_read_in_row(le32(kind), 0, len, body + rest);
    assert(all =~= le32(kind) + le32(len) + (body + rest));
    assert(all.subrange(0, message.len() as int) =~= message);
    lemma_frames_shift(message, rest, 0);
}

/// A data packet, byte for byte: its type, its length, where the frame begins,
/// counted from the third word, the frame's length, seven words of zeros, and
/// the frame.
pub proof fn lemma_data_packet_bytes(frame: Seq<u8>)
    requires
        44 + frame.len() <= u32::MAX,
    ensures
        data_packet(frame).len() == 44 + frame.len(),
        data_packet(frame).subrange(0, 4) == seq![1u8, 0, 0, 0],
        le32_at(data_packet(frame), 4) == 44 + frame.len(),
        data_packet(frame).subrange(8, 12) == seq![36u8, 0, 0, 0],
        le32_at(data_packet(frame), 12) == frame.len(),
        forall|i: int| 16 <= i < 44 ==> data_packet(frame)[i] == 0,
        data_packet(frame).subrange(44, data_packet(frame).len() as int) == frame,
{
    let n = frame.len() as u32;
    let words = seq![RNDIS_MSG_PACKET, (44 + n) as u32, 36, n, 0, 0, 0, 0, 0, 0, 0];
    let s = data_packet(frame);
    assert(s =~= le_words(words) + frame);
    lemma_le_words_at(words, frame, 1);
    lemma_le_words_at(words, frame, 3);
    assert forall|i: int| 16 <= i < 44 implies s[i] == 0 by {
        assert(words[i / 4] == 0);
        assert(s[i] == le32(words[i / 4])[i % 4]);
        assert(0 <= i % 4 < 4);
    }
    assert forall|i: int| 0 <= i < 4 implies s[i] == le32(1)[i] by {}
    assert forall|i: int| 8 <= i < 12 implies s[i] == le32(36)[i - 8] by {
        assert(i / 4 == 2 && i % 4 == i - 8);
    }
    assert(s.subrange(0, 4) =~= seq![1u8, 0, 0, 0]);
    assert(s.subrange(8, 12) =~= seq![36u8, 0, 0, 0]);
    assert(s.subrange(44, s.len() as int) =~= frame);
}

proof fn lemma_packet_head(offset: u32, len: u32, more: Seq<u8>)
    requires
        16 + more.len() <= u32::MAX,
    ensures
        ({
            let message = message_with(1, le32(offset) + le32(len) + more);
            &&& message.len() == 16 + more.len()
            &&& le32_at(message, 8) == offset
            &&& le32_at(message, 12) == len
            &&& message.subrange(16, message.len() as int) == more
        }),
{
    let body = le32(offset) + le32(len) + more;
    let message = message_with(1, body);
    let head = le32(1) + le32((8 + body.len()) as u32);
    lemma_read_in_row(head, 0, offset, le32(len) + more);
    assert(message =~= head + le32(offset) + (le32(len) + more));
    lemma_read_in_row(head + le32(offset), 0, len, more);
    assert(message =~= head + le32(offset) + le32(len) + more);
    assert(message.subrange(16, message.len() as int) =~= more);
}

/// A frame is taken out of a data packet wherever it stands there: behind the
/// header and whatever else the device has put between, and before any padding.
/// What follows on the packet is read as if it stood alone.
pub proof fn lemma_frame_in_packet(
    between: Seq<u8>,
    frame: Seq<u8>,
    padding: Seq<u8>,
    rest: Seq<u8>,
)
    requires
        between.len() >= 28,
        frame.len() > 0,
        16 + between.len() + frame.len() + padding.len() <= u32::MAX,
    ensures
        carried_frames(
            message_with(
                1,
                le32((8 + between.len()) as u32) + le32(frame.len() as u32) + (between + frame
                    + padding),
            ) + rest,
        ) == seq![frame] + carried_frames(rest),
{
    let offset = (8 + between.len()) as u32;
    let n = frame.len() as u32;
    let more = between + frame + padding;
    let body = le32(offset) + le32(n) + more;
    let message = message_with(1, body);
    lemma_message_first(1, body, rest);
    lemma_packet_head(offset, n, more);
    assert(message.subrange(8 + offset, 8 + offset + n) =~= frame) by {
        let b = between.len() as int;
        assert(more.subrange(b, b + n) =~= frame);
        assert(message.subrange(16, message.len() as int).subrange(b, b + n)
            =~= message.subrange(16 + b, 16 + b + n));
    }
}

/// Messages of other types carry no frame, nor do those that are too short for
/// one, and they do not keep those behind them from being read.
pub proof fn lemma_other_messages_are_skipped(kind: u32, body: Seq<u8>, rest: Seq<u8>)
    requires
        kind != 1 || body.len() <= 36,
        8 + body.len() <= u32::MAX,
    ensures
        carried_frames(message_with(kind, body) + rest) == carried_frames(rest),
{
    lemma_message_first(kind, body, rest);
}

/// A data packet without a frame, with one that begins within its header or one
/// that goes beyond its end, carries none; those behind it are read.
pub proof fn lemma_bad_packets_are_skipped(
    offset: u32,
    len: u32,
    more: Seq<u8>,
    rest: Seq<u8>,
)
    requires
        16 + more.len() <= u32::MAX,
        offset < 36 || len == 0 || 8 + offset + len > 16 + more.len(),
    ensures
        carried_frames(message_with(1, le32(offset) + le32(len) + more) + rest) == carried_frames(
            rest,
        ),
{
    lemma_message_first(1, le32(offset) + le32(len) + more, rest);
    lemma_packet_head(offset, len, more);
}

/// A row ends where no whole message follows: where fewer than eight bytes are
/// left, or where the length of the next message is zero or more than is left.
pub proof fn lemma_row_ends(data: Seq<u8>)
    requires
        data.len() < 8 || le32_at(data, 4) == 0 || le32_at(data, 4) > data.len(),
    ensures
        carried_frames(data).len() == 0,
{
}

/// The control messages, byte for byte.
pub proof fn lemma_control_messages(id: u32, oid: u32)
    ensures
        init_message(id) == seq![2u8, 0, 0, 0, 24, 0, 0, 0] + le32(id) + seq![
            1u8,
            0,
            0,
            0,
            0,
            0,
            0,
            0,
            0,
            0x80,
            0,
            0,
        ],
        query_message(oid, id) == seq![4u8, 0, 0, 0, 28, 0, 0, 0] + le32(id) + le32(oid) + seq![
            0u8,
            0,
            0,
            0,
            20,
            0,
            0,
            0,
            0,
            0,
            0,
            0,
        ],
        keepalive_message(id) == seq![8u8, 0, 0, 0, 12, 0, 0, 0] + le32(id),
{
    let w0 = Seq::<u32>::empty();
    assert(le_words(w0) =~= Seq::empty());
    let w1 = seq![2u32, 24, id, 1, 0, 0x8000];
    assert(init_message(id) =~= le32(2) + le32(24) + le32(id) + le32(1) + le32(0) + le32(0x8000))
        by {
        assert(init_message(id) == le_words(w1));
        lemma_six_words(2, 24, id, 1, 0, 0x8000);
    }
    lemma_six_words(4, 28, id, oid, 0, 20);
    let w6 = seq![4u32, 28, id, oid, 0, 20];
    lemma_le_words_push(w6, 0);
    assert(w6.push(0) =~= seq![4u32, 28, id, oid, 0, 20, 0]);
    assert(query_message(oid, id) =~= le32(4) + le32(28) + le32(id) + le32(oid) + le32(0) + le32(
        20,
    ) + le32(0));
    lemma_le_words_push(w0, 8);
    lemma_le_words_push(w0.push(8), 12);
    lemma_le_words_push(w0.push(8).push(12), id);
    assert(w0.push(8).push(12).push(id) =~= seq![8u32, 12, id]);
    assert(keepalive_message(id) =~= le32(8) + le32(12) + le32(id));
    assert(init_message(id) =~= seq![2u8, 0, 0, 0, 24, 0, 0, 0] + le32(id) + seq![
        1u8,
        0,
        0,
        0,
        0,
        0,
        0,
        0,
        0,
        0x80,
        0,
        0,
    ]);
    assert(query_message(oid, id) =~= seq![4u8, 0, 0, 0, 28, 0, 0, 0] + le32(id) + le32(oid)
        + seq![0u8, 0, 0, 0, 20, 0, 0, 0, 0, 0, 0, 0]);
    assert(keepalive_message(id) =~= seq![8u8, 0, 0, 0, 12, 0, 0, 0] + le32(id));
}

proof fn lemma_six_words(a: u32, b: u32, c: u32, d: u32, e: u32, f: u32)
    ensures
        le_words(seq![a, b, c, d, e, f]) == le32(a) + le32(b) + le32(c) + le32(d) + le32(e) + le32(
            f,
        ),
{
    let w0 = Seq::<u32>::empty();
    assert(le_words(w0) =~= Seq::empty());
    let w1 = w0.push(a);
    let w2 = w1.push(b);
    let w3 = w2.push(c);
    let w4 = w3.push(d);
    let w5 = w4.push(e);
    lemma_le_words_push(w0, a);
    lemma_le_words_push(w1, b);
    lemma_le_words_push(w2, c);
    lemma_le_words_push(w3, d);
    lemma_le_words_push(w4, e);
    lemma_le_words_push(w5, f);
    assert(w5.push(f) =~= seq![a, b, c, d, e, f]);
    assert(le_words(w5.push(f)) =~= le32(a) + le32(b) + le32(c) + le32(d) + le32(e) + le32(f));
}

/// The message that sets a value holds the value at its end, and tells its
/// length, its place and its purpose before.
pub proof fn lemma_set_message_bytes(oid: u32, data: Seq<u8>, id: u32)
    requires
        28 + data.len() <= u32::MAX,
    ensures
        set_message(oid, data, id).len() == 28 + data.len(),
        set_message(oid, data, id).subrange(0, 4) == seq![5u8, 0, 0, 0],
        le32_at(set_message(oid, data, id), 4) == 28 + data.len(),
        le32_at(set_message(oid, data, id), 8) == id,
        le32_at(set_message(oid, data, id), 12) == oid,
        le32_at(set_message(oid, data, id), 16) == data.len(),
        le32_at(set_message(oid, data, id), 20) == 20,
        le32_at(set_message(oid, data, id), 24) == 0,
        set_message(oid, data, id).subrange(28, (28 + data.len()) as int) == data,
{
    let s = set_message(oid, data, id);
    let words = seq![
        RNDIS_MSG_SET,
        (28 + data.len()) as u32,
        id,
        oid,
        data.len() as u32,
        20,
        0,
    ];
    assert(s =~= le_words(words) + data);
    lemma_le_words_at(words, data, 1);
    lemma_le_words_at(words, data, 2);
    lemma_le_words_at(words, data, 3);
    lemma_le_words_at(words, data, 4);
    lemma_le_words_at(words, data, 5);
    lemma_le_words_at(words, data, 6);
    assert forall|i: int| 0 <= i < 4 implies s[i] == le32(5)[i] by {}
    assert(s.subrange(0, 4) =~= seq![5u8, 0, 0, 0]);
    assert(s.subrange(28, (28 + data.len()) as int) =~= data);
}

/// A reply reports success exactly if it is long enough, has the type of the
/// completion of what was asked, and the status zero.
pub proof fn lemma_replies_accepted(buf: Seq<u8>)
    ensures
        init_error(buf) is None <==> buf.len() >= 52 && buf.subrange(0, 4) == seq![
            2u8,
            0,
            0,
            0x80,
        ] && buf.subrange(12, 16) == seq![0u8, 0, 0, 0],
        set_error(buf) is None <==> buf.len() >= 16 && buf.subrange(0, 4) == seq![
            5u8,
            0,
            0,
            0x80,
        ] && buf.subrange(12, 16) == seq![0u8, 0, 0, 0],
{
    if buf.len() >= 16 {
        let t = buf.subrange(0, 4);
        let z = buf.subrange(12, 16);
        assert(t[0] == buf[0] && t[1] == buf[1] && t[2] == buf[2] && t[3] == buf[3]);
        assert(z[0] == buf[12] && z[1] == buf[13] && z[2] == buf[14] && z[3] == buf[15]);
        lemma_read_values(buf, 0);
        lemma_read_values(buf, 12);
        if le32_at(buf, 12) == 0 {
            assert(z =~= seq![0u8, 0, 0, 0]);
        }
        if le32_at(buf, 0) == 0x80000002 {
            assert(t =~= seq![2u8, 0, 0, 0x80]);
        }
        if le32_at(buf, 0) == 0x80000005 {
            assert(t =~= seq![5u8, 0, 0, 0x80]);
        }
    }
}

/// The value in a reply to a query is found wherever the reply says that it
/// stands, whatever stands before it and behind.
#[verifier::rlimit(30)]
pub proof fn lemma_query_value_is_found(
    id: Seq<u8>,
    between: Seq<u8>,
    value: Seq<u8>,
    rest: Seq<u8>,
)
    requires
        id.len() == 8,
        24 + between.len() + value.len() + rest.len() <= u32::MAX,
    ensures
        query_value(
            seq![4u8, 0, 0, 0x80] + id + seq![0u8, 0, 0, 0] + le32(value.len() as u32) + le32(
                (16 + between.len()) as u32,
            ) + between + value + rest,
        ) == Ok::<Seq<u8>, TetherErrorView>(value),
{
    let head = seq![4u8, 0, 0, 0x80] + id + seq![0u8, 0, 0, 0];
    let n = value.len() as u32;
    let offset = (16 + between.len()) as u32;
    let s = head + le32(n) + le32(offset) + between + value + rest;
    lemma_read_in_row(head, 0, n, le32(offset) + between + value + rest);
    assert(s =~= head + le32(n) + (le32(offset) + between + value + rest));
    lemma_read_in_row(head + le32(n), 0, offset, between + value + rest);
    assert(s =~= head + le32(n) + le32(offset) + (between + value + rest));
    assert(s[0] == 4 && s[1] == 0 && s[2] == 0 && s[3] == 0x80);
    assert(s[12] == 0 && s[13] == 0 && s[14] == 0 && s[15] == 0);
    assert(le32_at(s, 0) == 0x80000004);
    assert(le32_at(s, 12) == 0);
    if value.len() > 0 {
        assert(s.subrange(8 + offset, 8 + offset + n) =~= value);
    } else {
        assert(value =~= Seq::empty());
    }
}

/// A reply to a query gives a value only if it is long enough, is such a reply,
/// reports success and holds the whole value. The value is then as long as the
/// reply says.
pub proof fn lemma_query_values_are_whole(buf: Seq<u8>)
    ensures
        query_value(buf) matches Ok(value) ==> {
            &&& buf.len() >= 24
            &&& le32_at(buf, 0) == 0x80000004
            &&& le32_at(buf, 12) == 0
            &&& value.len() == le32_at(buf, 16)
            &&& value.len() > 0 ==> 8 + le32_at(buf, 20) + value.len() <= buf.len()
        },
        query_value(buf) is Err && buf.len() >= 24 && le32_at(buf, 0) == 0x80000004 && le32_at(
            buf,
            12,
        ) == 0 ==> le32_at(buf, 16) > 0 && 8 + le32_at(buf, 20) + le32_at(buf, 16) > buf.len(),
{
}

/// A message that says it is shorter than its own header carries no frame; what
/// follows is read from where it says that it ends.
pub proof fn lemma_lengths_are_trusted(a: Seq<u8>, b: Seq<u8>)
    requires
        0 < a.len() < 8,
        a.len() + b.len() >= 8,
        le32_at(a + b, 4) == a.len(),
    ensures
        carried_frames(a + b) == carried_frames(b),
{
    lemma_frames_shift(a, b, 0);
    assert((a + b).subrange(0, a.len() as int) =~= a);
}

/// A message that has been written stands at the start of the buffer, and the
/// rest of the buffer is as it was.
pub proof fn lemma_message_is_written(before: Seq<u8>, after: Seq<u8>, message: Seq<u8>)
    requires
        written(before, after, message),
        message.len() <= before.len(),
    ensures
        after.len() == before.len(),
        after.take(message.len() as int) == message,
        forall|i: int| message.len() <= i < before.len() ==> after[i] == before[i],
{
    assert(after.take(message.len() as int) =~= message);
}

/// Request numbers go up by one, and what is known of the device stays.
pub proof fn lemma_requests_count_up(state: RndisState)
    requires
        state.request_id < u32::MAX,
    ensures
        next_request(state).request_id == state.request_id + 1,
        next_request(state) == (RndisState {
            request_id: next_request(state).request_id,
            ..state
        }),
{
}

/// Of a value as much is taken as there is room for, from its start.
pub proof fn lemma_as_much_as_fits(value: Seq<u8>, room: nat)
    ensures
        value.len() <= room ==> fitting(value, room) == value,
        value.len() > room ==> fitting(value, room).len() == room,
        forall|i: int|
            0 <= i < fitting(value, room).len() ==> #[trigger] fitting(value, room)[i] == value[i],
{
}

/// What is wrong with a reply: it is too short; it has another type, which is
/// told; or it reports another status, which is told.
pub proof fn lemma_replies_refused(buf: Seq<u8>)
    ensures
        buf.len() < 52 ==> init_error(buf) == Some(too_small(52, buf.len())),
        buf.len() >= 52 && le32_at(buf, 0) != 0x80000002 ==> init_error(buf) == Some(
            TetherErrorView::Rndis("expected INIT_C, got "@ + prefixed_hex(le32_at(buf, 0) as nat)),
        ),
        buf.len() >= 52 && le32_at(buf, 0) == 0x80000002 && le32_at(buf, 12) != 0 ==> init_error(buf)
            == Some(TetherErrorView::Rndis("INIT_C status "@ + prefixed_hex(le32_at(buf, 12) as nat))),
        buf.len() < 16 ==> set_error(buf) == Some(too_small(16, buf.len())),
        buf.len() >= 16 && le32_at(buf, 0) != 0x80000005 ==> set_error(buf) == Some(
            TetherErrorView::Rndis("expected SET_C, got "@ + prefixed_hex(le32_at(buf, 0) as nat)),
        ),
        buf.len() >= 16 && le32_at(buf, 0) == 0x80000005 && le32_at(buf, 12) != 0 ==> set_error(buf)
            == Some(TetherErrorView::Rndis("SET_C status "@ + prefixed_hex(le32_at(buf, 12) as nat))),
        buf.len() < 24 ==> query_value(buf) == Err::<Seq<u8>, TetherErrorView>(
            too_small(24, buf.len()),
        ),
        buf.len() >= 24 && le32_at(buf, 0) != 0x80000004 ==> query_value(buf) == Err::<
            Seq<u8>,
            TetherErrorView,
        >(TetherErrorView::Rndis("expected QUERY_C, got "@ + prefixed_hex(le32_at(buf, 0) as nat))),
        buf.len() >= 24 && le32_at(buf, 0) == 0x80000004 && le32_at(buf, 12) != 0 ==> query_value(
            buf,
        ) == Err::<Seq<u8>, TetherErrorView>(
            TetherErrorView::Rndis("QUERY_C status "@ + prefixed_hex(le32_at(buf, 12) as nat)),
        ),
{
}

} // verus!
