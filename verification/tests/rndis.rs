use android_tether::error::TetherError;
use android_tether::proto_driver::{InitAction, ProtocolDriver};
use android_tether::proto_rndis::{InitStage, RndisDriver};
use android_tether::rndis::{
    build_data_packet, build_init, build_keepalive, build_query, build_set, packet_of,
    parse_init_cmplt, parse_query_cmplt, parse_set_cmplt, read_u32, write_u32, RndisPacketIter,
    RndisState, OID_802_3_PERMANENT_ADDRESS,
};

fn words(list: &[u32]) -> Vec<u8> {
    let mut out = Vec::new();
    for w in list {
        out.extend_from_slice(&w.to_le_bytes());
    }
    out
}

fn frames(data: &[u8]) -> Vec<Vec<u8>> {
    let mut iter = RndisPacketIter::new(data);
    let mut out = Vec::new();
    while let Some(frame) = iter.next() {
        out.push(frame.to_vec());
    }
    assert!(iter.next().is_none());
    out
}

fn too_small(e: TetherError) -> (usize, usize) {
    match e {
        TetherError::BufferTooSmall { need, got } => (need, got),
        other => panic!("{:?}", other),
    }
}

fn rndis_text(e: TetherError) -> String {
    match e {
        TetherError::Rndis(s) => s,
        other => panic!("{:?}", other),
    }
}

#[test]
fn words_in_a_buffer() {
    let mut buf = [0u8; 6];
    write_u32(&mut buf, 1, 0x1234_5678);
    assert_eq!(buf, [0, 0x78, 0x56, 0x34, 0x12, 0]);
    assert_eq!(read_u32(&buf, 1), 0x1234_5678);
}

#[test]
fn first_state() {
    let state = RndisState::default();
    assert_eq!(state.request_id, 0);
    assert_eq!(state.max_transfer_size, 0x8000);
    assert_eq!(state.medium, 0);
    assert_eq!(state.mac_addr, [0; 6]);
    assert!(!state.link_up);
}

#[test]
fn control_messages() {
    let mut state = RndisState::default();
    let mut buf = [0xEEu8; 40];
    assert_eq!(build_init(&mut buf, &mut state).unwrap(), 24);
    assert_eq!(&buf[..24], &words(&[2, 24, 1, 1, 0, 0x8000])[..]);
    assert_eq!(&buf[24..], &[0xEE; 16]);
    assert_eq!(build_query(&mut buf, OID_802_3_PERMANENT_ADDRESS, &mut state).unwrap(), 28);
    assert_eq!(&buf[..28], &words(&[4, 28, 2, 0x0101_0101, 0, 20, 0])[..]);
    assert_eq!(build_set(&mut buf, 0x0001_010E, &[15, 0, 0, 0], &mut state).unwrap(), 32);
    assert_eq!(&buf[..28], &words(&[5, 32, 3, 0x0001_010E, 4, 20, 0])[..]);
    assert_eq!(&buf[28..32], &[15, 0, 0, 0]);
    assert_eq!(build_keepalive(&mut buf, &mut state).unwrap(), 12);
    assert_eq!(&buf[..12], &words(&[8, 12, 4])[..]);
    assert_eq!(state.request_id, 4);
}

#[test]
fn messages_without_room() {
    let mut state = RndisState::default();
    assert_eq!(too_small(build_init(&mut [0; 23], &mut state).unwrap_err()), (24, 23));
    assert_eq!(too_small(build_query(&mut [0; 27], 1, &mut state).unwrap_err()), (28, 27));
    assert_eq!(too_small(build_set(&mut [0; 28], 1, &[1], &mut state).unwrap_err()), (29, 28));
    assert_eq!(too_small(build_keepalive(&mut [0; 11], &mut state).unwrap_err()), (12, 11));
    assert_eq!(too_small(build_data_packet(&mut [0; 46], &[1, 2, 3]).unwrap_err()), (47, 46));
    assert_eq!(state.request_id, 0);
}

#[test]
fn data_packet_bytes() {
    let mut buf = [0xEEu8; 50];
    assert_eq!(build_data_packet(&mut buf, &[1, 2, 3]).unwrap(), 47);
    assert_eq!(&buf[..44], &words(&[1, 47, 36, 3, 0, 0, 0, 0, 0, 0, 0])[..]);
    assert_eq!(&buf[44..], &[1, 2, 3, 0xEE, 0xEE, 0xEE]);
    assert_eq!(packet_of(&[1, 2, 3]), buf[..47].to_vec());
}

#[test]
fn reply_to_init() {
    let mut reply = words(&[0x8000_0002, 52, 1, 0, 1, 0, 1, 77, 1, 0x4000, 9000, 0, 0]);
    let mut state = RndisState::default();
    parse_init_cmplt(&reply, &mut state).unwrap();
    assert_eq!(state.medium, 77);
    assert_eq!(state.max_transfer_size, 9000);
    reply[0] = 4;
    assert_eq!(
        rndis_text(parse_init_cmplt(&reply, &mut state).unwrap_err()),
        "expected INIT_C, got 0x80000004"
    );
    reply[0] = 2;
    reply[12] = 0x1F;
    assert_eq!(
        rndis_text(parse_init_cmplt(&reply, &mut state).unwrap_err()),
        "INIT_C status 0x1f"
    );
    assert_eq!(too_small(parse_init_cmplt(&reply[..51], &mut state).unwrap_err()), (52, 51));
    assert_eq!(state.max_transfer_size, 9000);
}

#[test]
fn reply_to_query() {
    let mut reply = words(&[0x8000_0004, 30, 2, 0, 6, 16]);
    reply.extend_from_slice(&[1, 2, 3, 4, 5, 6]);
    let mut out = [9u8; 8];
    assert_eq!(parse_query_cmplt(&reply, &mut out).unwrap(), 6);
    assert_eq!(out, [1, 2, 3, 4, 5, 6, 9, 9]);
    let mut small = [9u8; 4];
    assert_eq!(parse_query_cmplt(&reply, &mut small).unwrap(), 4);
    assert_eq!(small, [1, 2, 3, 4]);
    assert_eq!(too_small(parse_query_cmplt(&reply[..29], &mut out).unwrap_err()), (30, 29));
    assert_eq!(too_small(parse_query_cmplt(&reply[..23], &mut out).unwrap_err()), (24, 23));
    reply[16] = 0;
    assert_eq!(parse_query_cmplt(&reply, &mut out).unwrap(), 0);
    reply[0] = 5;
    assert_eq!(
        rndis_text(parse_query_cmplt(&reply, &mut out).unwrap_err()),
        "expected QUERY_C, got 0x80000005"
    );
    reply[0] = 4;
    reply[12..16].copy_from_slice(&0xC000_00BBu32.to_le_bytes());
    assert_eq!(
        rndis_text(parse_query_cmplt(&reply, &mut out).unwrap_err()),
        "QUERY_C status 0xc00000bb"
    );
}

#[test]
fn reply_to_query_with_huge_numbers() {
    let reply = words(&[0x8000_0004, 24, 2, 0, u32::MAX, u32::MAX]);
    let mut out = [0u8; 6];
    let need = 8usize + u32::MAX as usize + u32::MAX as usize;
    assert_eq!(too_small(parse_query_cmplt(&reply, &mut out).unwrap_err()), (need, 24));
}

#[test]
fn reply_to_set() {
    let mut reply = words(&[0x8000_0005, 16, 3, 0]);
    parse_set_cmplt(&reply).unwrap();
    assert_eq!(too_small(parse_set_cmplt(&reply[..15]).unwrap_err()), (16, 15));
    reply[12] = 1;
    assert_eq!(rndis_text(parse_set_cmplt(&reply).unwrap_err()), "SET_C status 0x1");
    reply[0] = 0;
    assert_eq!(
        rndis_text(parse_set_cmplt(&reply).unwrap_err()),
        "expected SET_C, got 0x80000000"
    );
}

#[test]
fn frames_come_back() {
    let a = vec![1u8; 60];
    let b = vec![2u8; 1];
    let c = vec![3u8; 1514];
    let mut stream = packet_of(&a);
    stream.extend(packet_of(&b));
    stream.extend(packet_of(&c));
    assert_eq!(frames(&stream), vec![a, b, c]);
    assert_eq!(frames(&packet_of(&[7, 8])), vec![vec![7, 8]]);
    assert!(frames(&[]).is_empty());
}

#[test]
fn empty_frame_is_no_frame() {
    let mut stream = packet_of(&[]);
    stream.extend(packet_of(&[5]));
    assert_eq!(frames(&stream), vec![vec![5]]);
}

#[test]
fn messages_that_carry_nothing() {
    // A short message, a message of another type, a status indication.
    let mut stream = words(&[1, 12, 0]);
    stream.extend(words(&[6, 8]));
    stream.extend(words(&[1, 44, 0x4001_000B, 0, 0, 0, 0, 0, 0, 0, 0]));
    stream.extend(words(&[1, 44, 35, 1, 0, 0, 0, 0, 0, 0, 0]));
    stream.extend(words(&[1, 44, 36, 1, 0, 0, 0, 0, 0, 0, 0]));
    stream.extend(words(&[1, 44, u32::MAX, 1, 0, 0, 0, 0, 0, 0, 0]));
    stream.extend(packet_of(&[9, 9]));
    assert_eq!(frames(&stream), vec![vec![9, 9]]);
}

#[test]
fn rows_that_end_early() {
    let mut stream = packet_of(&[1]);
    stream.extend(words(&[1, 0]));
    stream.extend(packet_of(&[2]));
    assert_eq!(frames(&stream), vec![vec![1]]);
    let mut cut = packet_of(&[1]);
    let second = packet_of(&[2, 2]);
    cut.extend_from_slice(&second[..second.len() - 1]);
    assert_eq!(frames(&cut), vec![vec![1]]);
    // A message of three bytes leads into the middle of the next one.
    let tiny = [1, 0, 0, 0, 3, 0, 0, 0, 0, 0, 0];
    assert!(frames(&tiny).is_empty());
}

fn sent(action: InitAction) -> (Vec<u8>, u64) {
    match action {
        InitAction::Send { message, delay_ms } => (message, delay_ms),
        other => panic!("{:?}", other),
    }
}

fn init_reply() -> Vec<u8> {
    words(&[0x8000_0002, 52, 1, 0, 1, 0, 1, 0, 1, 0x4000, 0, 0, 0])
}

fn address_reply(mac: [u8; 6]) -> Vec<u8> {
    let mut reply = words(&[0x8000_0004, 30, 2, 0, 6, 16]);
    reply.extend_from_slice(&mac);
    reply
}

#[test]
fn device_is_set_up() {
    let mut drv = RndisDriver::new();
    assert_eq!(drv.name(), "rndis");
    assert_eq!(sent(drv.init()), (words(&[2, 24, 1, 1, 0, 0x8000]), 100));
    let (message, delay) = sent(drv.init_reply(&init_reply()));
    assert_eq!((message, delay), (words(&[4, 28, 2, 0x0101_0102, 0, 20, 0]), 50));
    let (message, delay) = sent(drv.init_reply(&address_reply([1, 2, 3, 4, 5, 6])));
    assert_eq!((message, delay), (words(&[4, 28, 3, 0x0101_0101, 0, 20, 0]), 50));
    let (message, delay) = sent(drv.init_reply(&address_reply([6, 5, 4, 3, 2, 1])));
    assert_eq!(message, words(&[5, 32, 4, 0x0001_010E, 4, 20, 0, 15]));
    assert_eq!(delay, 50);
    match drv.init_reply(&words(&[0x8000_0005, 16, 4, 0])) {
        InitAction::Ready { complete } => assert!(complete),
        other => panic!("{:?}", other),
    }
    assert_eq!(drv.mac(), [6, 5, 4, 3, 2, 1]);
    assert!(drv.state.link_up);
    assert_eq!(drv.stage, InitStage::Finished);
}

#[test]
fn address_falls_back() {
    let mut drv = RndisDriver::new();
    drv.init();
    drv.init_reply(&init_reply());
    drv.init_reply(&address_reply([1, 2, 3, 4, 5, 6]));
    drv.init_reply(&[]);
    match drv.init_reply(&[]) {
        InitAction::Ready { complete } => assert!(!complete),
        other => panic!("{:?}", other),
    }
    assert_eq!(drv.mac(), [1, 2, 3, 4, 5, 6]);
    assert!(drv.state.link_up);
}

#[test]
fn short_address_is_filled_up() {
    let mut drv = RndisDriver::new();
    drv.init();
    drv.init_reply(&init_reply());
    let mut reply = words(&[0x8000_0004, 26, 2, 0, 2, 16]);
    reply.extend_from_slice(&[9, 8]);
    drv.init_reply(&reply);
    assert_eq!(drv.mac(), [9, 8, 0, 0, 0, 0]);
}

#[test]
fn device_that_refuses() {
    let mut drv = RndisDriver::new();
    drv.init();
    match drv.init_reply(&[1, 2, 3]) {
        InitAction::Failed(e) => assert_eq!(too_small(e), (52, 3)),
        other => panic!("{:?}", other),
    }
    assert_eq!(drv.stage, InitStage::Idle);
}

#[test]
fn driver_wraps_and_unwraps() {
    let mut drv = RndisDriver::new();
    let mut out = [0u8; 100];
    let n = drv.wrap_frame(&[1, 2, 3, 4], &mut out).unwrap();
    assert_eq!(n, 48);
    assert_eq!(drv.unwrap_data(&out[..n]), vec![vec![1, 2, 3, 4]]);
    assert_eq!(too_small(drv.wrap_frame(&[0; 60], &mut out).unwrap_err()), (104, 100));
    assert_eq!(drv.keepalive(), Some(words(&[8, 12, 1])));
    assert_eq!(drv.keepalive(), Some(words(&[8, 12, 2])));
}
