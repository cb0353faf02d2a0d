use newcamd_lib::crypto::{decrypt_message, padding_for};
use newcamd_lib::frame::{
    decode_network_message, encode_network_message, encode_network_message_with,
    encode_next_message, encode_plain_message, frame_body_len,
};
use newcamd_lib::protocol::encode_payload;
use newcamd_lib::NewcamdError;

const KEY: [u8; 16] = [
    0x01, 0x23, 0x45, 0x67, 0x89, 0xAB, 0xCD, 0xEF, 0xFE, 0xDC, 0xBA, 0x98, 0x76, 0x54, 0x32, 0x10,
];

const FRAME: [u8; 26] = [
    0x00, 0x18, 0xC4, 0x2C, 0x92, 0x8B, 0xC4, 0x69, 0xCB, 0x11, 0x5A, 0xBD, 0x64, 0xE1, 0x68, 0xCD,
    0xC5, 0x26, 0x10, 0x11, 0x12, 0x13, 0x14, 0x15, 0x16, 0x17,
];

fn protocol_error<T>(r: Result<T, NewcamdError>) -> &'static str {
    match r {
        Err(NewcamdError::Protocol(text)) => text,
        _ => panic!("no protocol error"),
    }
}

#[test]
fn plain_messages_have_a_header() {
    assert_eq!(
        encode_plain_message(&[0x80, 0x30, 0x00], 0x1234, 0x0002, 0x09BD, 0xAB010203),
        [0, 13, 0x12, 0x34, 0, 2, 0x09, 0xBD, 1, 2, 3, 0, 0x80, 0x30, 0x00]
    );
}

#[test]
fn frame_known_vector() {
    let ivec = [0x10, 0x11, 0x12, 0x13, 0x14, 0x15, 0x16, 0x17];
    let frame = encode_network_message_with(
        &KEY,
        &[0x80, 0x30, 0x00],
        1,
        2,
        0x09BD,
        7,
        &[0xAA, 0xAA],
        &ivec,
    )
    .unwrap();
    assert_eq!(frame, FRAME);
}

#[test]
fn a_known_frame_is_read() {
    let packet = decode_network_message(&[0x00, 0x18], &FRAME[2..], &KEY).unwrap();
    assert_eq!(packet.header.msg_id, 1);
    assert_eq!(packet.header.sid, 2);
    assert_eq!(packet.header.caid, 0x09BD);
    assert_eq!(packet.header.provider, 7);
    assert_eq!(packet.header.flags, 0);
    assert_eq!(packet.command, 0x80);
    assert!(packet.data.is_empty());
}

#[test]
fn frames_of_every_size_arrive_as_they_were_sent() {
    for len in 0..=474usize {
        let data: Vec<u8> = (0..len).map(|i| (i * 3) as u8).collect();
        let payload = encode_payload(0x81, &data);
        let frame = encode_network_message(&KEY, &payload, 0xFFFF, 3, 4, 0xFF000005).unwrap();
        let len_bytes = [frame[0], frame[1]];
        assert_eq!(frame_body_len(&len_bytes).unwrap(), frame.len() - 2);
        let packet = decode_network_message(&len_bytes, &frame[2..], &KEY).unwrap();
        assert_eq!(packet.header.msg_id, 0xFFFF);
        assert_eq!(packet.header.sid, 3);
        assert_eq!(packet.header.caid, 4);
        assert_eq!(packet.header.provider, 5);
        assert_eq!(packet.command, 0x81);
        assert_eq!(packet.data, data);
    }
}

#[test]
fn payloads_from_3_to_477_bytes_can_be_sent() {
    assert!(encode_network_message(&KEY, &[0; 3], 0, 0, 0, 0).is_ok());
    assert!(encode_network_message(&KEY, &[0; 477], 0, 0, 0, 0).is_ok());
    for len in 0..3usize {
        let r = encode_network_message(&KEY, &vec![0; len], 0, 0, 0, 0);
        assert_eq!(protocol_error(r), "payload must be at least 3 bytes");
    }
    for len in [478usize, 488, 500, 100000] {
        let r = encode_network_message(&KEY, &vec![0; len], 0, 0, 0, 0);
        assert_eq!(protocol_error(r), "packet too large");
        let padding = vec![0; padding_for(12 + len)];
        let r = encode_network_message_with(&KEY, &vec![0; len], 0, 0, 0, 0, &padding, &[0; 8]);
        assert_eq!(protocol_error(r), "packet too large");
    }
}

#[test]
fn message_numbers_count_up_and_start_over() {
    let mut msg_id = 0xFFFE;
    for expected in [0xFFFF, 0, 1] {
        let frame = encode_next_message(&mut msg_id, &KEY, &[0xFD, 0, 0], 0, 0, 0).unwrap();
        assert_eq!(msg_id, expected);
        let packet = decode_network_message(&[frame[0], frame[1]], &frame[2..], &KEY).unwrap();
        assert_eq!(packet.header.msg_id, expected);
    }
}

#[test]
fn a_large_message_uses_up_its_number_and_a_short_one_does_not() {
    let mut msg_id = 5;
    let r = encode_next_message(&mut msg_id, &KEY, &[0; 2], 0, 0, 0);
    assert_eq!(protocol_error(r), "payload must be at least 3 bytes");
    assert_eq!(msg_id, 5);
    let r = encode_next_message(&mut msg_id, &KEY, &[0; 478], 0, 0, 0);
    assert_eq!(protocol_error(r), "packet too large");
    assert_eq!(msg_id, 6);
}

#[test]
fn large_frames_are_refused() {
    assert_eq!(frame_body_len(&[0x01, 0xF2]).unwrap(), 498);
    assert_eq!(
        protocol_error(frame_body_len(&[0x01, 0xF3])),
        "received frame is larger than CWS_NETMSGSIZE"
    );
    assert!(frame_body_len(&[0xFF, 0xFF]).is_err());
}

#[test]
fn frames_that_make_no_sense_are_refused() {
    let r = decode_network_message(&[0, 3], &[1, 2, 3], &KEY);
    assert_eq!(protocol_error(r), "invalid encrypted payload length");
    let mut broken = FRAME;
    broken[18] ^= 0x80;
    match decode_network_message(&[0x00, 0x18], &broken[2..], &KEY) {
        Err(NewcamdError::Crypto(text)) => assert_eq!(text, "checksum mismatch"),
        _ => panic!("accepted"),
    }
    let lying = encode_network_message(&KEY, &[0x80, 0x0F, 0xFF], 0, 0, 0, 0).unwrap();
    let r = decode_network_message(&[lying[0], lying[1]], &lying[2..], &KEY);
    assert_eq!(protocol_error(r), "failed to parse decrypted newcamd525 packet");
}

#[test]
fn every_frame_decrypts_to_its_header_and_payload() {
    for len in [3usize, 4, 10, 477] {
        let payload: Vec<u8> = (0..len).map(|i| 0xFF - i as u8).collect();
        let mut msg_id = 0x1233;
        let mut frame =
            encode_next_message(&mut msg_id, &KEY, &payload, 2, 0x09BD, 0xAB010203).unwrap();
        assert_eq!(frame.len() % 8, 2);
        assert!(26 <= frame.len() && frame.len() <= 498);
        assert_eq!(frame.len(), 12 + len + padding_for(12 + len) + 9);
        assert!(decrypt_message(&mut frame, &KEY).is_ok());
        assert_eq!(frame[2..12], [0x12, 0x34, 0, 2, 0x09, 0xBD, 1, 2, 3, 0]);
        assert_eq!(frame[12..12 + len], payload[..]);
    }
}
