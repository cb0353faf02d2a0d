use newcamd_lib::protocol::{encode_payload, parse_decrypted_525, patch_payload_len};

fn message(payload: &[u8]) -> Vec<u8> {
    let mut message = vec![
        0x00, 0x0D, 0x12, 0x34, 0x00, 0x02, 0x09, 0xBD, 0x01, 0x02, 0x03, 0x05,
    ];
    message.extend_from_slice(payload);
    message
}

#[test]
fn a_payload_announces_its_data() {
    assert_eq!(encode_payload(0xE3, &[]), vec![0xE3, 0, 0]);
    assert_eq!(encode_payload(0xE0, b"ab"), vec![0xE0, 0, 2, b'a', b'b']);
    let long = encode_payload(0xE0, &[1; 0x123]);
    assert_eq!(long[..3], [0xE0, 0x01, 0x23]);
    assert_eq!(long.len(), 3 + 0x123);
}

#[test]
fn the_length_field_has_twelve_bits() {
    let mut payload = vec![0xFF; 3 + 0x1234];
    patch_payload_len(&mut payload);
    assert_eq!(payload[..4], [0xFF, 0xF2, 0x34, 0xFF]);
}

#[test]
fn patching_keeps_the_upper_bits_and_is_done_once() {
    let mut payload = vec![0x80, 0x7F, 0xFF, 1, 2];
    patch_payload_len(&mut payload);
    assert_eq!(payload, [0x80, 0x70, 0x02, 1, 2]);
    patch_payload_len(&mut payload);
    assert_eq!(payload, [0x80, 0x70, 0x02, 1, 2]);
}

#[test]
fn a_payload_without_a_length_field_stays() {
    for len in 0..3 {
        let mut payload = vec![0xFF; len];
        patch_payload_len(&mut payload);
        assert_eq!(payload, vec![0xFF; len]);
    }
}

#[test]
fn a_packet_is_read_out_of_a_message() {
    let packet = parse_decrypted_525(&message(&[0x80, 0xF0, 0x02, 7, 8, 9])).unwrap();
    assert_eq!(packet.header.msg_id, 0x1234);
    assert_eq!(packet.header.sid, 2);
    assert_eq!(packet.header.caid, 0x09BD);
    assert_eq!(packet.header.provider, 0x010203);
    assert_eq!(packet.header.flags, 5);
    assert_eq!(packet.command, 0x80);
    assert_eq!(packet.data, [7, 8]);
}

#[test]
fn messages_that_end_too_early_hold_no_packet() {
    assert!(parse_decrypted_525(&[]).is_none());
    assert!(parse_decrypted_525(&[0; 14]).is_none());
    assert!(parse_decrypted_525(&message(&[0x80, 0x00, 0x01])).is_none());
    assert!(parse_decrypted_525(&message(&[0x80, 0x01, 0x00, 1, 2, 3])).is_none());
    assert!(parse_decrypted_525(&[0; 15]).is_some());
}

#[test]
fn payloads_are_read_back() {
    for len in [0usize, 1, 255, 256, 4095] {
        let data: Vec<u8> = (0..len).map(|i| i as u8).collect();
        let mut bytes = message(&encode_payload(0x42, &data));
        bytes.extend_from_slice(&[1, 2, 3]);
        let packet = parse_decrypted_525(&bytes).unwrap();
        assert_eq!(packet.command, 0x42);
        assert_eq!(packet.data, data);
    }
}
