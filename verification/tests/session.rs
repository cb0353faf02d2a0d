use newcamd_lib::client::{ConnectionAction, ConnectionEvent};
use newcamd_lib::frame::{decode_network_message, encode_network_message, frame_body_len};
use newcamd_lib::handshake::{accept_card_data, accept_login, start_login};
use newcamd_lib::key::derive_login_key;
use newcamd_lib::md5_crypt::md5_crypt;
use newcamd_lib::protocol::{encode_payload, NewcamdPacket};
use newcamd_lib::{Client, EcmRequest, NewcamdConfig};

const KEY: [u8; 14] = [1, 2, 3, 4, 5, 6, 7, 8, 9, 10, 11, 12, 13, 14];

const KEYMOD: [u8; 14] = [0x5A; 14];

fn receive(frame: &[u8], key: &[u8; 16]) -> NewcamdPacket {
    let len_bytes = [frame[0], frame[1]];
    assert_eq!(frame_body_len(&len_bytes).unwrap(), frame.len() - 2);
    decode_network_message(&len_bytes, &frame[2..], key).unwrap()
}

fn answer(key: &[u8; 16], msg_id: u16, command: u8, data: &[u8]) -> ([u8; 2], Vec<u8>) {
    let payload = encode_payload(command, data);
    let frame = encode_network_message(key, &payload, msg_id, 0, 0, 0).unwrap();
    ([frame[0], frame[1]], frame[2..].to_vec())
}

#[test]
fn a_whole_session_with_a_server() {
    let config = NewcamdConfig {
        username: "user".to_string(),
        password: "secret".to_string(),
        des_key_14: KEY,
        provider: 0x500,
        ..NewcamdConfig::default()
    };
    let crypt = md5_crypt("secret", "abcdefgh");
    let server_login_key = derive_login_key(&KEY, &KEYMOD).unwrap();
    let server_session_key = derive_login_key(&KEY, crypt.as_bytes()).unwrap();

    let (login, frame) = start_login(&config, &KEYMOD).unwrap();
    let hello = receive(&frame, &server_login_key);
    assert_eq!(hello.command, 0xE0);
    assert_eq!(hello.data, [b"user\0", crypt.as_bytes(), b"\0"].concat());

    let (len_bytes, body) = answer(&server_login_key, 0, 0xE1, &[]);
    let welcome = login.receive(&len_bytes, &body).unwrap();
    let (session, frame) = accept_login(&config, &login, &welcome).unwrap();
    let card_request = receive(&frame, &server_session_key);
    assert_eq!(card_request.command, 0xE3);
    assert_eq!(card_request.header.msg_id, 1);

    let mut card = vec![1, 0x06, 0x04, 0, 0, 0, 0, 1, 2, 3, 4, 1];
    card.extend_from_slice(&[0, 5, 0, 1, 2, 3, 4, 5, 6, 7, 8]);
    let (len_bytes, body) = answer(&server_session_key, 1, 0xE4, &card);
    let data = session.receive(&len_bytes, &body).unwrap();
    let handshake = accept_card_data(&config, session, data).unwrap();
    let (mut client, mut connection) = Client::connect(handshake);
    assert_eq!(client.caid(), 0x0604);
    assert_eq!(connection.card_data.providers[0].ident, [0, 5, 0]);

    for (round, table_id) in [0x80u8, 0x81].into_iter().enumerate() {
        let section = vec![table_id, 0x70, 0x04, 1, 2, 3, 4];
        let request = EcmRequest { sid: 7, caid: 0, provider: 0, section };
        let command = client.send_ecm(&request).unwrap();
        let frame = match connection.run(ConnectionEvent::Ecm(command)) {
            Ok(ConnectionAction::Send(frame)) => frame,
            _ => panic!("not sent"),
        };
        let ecm = receive(&frame, &server_session_key);
        assert_eq!(ecm.header.msg_id, 2 + round as u16);
        assert_eq!(ecm.header.sid, 7);
        assert_eq!(ecm.header.caid, 0x0604);
        assert_eq!(ecm.header.provider, 0x500);
        assert_eq!(ecm.command, table_id);
        assert_eq!(ecm.data, [1, 2, 3, 4]);
        let cw: Vec<u8> = (0..16).collect();
        let (len_bytes, body) = answer(&server_session_key, ecm.header.msg_id, table_id, &cw);
        let words = connection.receive(&len_bytes, &body).unwrap();
        match connection.run(ConnectionEvent::Packet(words)) {
            Ok(ConnectionAction::Deliver(response)) => {
                assert!(response.found);
                assert_eq!(response.cw[..], cw[..]);
            }
            _ => panic!("not delivered"),
        }
        client.release_ecm();
    }
}
