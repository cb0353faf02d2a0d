use newcamd_lib::client::{
    decode_ecm_response, ConnectionAction, ConnectionEvent, EcmCommand, EmmCommand,
};
use newcamd_lib::frame::{decode_network_message, encode_network_message};
use newcamd_lib::handshake::{parse_card_data, HandshakeState};
use newcamd_lib::protocol::{Header525, NewcamdPacket};
use newcamd_lib::{Connection, EcmRequest, NewcamdClient, NewcamdError};
use std::time::Duration;

const KEY: [u8; 16] = [
    0x01, 0x23, 0x45, 0x67, 0x89, 0xAB, 0xCD, 0xEF, 0xFE, 0xDC, 0xBA, 0x98, 0x76, 0x54, 0x32, 0x10,
];

fn session() -> (NewcamdClient, Connection) {
    let card = vec![0, 0x09, 0xBD, 0, 0, 0, 0, 0, 0, 0, 0, 0];
    NewcamdClient::connect(HandshakeState {
        read_timeout: Duration::from_secs(3),
        msg_id: 10,
        session_key: KEY,
        default_provider: 0x30,
        card_data: parse_card_data(card).unwrap(),
    })
}

fn request(section: &[u8]) -> EcmRequest {
    EcmRequest { sid: 1, caid: 0, provider: 0, section: section.to_vec() }
}

fn ecm(payload: &[u8]) -> ConnectionEvent {
    ConnectionEvent::Ecm(EcmCommand { sid: 1, caid: 2, provider: 3, payload: payload.to_vec() })
}

fn packet(msg_id: u16, command: u8, data: &[u8]) -> NewcamdPacket {
    NewcamdPacket {
        header: Header525 { msg_id, sid: 4, caid: 5, provider: 6, flags: 0 },
        command,
        data: data.to_vec(),
    }
}

fn sent(r: Result<ConnectionAction, NewcamdError>) -> NewcamdPacket {
    match r {
        Ok(ConnectionAction::Send(frame)) => {
            decode_network_message(&[frame[0], frame[1]], &frame[2..], &KEY).unwrap()
        }
        _ => panic!("nothing was sent"),
    }
}

fn protocol_error<T>(r: Result<T, NewcamdError>) -> &'static str {
    match r {
        Err(NewcamdError::Protocol(text)) => text,
        _ => panic!("no protocol error"),
    }
}

#[test]
fn a_session_knows_its_card() {
    let (client, connection) = session();
    assert_eq!(client.caid(), 0x09BD);
    assert_eq!(client.default_provider(), 0x30);
    let frame = encode_network_message(&KEY, &[0xFD, 0, 0], 3, 0, 0, 0).unwrap();
    let packet = connection.receive(&[frame[0], frame[1]], &frame[2..]).unwrap();
    assert_eq!(packet.header.msg_id, 3);
    assert_eq!(packet.command, 0xFD);
    assert_eq!(connection.card_data.caid, 0x09BD);
    assert_eq!(connection.card_data().caid, 0x09BD);
}

#[test]
fn zeros_in_a_request_stand_for_the_session() {
    let (mut client, _) = session();
    let command = client.send_ecm(&request(&[0x80, 0x70, 0, 1, 2])).unwrap();
    assert_eq!((command.sid, command.caid, command.provider), (1, 0x09BD, 0x30));
    assert_eq!(command.payload, [0x80, 0x70, 2, 1, 2]);
    client.release_ecm();
    let own = EcmRequest { sid: 9, caid: 8, provider: 7, section: vec![0x81, 0, 0] };
    let command = client.send_ecm(&own).unwrap();
    assert_eq!((command.sid, command.caid, command.provider), (9, 8, 7));
}

#[test]
fn a_client_makes_one_ecm_request_at_a_time() {
    let (mut client, _) = session();
    assert!(client.send_ecm(&request(&[0x80, 0, 0])).is_ok());
    let r = client.send_ecm(&request(&[0x81, 0, 0]));
    assert_eq!(protocol_error(r), "previous ECM request is still pending");
    client.release_ecm();
    assert!(client.send_ecm(&request(&[0x81, 0, 0])).is_ok());
}

#[test]
fn sections_without_a_length_field_are_refused() {
    let (mut client, _) = session();
    for section in [&[][..], &[0x80][..], &[0x80, 0][..]] {
        match client.send_ecm(&request(section)) {
            Err(NewcamdError::InvalidData(text)) => {
                assert_eq!(text, "ECM section must include at least 3 bytes")
            }
            _ => panic!("accepted"),
        }
        match client.send_emm(section, 1, 2, 3) {
            Err(NewcamdError::InvalidData(text)) => {
                assert_eq!(text, "EMM section must include at least 3 bytes")
            }
            _ => panic!("accepted"),
        }
    }
    assert!(client.send_ecm(&request(&[0x80, 0, 0])).is_ok());
}

#[test]
fn emms_are_passed_on() {
    let (client, mut connection) = session();
    let command = client.send_emm(&[0x82, 0, 0, 1], 1, 0, 0).unwrap();
    assert_eq!((command.caid, command.provider), (0x09BD, 0x30));
    let emm = sent(connection.run(ConnectionEvent::Emm(command)));
    assert_eq!(emm.header.msg_id, 11);
    assert_eq!(emm.header.caid, 0x09BD);
    assert_eq!(emm.command, 0x82);
    assert_eq!(emm.data, [1]);
    assert!(connection.ecm_timeout().is_none());
}

#[test]
fn a_request_arrives_and_its_answer_is_delivered() {
    let (mut client, mut connection) = session();
    let command = client.send_ecm(&request(&[0x80, 0x30, 0, 5, 6])).unwrap();
    let arrived = sent(connection.run(ConnectionEvent::Ecm(command)));
    assert_eq!(arrived.header.msg_id, 11);
    assert_eq!(arrived.header.sid, 1);
    assert_eq!(arrived.header.caid, 0x09BD);
    assert_eq!(arrived.header.provider, 0x30);
    assert_eq!(arrived.command, 0x80);
    assert_eq!(arrived.data, [5, 6]);
    assert_eq!(connection.ecm_timeout(), Some(Duration::from_secs(3)));
    let cw: Vec<u8> = (1..=17).collect();
    match connection.run(ConnectionEvent::Packet(packet(11, 0x00, &cw))) {
        Ok(ConnectionAction::Deliver(response)) => {
            assert!(response.found);
            assert_eq!(response.cw[..], cw[..16]);
            assert_eq!(response.packet.data, cw);
        }
        _ => panic!("not delivered"),
    }
    assert!(connection.ecm_timeout().is_none());
    assert_eq!(sent(connection.run(ecm(&[0x81, 0, 0]))).header.msg_id, 12);
}

#[test]
fn an_answer_is_found_by_its_table_id() {
    for table_id in [0x80, 0x81] {
        let (_, mut connection) = session();
        sent(connection.run(ecm(&[0x80, 0, 0])));
        assert!(matches!(
            connection.run(ConnectionEvent::Packet(packet(99, table_id, &[]))),
            Ok(ConnectionAction::Deliver(_))
        ));
    }
}

#[test]
fn a_connection_sends_one_ecm_at_a_time() {
    let (_, mut connection) = session();
    sent(connection.run(ecm(&[0x80, 0, 0])));
    let r = connection.run(ecm(&[0x81, 0, 0]));
    assert_eq!(protocol_error(r), "received a new ECM while another is pending");
    assert!(connection.ecm_timeout().is_some());
}

#[test]
fn keepalives_are_returned_and_requests_keep_waiting() {
    let (_, mut connection) = session();
    sent(connection.run(ecm(&[0x80, 0, 0])));
    let keepalive = sent(connection.run(ConnectionEvent::Packet(packet(11, 0xFD, &[1, 2]))));
    assert_eq!(keepalive.header.msg_id, 12);
    assert_eq!(keepalive.header.sid, 4);
    assert_eq!(keepalive.header.caid, 5);
    assert_eq!(keepalive.header.provider, 6);
    assert_eq!(keepalive.command, 0xFD);
    assert!(keepalive.data.is_empty());
    for command in 0x82..=0x8F {
        assert!(matches!(
            connection.run(ConnectionEvent::Packet(packet(11, command, &[]))),
            Ok(ConnectionAction::Nothing)
        ));
    }
    assert!(connection.ecm_timeout().is_some());
    assert!(matches!(
        connection.run(ConnectionEvent::Packet(packet(11, 0x80, &[]))),
        Ok(ConnectionAction::Deliver(_))
    ));
}

#[test]
fn packets_that_nobody_waits_for_are_refused() {
    let (_, mut connection) = session();
    for command in [0x80, 0x81, 0x90, 0x00] {
        let r = connection.run(ConnectionEvent::Packet(packet(10, command, &[])));
        assert_eq!(protocol_error(r), "unexpected packet from server");
    }
    sent(connection.run(ecm(&[0x80, 0, 0])));
    let r = connection.run(ConnectionEvent::Packet(packet(10, 0x90, &[])));
    assert_eq!(protocol_error(r), "unexpected packet from server");
}

#[test]
fn what_cannot_be_sent_is_refused() {
    let (_, mut connection) = session();
    let r = connection.run(ecm(&[0x80, 0]));
    assert_eq!(protocol_error(r), "payload must be at least 3 bytes");
    let r = connection.run(ecm(&[0x80; 478]));
    assert_eq!(protocol_error(r), "packet too large");
    assert!(connection.ecm_timeout().is_none());
    let large = EmmCommand { sid: 0, caid: 0, provider: 0, payload: vec![0; 500] };
    let r = connection.run(ConnectionEvent::Emm(large));
    assert_eq!(protocol_error(r), "packet too large");
    assert_eq!(sent(connection.run(ecm(&[0x80, 0, 0]))).header.msg_id, 13);
}

#[test]
fn answers_hold_control_words_or_nothing() {
    let nothing = decode_ecm_response(packet(1, 0x80, &[])).unwrap();
    assert!(!nothing.found);
    assert_eq!(nothing.cw, [0; 16]);
    for len in 1..16usize {
        let r = decode_ecm_response(packet(1, 0x80, &vec![1; len]));
        assert_eq!(protocol_error(r), "ECM response payload is shorter than 16-byte CW");
    }
    let found = decode_ecm_response(packet(1, 0x81, &[7; 16])).unwrap();
    assert!(found.found);
    assert_eq!(found.cw, [7; 16]);
}
