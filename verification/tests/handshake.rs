use newcamd_lib::frame::decode_network_message;
use newcamd_lib::handshake::{
    accept_card_data, accept_login, endpoint, login_payload, login_with, parse_card_data,
    start_login, Interruption, LoginState, SessionState,
};
use newcamd_lib::key::derive_login_key;
use newcamd_lib::protocol::{Header525, NewcamdPacket};
use newcamd_lib::{NewcamdConfig, NewcamdError};
use std::time::Duration;

const KEYMOD: [u8; 14] = [
    0xA0, 0xA1, 0xA2, 0xA3, 0xA4, 0xA5, 0xA6, 0xA7, 0xA8, 0xA9, 0xAA, 0xAB, 0xAC, 0xAD,
];

fn config() -> NewcamdConfig {
    NewcamdConfig {
        host: "example.org".to_string(),
        port: 9201,
        username: "test".to_string(),
        password: "test123".to_string(),
        des_key_14: [
            0x01, 0x02, 0x03, 0x04, 0x05, 0x06, 0x07, 0x08, 0x09, 0x10, 0x11, 0x12, 0x13, 0x14,
        ],
        provider: 0x123456,
        read_timeout: Duration::from_secs(3),
        ..NewcamdConfig::default()
    }
}

fn packet(msg_id: u16, command: u8, data: &[u8]) -> NewcamdPacket {
    NewcamdPacket {
        header: Header525 { msg_id, sid: 0, caid: 0, provider: 0, flags: 0 },
        command,
        data: data.to_vec(),
    }
}

fn card(providers: u8) -> Vec<u8> {
    let mut data = vec![1, 0x09, 0xBD, 1, 2, 3, 4, 5, 6, 7, 8, providers];
    for i in 0..providers {
        data.extend_from_slice(&[i, 0x10, 0x20, 9, 9, 9, 9, 9, 9, 9, i]);
    }
    data
}

fn protocol_error<T>(r: Result<T, NewcamdError>) -> &'static str {
    match r {
        Err(NewcamdError::Protocol(text)) => text,
        _ => panic!("no protocol error"),
    }
}

#[test]
fn the_default_configuration() {
    let config = NewcamdConfig::default();
    assert_eq!(config.host, "127.0.0.1");
    assert_eq!(config.port, 15000);
    assert_eq!(config.username, "");
    assert_eq!(config.password, "");
    assert_eq!(config.des_key_14, [0; 14]);
    assert_eq!(config.provider, 0);
    assert_eq!(config.connect_timeout, Duration::from_secs(5));
    assert_eq!(config.read_timeout, Duration::from_secs(5));
    let clone = config.clone();
    assert_eq!(clone.host, config.host);
    assert_eq!(clone.read_timeout, config.read_timeout);
}

#[test]
fn the_endpoint_is_host_and_port() {
    assert_eq!(endpoint(&config()).unwrap(), "example.org:9201");
    let zero = NewcamdConfig { port: 0, ..config() };
    assert_eq!(endpoint(&zero).unwrap(), "example.org:0");
}

#[test]
fn a_login_needs_a_user_and_a_password() {
    for (username, password) in [("", "test123"), ("test", ""), ("", "")] {
        let incomplete = NewcamdConfig {
            username: username.to_string(),
            password: password.to_string(),
            ..config()
        };
        match endpoint(&incomplete) {
            Err(NewcamdError::InvalidData(text)) => {
                assert_eq!(text, "username and password must not be empty")
            }
            _ => panic!("accepted"),
        }
    }
}

#[test]
fn the_login_names_the_user_and_the_hashed_password() {
    assert_eq!(
        login_payload("ab", "cd"),
        [0xE0, 0x00, 0x06, b'a', b'b', 0, b'c', b'd', 0]
    );
}

#[test]
fn the_server_reads_the_login() {
    let (state, frame) = start_login(&config(), &KEYMOD).unwrap();
    assert_eq!(state.password_crypt, "$1$abcdefgh$FuRpVTqE/Onxax.jDI2aR/");
    let key = derive_login_key(&config().des_key_14, &KEYMOD).unwrap();
    assert_eq!(state.login_key, key);
    let login = decode_network_message(&[frame[0], frame[1]], &frame[2..], &key).unwrap();
    assert_eq!(login.header.msg_id, 0);
    assert_eq!(login.header.sid, 0);
    assert_eq!(login.header.caid, 0);
    assert_eq!(login.header.provider, 0);
    assert_eq!(login.command, 0xE0);
    assert_eq!(login.data, b"test\0$1$abcdefgh$FuRpVTqE/Onxax.jDI2aR/\0");
}

#[test]
fn a_name_that_is_too_long_cannot_log_in() {
    let long = NewcamdConfig { username: "x".repeat(439), ..config() };
    assert_eq!(protocol_error(start_login(&long, &KEYMOD)), "packet too large");
    let fits = NewcamdConfig { username: "x".repeat(438), ..config() };
    assert!(start_login(&fits, &KEYMOD).is_ok());
    assert!(login_with(&long, &KEYMOD, String::new()).is_ok());
}

#[test]
fn a_welcome_leads_to_the_request_for_the_card() {
    let state = LoginState {
        login_key: [0; 16],
        password_crypt: "$1$abcdefgh$FuRpVTqE/Onxax.jDI2aR/".to_string(),
    };
    let (session, frame) = accept_login(&config(), &state, &packet(0xFFFF, 0xE1, &[])).unwrap();
    assert_eq!(session.msg_id, 0);
    assert_eq!(
        session.session_key,
        [
            0x32, 0x85, 0x91, 0x6B, 0x04, 0x20, 0x3D, 0x98, 0x23, 0x01, 0x43, 0xE3, 0x85, 0x73,
            0xEC, 0x16
        ]
    );
    let request =
        decode_network_message(&[frame[0], frame[1]], &frame[2..], &session.session_key).unwrap();
    assert_eq!(request.header.msg_id, 0);
    assert_eq!(request.command, 0xE3);
    assert!(request.data.is_empty());
}

#[test]
fn other_answers_to_the_login_end_it() {
    let state = LoginState { login_key: [0; 16], password_crypt: String::new() };
    assert!(matches!(
        accept_login(&config(), &state, &packet(1, 0xE2, &[])),
        Err(NewcamdError::AuthenticationFailed)
    ));
    let r = accept_login(&config(), &state, &packet(1, 0xE4, &[]));
    assert_eq!(protocol_error(r), "expected LOGIN_ACK packet");
}

#[test]
fn the_card_completes_the_handshake() {
    let session = SessionState { session_key: [7; 16], msg_id: 42 };
    let state = accept_card_data(&config(), session, packet(9, 0xE4, &card(2))).unwrap();
    assert_eq!(state.msg_id, 42);
    assert_eq!(state.session_key, [7; 16]);
    assert_eq!(state.default_provider, 0x123456);
    assert_eq!(state.read_timeout, Duration::from_secs(3));
    assert_eq!(state.card_data.caid, 0x09BD);
    let session = SessionState { session_key: [7; 16], msg_id: 42 };
    let r = accept_card_data(&config(), session, packet(9, 0xE1, &card(2)));
    assert_eq!(protocol_error(r), "expected CARD_DATA packet");
}

#[test]
fn card_data_is_read() {
    let mut data = card(2);
    data.push(0xFF);
    let read = parse_card_data(data.clone()).unwrap();
    assert_eq!(read.caid, 0x09BD);
    assert!(read.au);
    assert_eq!(read.ua, [1, 2, 3, 4, 5, 6, 7, 8]);
    assert_eq!(read.provider_count, 2);
    assert_eq!(read.providers.len(), 2);
    assert_eq!(read.providers[1].ident, [1, 0x10, 0x20]);
    assert_eq!(read.providers[1].sa, [9, 9, 9, 9, 9, 9, 9, 1]);
    assert_eq!(read.raw_payload, data);
    data[0] = 2;
    assert!(!parse_card_data(data).unwrap().au);
    assert!(parse_card_data(card(0)).unwrap().providers.is_empty());
}

#[test]
fn card_data_that_ends_too_early_is_refused() {
    for len in 0..12usize {
        let r = parse_card_data(card(0)[..len].to_vec());
        assert_eq!(protocol_error(r), "invalid CARD_DATA payload");
    }
    for len in 12..34usize {
        let r = parse_card_data(card(2)[..len].to_vec());
        assert_eq!(protocol_error(r), "invalid CARD_DATA provider data");
    }
}

#[test]
fn interruptions_are_protocol_errors() {
    let texts = [
        (Interruption::ConnectTimeout, "connect timeout"),
        (Interruption::InitSequenceTimeout, "timeout while reading server init sequence"),
        (Interruption::PacketLengthTimeout, "timeout while reading packet length"),
        (Interruption::PacketBodyTimeout, "timeout while reading packet body"),
        (Interruption::ConnectionGone, "connection task is not running"),
        (Interruption::ResponseDropped, "ECM response channel was closed"),
    ];
    for (interruption, text) in texts {
        assert_eq!(protocol_error::<()>(Err(interruption.error())), text);
    }
}
