//! The login: what to send to a server, and what its answers mean.

use std::time::Duration;
use vstd::prelude::*;

use crate::client::NewcamdConfig;
use crate::error::NewcamdError;
use crate::frame::{decode_network_message, encode_network_message, encode_next_message};
use crate::key::derive_login_key;
use crate::md5_crypt::md5_crypt;
use crate::protocol::msg;
use crate::protocol::{encode_payload, NewcamdPacket};
use crate::text::decimal_of;

verus! {

use crate::client::{carries, CommandView};
use crate::error::{agrees, ErrorView};
use crate::frame::{next_msg_id, packet_received, sendable};
use crate::key::login_key;
use crate::md5_crypt::md5_crypted;
use crate::protocol::payload_of;
use crate::text::decimal;
use vstd::utf8::encode_utf8;

/// What the server says of its card.
#[derive(Debug, Clone)]
pub struct CardData {
    pub caid: u16,
    pub au: bool,
    pub ua: [u8; 8],
    pub providers: Vec<CardProvider>,
    pub provider_count: usize,
    pub raw_payload: Vec<u8>,
}

/// A provider on a card: its ident and its shared address.
#[derive(Debug, Clone, Copy)]
pub struct CardProvider {
    pub ident: [u8; 3],
    pub sa: [u8; 8],
}

/// A `CardProvider` with its bytes as sequences.
pub struct ProviderView {
    pub ident: Seq<u8>,
    pub sa: Seq<u8>,
}

impl View for CardProvider {
    type V = ProviderView;

    open spec fn view(&self) -> ProviderView {
        ProviderView { ident: self.ident@, sa: self.sa@ }
    }
}

/// A `CardData` with its bytes and providers as sequences.
pub struct CardDataView {
    pub caid: u16,
    pub au: bool,
    pub ua: Seq<u8>,
    pub providers: Seq<ProviderView>,
    pub provider_count: int,
    pub raw_payload: Seq<u8>,
}

impl View for CardData {
    type V = CardDataView;

    open spec fn view(&self) -> CardDataView {
        CardDataView {
            caid: self.caid,
            au: self.au,
            ua: self.ua@,
            providers: self.providers@.map_values(|provider: CardProvider| provider@),
            provider_count: self.provider_count as int,
            raw_payload: self.raw_payload@,
        }
    }
}

/// The provider with this index in the data of a card, eleven bytes each from
/// the twelfth byte on.
pub open spec fn provider_at(data: Seq<u8>, index: int) -> ProviderView {
    let start = 12 + index * 11;
    ProviderView {
        ident: data.subrange(start, start + 3),
        sa: data.subrange(start + 3, start + 11),
    }
}

/// What the data of a card says: twelve bytes, the last of which is the number
/// of providers that follow.
pub open spec fn card_data_of(data: Seq<u8>) -> Result<CardDataView, ErrorView> {
    if data.len() < 12 {
        Err(ErrorView::Protocol("invalid CARD_DATA payload"@))
    } else if data.len() < 12 + data[11] * 11 {
        Err(ErrorView::Protocol("invalid CARD_DATA provider data"@))
    } else {
        Ok(
            CardDataView {
                caid: crate::protocol::be16(data[1], data[2]),
                au: data[0] == 1,
                ua: data.subrange(3, 11),
                providers: Seq::new(data[11] as nat, |i: int| provider_at(data, i)),
                provider_count: data[11] as int,
                raw_payload: data,
            },
        )
    }
}

/// What the client knows once it has sent its login.
pub struct LoginState {
    pub login_key: [u8; 16],
    pub password_crypt: String,
}

impl LoginState {
    /// Reads a frame that the server sent in answer to the login.
    pub fn receive(&self, len_bytes: &[u8; 2], body: &[u8]) -> (r: Result<
        NewcamdPacket,
        NewcamdError,
    >)
        ensures
            agrees(r, packet_received(len_bytes@ + body@, self.login_key@)),
    {
        decode_network_message(len_bytes, body, &self.login_key)
    }
}

/// What the client knows once it has asked for the data of the card.
pub struct SessionState {
    pub session_key: [u8; 16],
    pub msg_id: u16,
}

impl SessionState {
    /// Reads a frame that the server sent in answer to the request for the data
    /// of the card.
    pub fn receive(&self, len_bytes: &[u8; 2], body: &[u8]) -> (r: Result<
        NewcamdPacket,
        NewcamdError,
    >)
        ensures
            agrees(r, packet_received(len_bytes@ + body@, self.session_key@)),
    {
        decode_network_message(len_bytes, body, &self.session_key)
    }
}

/// The outcome of a handshake.
pub struct HandshakeState {
    pub read_timeout: Duration,
    pub msg_id: u16,
    pub session_key: [u8; 16],
    pub default_provider: u32,
    pub card_data: CardData,
}

/// A wait or a conversation between tasks that came to nothing.
#[derive(Debug, Clone, Copy)]
pub enum Interruption {
    ConnectTimeout,
    InitSequenceTimeout,
    PacketLengthTimeout,
    PacketBodyTimeout,
    ConnectionGone,
    ResponseDropped,
}

/// What an interruption is reported as.
pub open spec fn interruption_text(interruption: Interruption) -> Seq<char> {
    match interruption {
        Interruption::ConnectTimeout => "connect timeout"@,
        Interruption::InitSequenceTimeout => "timeout while reading server init sequence"@,
        Interruption::PacketLengthTimeout => "timeout while reading packet length"@,
        Interruption::PacketBodyTimeout => "timeout while reading packet body"@,
        Interruption::ConnectionGone => "connection task is not running"@,
        Interruption::ResponseDropped => "ECM response channel was closed"@,
    }
}

impl Interruption {
    /// The error that an interruption is reported as.
    pub fn error(self) -> (r: NewcamdError)
        ensures
            r@ == ErrorView::Protocol(interruption_text(self)),
    {
        match self {
            Interruption::ConnectTimeout => NewcamdError::Protocol("connect timeout"),
            Interruption::InitSequenceTimeout => {
                NewcamdError::Protocol("timeout while reading server init sequence")
            },
            Interruption::PacketLengthTimeout => {
                NewcamdError::Protocol("timeout while reading packet length")
            },
            Interruption::PacketBodyTimeout => {
                NewcamdError::Protocol("timeout while reading packet body")
            },
            Interruption::ConnectionGone => NewcamdError::Protocol("connection task is not running"),
            Interruption::ResponseDropped => {
                NewcamdError::Protocol("ECM response channel was closed")
            },
        }
    }
}

/// The salt that passwords are hashed with.
pub const PASSWORD_SALT: &'static str = "abcdefgh";

/// The payload that logs a user in: name and hashed password, each ended by a
/// zero byte.
pub open spec fn login_payload_of(username: Seq<char>, password_crypt: Seq<char>) -> Seq<u8> {
    payload_of(
        msg::MSG_CLIENT_2_SERVER_LOGIN,
        encode_utf8(username) + seq![0u8] + encode_utf8(password_crypt) + seq![0u8],
    )
}

/// A message of the login, which concerns no service.
pub open spec fn login_command(payload: Seq<u8>) -> CommandView {
    CommandView { sid: 0, caid: 0, provider: 0, payload }
}

/// Where to connect to, if there is a user to log in.
pub fn endpoint(config: &NewcamdConfig) -> (r: Result<String, NewcamdError>)
    ensures
        if config.username@.len() == 0 || config.password@.len() == 0 {
            r matches Err(err) && err@ == ErrorView::InvalidData(
                "username and password must not be empty"@,
            )
        } else {
            r matches Ok(text) && text@ == config.host@ + ":"@ + decimal(config.port as nat)
        },
{
    if config.username.as_str().is_empty() || config.password.as_str().is_empty() {
        return Err(
            NewcamdError::InvalidData("username and password must not be empty".to_string()),
        );
    }
    let mut text = config.host.clone();
    text.append(":");
    text.append(decimal_of(config.port as u64).as_str());
    Ok(text)
}

/// The payload that logs a user in.
pub fn login_payload(username: &str, password_crypt: &str) -> (r: Vec<u8>)
    ensures
        r@ == login_payload_of(username@, password_crypt@),
{
    let mut login_data: Vec<u8> = Vec::new();
    login_data.extend_from_slice(username.as_bytes());
    login_data.push(0);
    login_data.extend_from_slice(password_crypt.as_bytes());
    login_data.push(0);
    assert(login_data@ =~= encode_utf8(username@) + seq![0u8] + encode_utf8(password_crypt@)
        + seq![0u8]);
    encode_payload(msg::MSG_CLIENT_2_SERVER_LOGIN, login_data.as_slice())
}

/// The frame that logs in at a server that greeted with `keymod`.
pub fn start_login(config: &NewcamdConfig, keymod: &[u8; 14]) -> (r: Result<
    (LoginState, Vec<u8>),
    NewcamdError,
>)
    ensures
        ({
            let crypt = md5_crypted(config.password@, PASSWORD_SALT@);
            let payload = login_payload_of(config.username@, crypt);
            let key = login_key(config.des_key_14@, keymod@);
            match r {
                Ok((state, frame)) => {
                    &&& sendable(payload)
                    &&& state.login_key@ == key
                    &&& state.password_crypt@ == crypt
                    &&& carries(frame@, key, 0, login_command(payload))
                },
                Err(err) => !sendable(payload) && err@ == ErrorView::Protocol("packet too large"@),
            }
        }),
{
    let password_crypt = md5_crypt(config.password.as_str(), PASSWORD_SALT);
    login_with(config, keymod, password_crypt)
}

/// The frame that logs in at a server that greeted with `keymod`, the password
/// being hashed to `password_crypt`.
pub fn login_with(
    config: &NewcamdConfig,
    keymod: &[u8; 14],
    password_crypt: String,
) -> (r: Result<(LoginState, Vec<u8>), NewcamdError>)
    ensures
        ({
            let payload = login_payload_of(config.username@, password_crypt@);
            let key = login_key(config.des_key_14@, keymod@);
            match r {
                Ok((state, frame)) => {
                    &&& sendable(payload)
                    &&& state.login_key@ == key
                    &&& state.password_crypt@ == password_crypt@
                    &&& carries(frame@, key, 0, login_command(payload))
                },
                Err(err) => !sendable(payload) && err@ == ErrorView::Protocol("packet too large"@),
            }
        }),
{
    let login_key = match derive_login_key(&config.des_key_14, keymod) {
        Ok(key) => key,
        Err(err) => return Err(err),
    };
    let payload = login_payload(config.username.as_str(), password_crypt.as_str());
    match encode_network_message(&login_key, payload.as_slice(), 0, 0, 0, 0) {
        Ok(frame) => Ok((LoginState { login_key, password_crypt }, frame)),
        Err(err) => Err(err),
    }
}

/// Takes the server's answer to the login. If it is welcome, the client asks
/// for the data of the card, under the key of the session and with the number
/// after that of the answer.
pub fn accept_login(
    config: &NewcamdConfig,
    state: &LoginState,
    answer: &NewcamdPacket,
) -> (r: Result<(SessionState, Vec<u8>), NewcamdError>)
    ensures
        match r {
            Ok((session, frame)) => {
                &&& answer.command == msg::MSG_CLIENT_2_SERVER_LOGIN_ACK
                &&& session.session_key@ == login_key(
                    config.des_key_14@,
                    encode_utf8(state.password_crypt@),
                )
                &&& session.msg_id == next_msg_id(answer.header.msg_id)
                &&& carries(
                    frame@,
                    session.session_key@,
                    session.msg_id,
                    login_command(payload_of(msg::MSG_CARD_DATA_REQ, Seq::empty())),
                )
            },
            Err(err) => if answer.command == msg::MSG_CLIENT_2_SERVER_LOGIN_NAK {
                err@ == ErrorView::AuthenticationFailed
            } else {
                &&& answer.command != msg::MSG_CLIENT_2_SERVER_LOGIN_ACK
                &&& err@ == ErrorView::Protocol("expected LOGIN_ACK packet"@)
            },
        },
{
    if answer.command == msg::MSG_CLIENT_2_SERVER_LOGIN_NAK {
        return Err(NewcamdError::AuthenticationFailed);
    }
    if answer.command != msg::MSG_CLIENT_2_SERVER_LOGIN_ACK {
        return Err(NewcamdError::Protocol("expected LOGIN_ACK packet"));
    }
    let session_key = match derive_login_key(
        &config.des_key_14,
        state.password_crypt.as_str().as_bytes(),
    ) {
        Ok(key) => key,
        Err(err) => return Err(err),
    };
    let empty: [u8; 0] = [];
    assert(empty@ =~= Seq::<u8>::empty());
    let payload = encode_payload(msg::MSG_CARD_DATA_REQ, &empty);
    let mut msg_id: u16 = answer.header.msg_id;
    match encode_next_message(&mut msg_id, &session_key, payload.as_slice(), 0, 0, 0) {
        Ok(frame) => Ok((SessionState { session_key, msg_id }, frame)),
        Err(err) => Err(err),
    }
}

/// Takes the server's answer to the request for the data of the card.
pub fn accept_card_data(
    config: &NewcamdConfig,
    session: SessionState,
    answer: NewcamdPacket,
) -> (r: Result<HandshakeState, NewcamdError>)
    ensures
        match r {
            Ok(state) => {
                &&& answer.command == msg::MSG_CARD_DATA
                &&& card_data_of(answer.data@) == Ok::<CardDataView, ErrorView>(state.card_data@)
                &&& state.read_timeout == config.read_timeout
                &&& state.msg_id == session.msg_id
                &&& state.session_key@ == session.session_key@
                &&& state.default_provider == config.provider
            },
            Err(err) => if answer.command != msg::MSG_CARD_DATA {
                err@ == ErrorView::Protocol("expected CARD_DATA packet"@)
            } else {
                card_data_of(answer.data@) == Err::<CardDataView, ErrorView>(err@)
            },
        },
{
    if answer.command != msg::MSG_CARD_DATA {
        return Err(NewcamdError::Protocol("expected CARD_DATA packet"));
    }
    match parse_card_data(answer.data) {
        Ok(card_data) => Ok(
            HandshakeState {
                read_timeout: config.read_timeout,
                msg_id: session.msg_id,
                session_key: session.session_key,
                default_provider: config.provider,
                card_data,
            },
        ),
        Err(err) => Err(err),
    }
}

/// Reads the data of a card.
pub fn parse_card_data(data: Vec<u8>) -> (r: Result<CardData, NewcamdError>)
    ensures
        agrees(r, card_data_of(data@)),
        r matches Ok(card) ==> card.caid / 256 == data@[1] && card.caid % 256 == data@[2],
{
    if data.len() < 12 {
        return Err(NewcamdError::Protocol("invalid CARD_DATA payload"));
    }
    let provider_count: usize = data[11] as usize;
    if data.len() < 12 + provider_count * 11 {
        return Err(NewcamdError::Protocol("invalid CARD_DATA provider data"));
    }
    let caid: u16 = data[1] as u16 * 256 + data[2] as u16;
    let au = data[0] == 1;
    let ua = crate::cipher::block_at(data.as_slice(), 3);
    let mut providers: Vec<CardProvider> = Vec::new();
    for i in 0..provider_count
        invariant
            provider_count <= 255,
            data@.len() >= 12 + provider_count * 11,
            providers@.map_values(|provider: CardProvider| provider@) == Seq::new(
                i as nat,
                |j: int| provider_at(data@, j),
            ),
    {
        let start: usize = 12 + i * 11;
        let provider = CardProvider {
            ident: [data[start], data[start + 1], data[start + 2]],
            sa: crate::cipher::block_at(data.as_slice(), start + 3),
        };
        assert(provider.ident@ =~= data@.subrange(start as int, start + 3));
        assert(provider@ == provider_at(data@, i as int));
        let ghost before = providers@.map_values(|provider: CardProvider| provider@);
        providers.push(provider);
        assert(providers@.map_values(|provider: CardProvider| provider@) =~= before.push(
            provider@,
        ));
        assert(before.push(provider@) =~= Seq::new((i + 1) as nat, |j: int| provider_at(data@, j)));
    }
    Ok(CardData { caid, au, ua, providers, provider_count, raw_payload: data })
}

/// The data of a card is read byte by byte: whether the first is one, the CAID in
/// the next two, upper byte first, eight bytes of address, the number of
/// providers, and eleven bytes for each of them. It is refused exactly if it is
/// shorter than it says, or than twelve bytes.
pub proof fn law_card_data(data: Seq<u8>)
    ensures
        data.len() < 12 ==> card_data_of(data) == Err::<CardDataView, ErrorView>(
            ErrorView::Protocol("invalid CARD_DATA payload"@),
        ),
        12 <= data.len() < 12 + 11 * data[11] ==> card_data_of(data) == Err::<
            CardDataView,
            ErrorView,
        >(ErrorView::Protocol("invalid CARD_DATA provider data"@)),
        data.len() >= 12 && data.len() >= 12 + 11 * data[11] ==> (card_data_of(data) matches Ok(card)
            && {
            &&& card.caid / 256 == data[1]
            &&& card.caid % 256 == data[2]
            &&& card.au <==> data[0] == 1
            &&& card.ua.len() == 8
            &&& forall|k: int| 0 <= k < 8 ==> #[trigger] card.ua[k] == data[3 + k]
            &&& card.provider_count == data[11]
            &&& card.providers.len() == data[11]
            &&& forall|i: int|
                0 <= i < data[11] ==> (#[trigger] card.providers[i]).ident.len() == 3
                    && card.providers[i].sa.len() == 8
            &&& forall|i: int, k: int|
                0 <= i < data[11] && 0 <= k < 3 ==> #[trigger] card.providers[i].ident[k]
                    == data[12 + 11 * i + k]
            &&& forall|i: int, k: int|
                0 <= i < data[11] && 0 <= k < 8 ==> #[trigger] card.providers[i].sa[k]
                    == data[15 + 11 * i + k]
            &&& card.raw_payload == data
        }),
{
}

/// The payload of a login is its command, the length of what follows, the name
/// of the user, a zero, the hashed password and a zero.
pub proof fn law_login_payload(username: Seq<char>, password_crypt: Seq<char>)
    ensures
        ({
            let payload = login_payload_of(username, password_crypt);
            let name = encode_utf8(username);
            let crypt = encode_utf8(password_crypt);
            &&& payload.len() == 5 + name.len() + crypt.len()
            &&& payload[0] == 0xE0
            &&& (payload[1] % 16) * 256 + payload[2] == (payload.len() - 3) % 4096
            &&& payload.skip(3) == name + seq![0u8] + crypt + seq![0u8]
        }),
{
    let data = encode_utf8(username) + seq![0u8] + encode_utf8(password_crypt) + seq![0u8];
    let payload = login_payload_of(username, password_crypt);
    crate::protocol::law_payload(msg::MSG_CLIENT_2_SERVER_LOGIN, data);
    assert(payload.skip(3) =~= data);
}

/// What contracts say of the data of a card, they say of its fields.
pub proof fn law_card_fields(card: CardData)
    ensures
        card@.caid == card.caid,
        card@.au == card.au,
        card@.ua == card.ua@,
        card@.provider_count == card.provider_count,
        card@.raw_payload == card.raw_payload@,
        card@.providers.len() == card.providers@.len(),
        forall|i: int|
            0 <= i < card.providers@.len() ==> (#[trigger] card@.providers[i]).ident
                == card.providers@[i].ident@ && card@.providers[i].sa == card.providers@[i].sa@,
{
}

} // verus!
