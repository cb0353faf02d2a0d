//! The client's side of a session once the server knows it.

use std::time::Duration;
use vstd::prelude::*;
use vstd::slice::slice_to_vec;

use crate::error::NewcamdError;
use crate::frame::{decode_network_message, encode_next_message};
use crate::handshake::{CardData, HandshakeState};
use crate::protocol::msg;
use crate::protocol::{encode_payload, patch_payload_len, NewcamdPacket};

verus! {

use crate::error::{agrees, ErrorView};
use crate::frame::{
    is_frame_of, is_received_as_sent, next_msg_id, packet_received, sendable, unsendable_error,
};
use crate::handshake::CardDataView;
use crate::protocol::{payload_of, with_announced_len, PacketView};

/// How many ECM requests may wait for the connection.
pub const ECM_QUEUE_CAPACITY: usize = 1;

/// How many EMM requests may wait for the connection.
pub const EMM_QUEUE_CAPACITY: usize = 32;

/// The time span of `secs` whole seconds, as `Duration::from_secs` makes it.
pub uninterp spec fn duration_of_secs(secs: u64) -> Duration;

/// Trusted: `Duration::from_secs` makes a time span that its argument alone
/// determines.
pub assume_specification[ Duration::from_secs ](secs: u64) -> (d: Duration)
    ensures
        d == duration_of_secs(secs),
;

/// Where the server is, and what to log in with.
#[derive(Debug)]
pub struct NewcamdConfig {
    pub host: String,
    pub port: u16,
    pub username: String,
    pub password: String,
    pub des_key_14: [u8; 14],
    pub provider: u32,
    pub connect_timeout: Duration,
    pub read_timeout: Duration,
}

impl Clone for NewcamdConfig {
    fn clone(&self) -> (r: NewcamdConfig)
        ensures
            r == *self,
    {
        NewcamdConfig {
            host: self.host.clone(),
            port: self.port,
            username: self.username.clone(),
            password: self.password.clone(),
            des_key_14: self.des_key_14,
            provider: self.provider,
            connect_timeout: self.connect_timeout,
            read_timeout: self.read_timeout,
        }
    }
}

impl Default for NewcamdConfig {
    fn default() -> (config: NewcamdConfig)
        ensures
            config.host@ == "127.0.0.1"@,
            config.port == 15000,
            config.username@ == Seq::<char>::empty(),
            config.password@ == Seq::<char>::empty(),
            config.des_key_14@ == Seq::new(14, |i: int| 0u8),
            config.provider == 0,
            config.connect_timeout == duration_of_secs(5),
            config.read_timeout == duration_of_secs(5),
    {
        let des_key_14 = [0u8; 14];
        assert(des_key_14@ =~= Seq::new(14, |i: int| 0u8));
        NewcamdConfig {
            host: "127.0.0.1".to_string(),
            port: 15000,
            username: String::new(),
            password: String::new(),
            des_key_14,
            provider: 0,
            connect_timeout: Duration::from_secs(5),
            read_timeout: Duration::from_secs(5),
        }
    }
}

/// The fields that every request has.
#[derive(Debug, Clone, Copy)]
pub struct RawRequest {
    pub sid: u16,
    pub caid: u16,
    pub provider: u32,
}

/// A request for the control words of an ECM. A `caid` or a `provider` of zero
/// stands for that of the session.
#[derive(Debug, Clone)]
pub struct EcmRequest {
    pub sid: u16,
    pub caid: u16,
    pub provider: u32,
    pub section: Vec<u8>,
}

/// The answer to an ECM request.
#[derive(Debug, Clone)]
pub struct EcmResponse {
    pub found: bool,
    pub cw: [u8; 16],
    pub packet: NewcamdPacket,
}

/// An `EcmResponse` with its bytes as sequences.
pub struct EcmResponseView {
    pub found: bool,
    pub cw: Seq<u8>,
    pub packet: PacketView,
}

impl View for EcmResponse {
    type V = EcmResponseView;

    open spec fn view(&self) -> EcmResponseView {
        EcmResponseView { found: self.found, cw: self.cw@, packet: self.packet@ }
    }
}

/// An ECM request on its way to the server.
#[derive(Debug, Clone)]
pub struct EcmCommand {
    pub sid: u16,
    pub caid: u16,
    pub provider: u32,
    pub payload: Vec<u8>,
}

/// An EMM on its way to the server.
#[derive(Debug, Clone)]
pub struct EmmCommand {
    pub sid: u16,
    pub caid: u16,
    pub provider: u32,
    pub payload: Vec<u8>,
}

/// A command with its payload as a sequence.
pub struct CommandView {
    pub sid: u16,
    pub caid: u16,
    pub provider: u32,
    pub payload: Seq<u8>,
}

impl View for EcmCommand {
    type V = CommandView;

    open spec fn view(&self) -> CommandView {
        CommandView {
            sid: self.sid,
            caid: self.caid,
            provider: self.provider,
            payload: self.payload@,
        }
    }
}

impl View for EmmCommand {
    type V = CommandView;

    open spec fn view(&self) -> CommandView {
        CommandView {
            sid: self.sid,
            caid: self.caid,
            provider: self.provider,
            payload: self.payload@,
        }
    }
}

/// The part of a session that makes requests.
pub struct Client {
    caid: u16,
    default_provider: u32,
    ecm_busy: bool,
}

/// The state of a `Client`: what stands in for zeros in requests, and whether
/// an ECM request is under way.
pub struct ClientView {
    pub caid: u16,
    pub default_provider: u32,
    pub ecm_busy: bool,
}

impl View for Client {
    type V = ClientView;

    closed spec fn view(&self) -> ClientView {
        ClientView {
            caid: self.caid,
            default_provider: self.default_provider,
            ecm_busy: self.ecm_busy,
        }
    }
}

/// The part of a session that numbers and encrypts what is sent and makes sense
/// of what arrives.
pub struct Connection {
    read_timeout: Duration,
    msg_id: u16,
    session_key: [u8; 16],
    pending_ecm: Option<u16>,
    pub card_data: CardData,
}

/// The state of a `Connection`. `pending_ecm` is the number of the ECM request
/// that waits for its answer.
pub struct ConnectionView {
    pub read_timeout: Duration,
    pub msg_id: u16,
    pub session_key: Seq<u8>,
    pub pending_ecm: Option<u16>,
    pub card_data: CardDataView,
}

impl View for Connection {
    type V = ConnectionView;

    closed spec fn view(&self) -> ConnectionView {
        ConnectionView {
            read_timeout: self.read_timeout,
            msg_id: self.msg_id,
            session_key: self.session_key@,
            pending_ecm: self.pending_ecm,
            card_data: self.card_data@,
        }
    }
}

/// What can happen to a connection.
pub enum ConnectionEvent {
    /// The server sent this packet.
    Packet(NewcamdPacket),
    /// The client requests control words.
    Ecm(EcmCommand),
    /// The client passes an EMM on.
    Emm(EmmCommand),
}

/// What a connection asks for.
pub enum ConnectionAction {
    Nothing,
    /// Send these bytes to the server.
    Send(Vec<u8>),
    /// Hand this answer to whoever made the pending ECM request.
    Deliver(EcmResponse),
}

/// What a packet from the server is to a connection.
pub enum Route {
    Keepalive,
    Emm,
    Answer,
    Unexpected,
}

/// What a packet is while the ECM request with the number in `pending` waits:
/// its answer has its number or the table_id of an ECM.
pub open spec fn route(pending: Option<u16>, packet: PacketView) -> Route {
    if packet.command == msg::MSG_KEEPALIVE {
        Route::Keepalive
    } else if msg::EMM_TABLE_ID_FIRST <= packet.command <= msg::EMM_TABLE_ID_LAST {
        Route::Emm
    } else {
        match pending {
            Some(msg_id) => if msg_id == packet.header.msg_id || packet.command == 0x80
                || packet.command == 0x81 {
                Route::Answer
            } else {
                Route::Unexpected
            },
            None => Route::Unexpected,
        }
    }
}

/// What the answer to an ECM request says: nothing was found if it is empty,
/// else it starts with sixteen bytes of control words.
pub open spec fn ecm_response_of(packet: PacketView) -> Result<EcmResponseView, ErrorView> {
    if packet.data.len() == 0 {
        Ok(EcmResponseView { found: false, cw: Seq::new(16, |i: int| 0u8), packet })
    } else if packet.data.len() < 16 {
        Err(ErrorView::Protocol("ECM response payload is shorter than 16-byte CW"@))
    } else {
        Ok(EcmResponseView { found: true, cw: packet.data.take(16), packet })
    }
}

/// `value`, or `default` where it is zero.
pub open spec fn or_default(value: int, default: int) -> int {
    if value == 0 {
        default
    } else {
        value
    }
}

/// The command for a section, with the session's `caid` and `provider` where
/// the request has none, and with the length in the section set right.
pub open spec fn command_for(
    client: ClientView,
    sid: u16,
    caid: u16,
    provider: u32,
    section: Seq<u8>,
) -> CommandView {
    CommandView {
        sid,
        caid: or_default(caid as int, client.caid as int) as u16,
        provider: or_default(provider as int, client.default_provider as int) as u32,
        payload: with_announced_len(section),
    }
}

/// Whether `frame` is the message with this number for `command`, and arrives
/// as it was sent.
pub open spec fn carries(
    frame: Seq<u8>,
    key: Seq<u8>,
    msg_id: u16,
    command: CommandView,
) -> bool {
    &&& is_frame_of(
        frame,
        key,
        msg_id,
        command.sid,
        command.caid,
        command.provider,
        command.payload,
    )
    &&& is_received_as_sent(
        frame,
        key,
        msg_id,
        command.sid,
        command.caid,
        command.provider,
        command.payload,
    )
}

/// The message that answers a keepalive.
pub open spec fn keepalive_answer(packet: PacketView) -> CommandView {
    CommandView {
        sid: packet.header.sid,
        caid: packet.header.caid,
        provider: packet.header.provider,
        payload: payload_of(msg::MSG_KEEPALIVE, Seq::empty()),
    }
}

impl Client {
    /// The two parts of the session that a handshake has set up.
    pub fn connect(handshake: HandshakeState) -> (r: (Client, Connection))
        ensures
            r.0@ == (ClientView {
                caid: handshake.card_data@.caid,
                default_provider: handshake.default_provider,
                ecm_busy: false,
            }),
            r.1@ == (ConnectionView {
                read_timeout: handshake.read_timeout,
                msg_id: handshake.msg_id,
                session_key: handshake.session_key@,
                pending_ecm: None,
                card_data: handshake.card_data@,
            }),
    {
        let client = Client {
            caid: handshake.card_data.caid,
            default_provider: handshake.default_provider,
            ecm_busy: false,
        };
        let connection = Connection {
            read_timeout: handshake.read_timeout,
            msg_id: handshake.msg_id,
            session_key: handshake.session_key,
            pending_ecm: None,
            card_data: handshake.card_data,
        };
        (client, connection)
    }

    /// The CAID of the server's card.
    pub fn caid(&self) -> (r: u16)
        ensures
            r == self@.caid,
    {
        self.caid
    }

    /// The provider that the client was configured with.
    pub fn default_provider(&self) -> (r: u32)
        ensures
            r == self@.default_provider,
    {
        self.default_provider
    }

    /// Takes on an ECM request. From then on the client is busy, until
    /// `release_ecm`.
    pub fn send_ecm(&mut self, req: &EcmRequest) -> (r: Result<EcmCommand, NewcamdError>)
        ensures
            if req.section@.len() < 3 {
                &&& r matches Err(err) && err@ == ErrorView::InvalidData(
                    "ECM section must include at least 3 bytes"@,
                )
                &&& final(self)@ == old(self)@
            } else if old(self)@.ecm_busy {
                &&& r matches Err(err) && err@ == ErrorView::Protocol(
                    "previous ECM request is still pending"@,
                )
                &&& final(self)@ == old(self)@
            } else {
                &&& r matches Ok(command) && command@ == command_for(
                    old(self)@,
                    req.sid,
                    req.caid,
                    req.provider,
                    req.section@,
                )
                &&& final(self)@ == (ClientView { ecm_busy: true, ..old(self)@ })
            },
    {
        if req.section.len() < 3 {
            return Err(
                NewcamdError::InvalidData("ECM section must include at least 3 bytes".to_string()),
            );
        }
        if self.ecm_busy {
            return Err(NewcamdError::Protocol("previous ECM request is still pending"));
        }
        self.ecm_busy = true;
        let mut payload = slice_to_vec(req.section.as_slice());
        patch_payload_len(&mut payload);
        Ok(
            EcmCommand {
                sid: req.sid,
                caid: self.resolve_caid(req.caid),
                provider: self.resolve_provider(req.provider),
                payload,
            },
        )
    }

    /// Ends an ECM request, whatever came of it.
    pub fn release_ecm(&mut self)
        ensures
            final(self)@ == (ClientView { ecm_busy: false, ..old(self)@ }),
    {
        self.ecm_busy = false;
    }

    /// Takes on an EMM.
    pub fn send_emm(
        &self,
        section: &[u8],
        sid: u16,
        caid: u16,
        provider: u32,
    ) -> (r: Result<EmmCommand, NewcamdError>)
        ensures
            if section@.len() < 3 {
                r matches Err(err) && err@ == ErrorView::InvalidData(
                    "EMM section must include at least 3 bytes"@,
                )
            } else {
                r matches Ok(command) && command@ == command_for(
                    self@,
                    sid,
                    caid,
                    provider,
                    section@,
                )
            },
    {
        if section.len() < 3 {
            return Err(
                NewcamdError::InvalidData("EMM section must include at least 3 bytes".to_string()),
            );
        }
        let mut payload = slice_to_vec(section);
        patch_payload_len(&mut payload);
        Ok(
            EmmCommand {
                sid,
                caid: self.resolve_caid(caid),
                provider: self.resolve_provider(provider),
                payload,
            },
        )
    }

    fn resolve_caid(&self, request_caid: u16) -> (r: u16)
        ensures
            r == or_default(request_caid as int, self@.caid as int),
    {
        if request_caid == 0 {
            self.caid
        } else {
            request_caid
        }
    }

    fn resolve_provider(&self, request_provider: u32) -> (r: u32)
        ensures
            r == or_default(request_provider as int, self@.default_provider as int),
    {
        if request_provider == 0 {
            self.default_provider
        } else {
            request_provider
        }
    }
}

impl Connection {
    /// What the server said of its card.
    pub fn card_data(&self) -> (r: &CardData)
        ensures
            r@ == self@.card_data,
    {
        &self.card_data
    }

    /// How long the server may take for its next packet: without limit, unless
    /// an ECM request waits for its answer.
    pub fn ecm_timeout(&self) -> (r: Option<Duration>)
        ensures
            r == if self@.pending_ecm is Some {
                Some(self@.read_timeout)
            } else {
                None::<Duration>
            },
    {
        if self.pending_ecm.is_some() {
            Some(self.read_timeout)
        } else {
            None
        }
    }

    /// Reads a frame that the server sent.
    pub fn receive(&self, len_bytes: &[u8; 2], body: &[u8]) -> (r: Result<
        NewcamdPacket,
        NewcamdError,
    >)
        ensures
            agrees(r, packet_received(len_bytes@ + body@, self@.session_key)),
    {
        decode_network_message(len_bytes, body, &self.session_key)
    }

    /// Takes one event and says what to do about it. After an error the
    /// connection is over.
    pub fn run(&mut self, event: ConnectionEvent) -> (r: Result<ConnectionAction, NewcamdError>)
        ensures
            match event {
                ConnectionEvent::Packet(packet) => packet_handled(
                    old(self)@,
                    packet@,
                    r,
                    final(self)@,
                ),
                ConnectionEvent::Ecm(command) => match r {
                    Ok(ConnectionAction::Send(frame)) => ecm_sent(
                        old(self)@,
                        command@,
                        Ok(frame),
                        final(self)@,
                    ),
                    Err(err) => ecm_sent(old(self)@, command@, Err(err), final(self)@),
                    _ => false,
                },
                ConnectionEvent::Emm(command) => match r {
                    Ok(ConnectionAction::Send(frame)) => message_sent(
                        old(self)@,
                        command@,
                        Ok(frame),
                        final(self)@,
                    ),
                    Err(err) => message_sent(old(self)@, command@, Err(err), final(self)@),
                    _ => false,
                },
            },
    {
        match event {
            ConnectionEvent::Packet(packet) => self.handle_server_packet(packet),
            ConnectionEvent::Ecm(command) => match self.send_ecm_command(command) {
                Ok(frame) => Ok(ConnectionAction::Send(frame)),
                Err(err) => Err(err),
            },
            ConnectionEvent::Emm(command) => match self.send_emm_command(command) {
                Ok(frame) => Ok(ConnectionAction::Send(frame)),
                Err(err) => Err(err),
            },
        }
    }

    /// Takes a packet from the server.
    pub fn handle_server_packet(&mut self, packet: NewcamdPacket) -> (r: Result<
        ConnectionAction,
        NewcamdError,
    >)
        ensures
            packet_handled(old(self)@, packet@, r, final(self)@),
    {
        if packet.command == msg::MSG_KEEPALIVE {
            return match self.send_keepalive_response(&packet) {
                Ok(frame) => Ok(ConnectionAction::Send(frame)),
                Err(err) => Err(err),
            };
        }
        if msg::EMM_TABLE_ID_FIRST <= packet.command && packet.command <= msg::EMM_TABLE_ID_LAST {
            return Ok(ConnectionAction::Nothing);
        }
        let should_consume_ecm = match self.pending_ecm {
            Some(msg_id) => msg_id == packet.header.msg_id || packet.command == 0x80
                || packet.command == 0x81,
            None => false,
        };
        if !should_consume_ecm {
            return Err(NewcamdError::Protocol("unexpected packet from server"));
        }
        self.pending_ecm = None;
        match decode_ecm_response(packet) {
            Ok(response) => Ok(ConnectionAction::Deliver(response)),
            Err(err) => Err(err),
        }
    }

    /// The frame that answers a keepalive.
    pub fn send_keepalive_response(&mut self, packet: &NewcamdPacket) -> (r: Result<
        Vec<u8>,
        NewcamdError,
    >)
        ensures
            r is Ok,
            message_sent(old(self)@, keepalive_answer(packet@), r, final(self)@),
    {
        let empty: [u8; 0] = [];
        assert(empty@ =~= Seq::<u8>::empty());
        let payload = encode_payload(msg::MSG_KEEPALIVE, &empty);
        let mut msg_id: u16 = self.msg_id;
        let r = encode_next_message(
            &mut msg_id,
            &self.session_key,
            payload.as_slice(),
            packet.header.sid,
            packet.header.caid,
            packet.header.provider,
        );
        self.msg_id = msg_id;
        r
    }

    /// The frame for an ECM request, which from then on waits for its answer.
    pub fn send_ecm_command(&mut self, command: EcmCommand) -> (r: Result<Vec<u8>, NewcamdError>)
        ensures
            ecm_sent(old(self)@, command@, r, final(self)@),
    {
        if self.pending_ecm.is_some() {
            return Err(NewcamdError::Protocol("received a new ECM while another is pending"));
        }
        let mut msg_id: u16 = self.msg_id;
        let r = encode_next_message(
            &mut msg_id,
            &self.session_key,
            command.payload.as_slice(),
            command.sid,
            command.caid,
            command.provider,
        );
        self.msg_id = msg_id;
        if r.is_ok() {
            self.pending_ecm = Some(msg_id);
        }
        r
    }

    /// The frame for an EMM.
    pub fn send_emm_command(&mut self, command: EmmCommand) -> (r: Result<Vec<u8>, NewcamdError>)
        ensures
            message_sent(old(self)@, command@, r, final(self)@),
    {
        let mut msg_id: u16 = self.msg_id;
        let r = encode_next_message(
            &mut msg_id,
            &self.session_key,
            command.payload.as_slice(),
            command.sid,
            command.caid,
            command.provider,
        );
        self.msg_id = msg_id;
        r
    }
}

/// What a connection does with a message that it numbers and sends: `r` is its
/// frame, or why there is none. A payload without a length field uses up no
/// number.
pub open spec fn message_sent(
    before: ConnectionView,
    command: CommandView,
    r: Result<Vec<u8>, NewcamdError>,
    after: ConnectionView,
) -> bool {
    let msg_id = if command.payload.len() < 3 {
        before.msg_id
    } else {
        next_msg_id(before.msg_id)
    };
    &&& after == (ConnectionView { msg_id, ..before })
    &&& match r {
        Ok(frame) => sendable(command.payload) && carries(
            frame@,
            before.session_key,
            msg_id,
            command,
        ),
        Err(err) => !sendable(command.payload) && err@ == unsendable_error(command.payload),
    }
}

/// What a connection does with an ECM request: it sends it unless another one
/// waits for its answer, and remembers its number.
pub open spec fn ecm_sent(
    before: ConnectionView,
    command: CommandView,
    r: Result<Vec<u8>, NewcamdError>,
    after: ConnectionView,
) -> bool {
    if before.pending_ecm is Some {
        &&& r matches Err(err) && err@ == ErrorView::Protocol(
            "received a new ECM while another is pending"@,
        )
        &&& after == before
    } else {
        &&& message_sent(before, command, r, ConnectionView { pending_ecm: None, ..after })
        &&& after.pending_ecm == if r is Ok {
            Some(after.msg_id)
        } else {
            None::<u16>
        }
    }
}

/// What a connection does with a packet from the server.
pub open spec fn packet_handled(
    before: ConnectionView,
    packet: PacketView,
    r: Result<ConnectionAction, NewcamdError>,
    after: ConnectionView,
) -> bool {
    match route(before.pending_ecm, packet) {
        Route::Keepalive => r matches Ok(ConnectionAction::Send(frame)) && message_sent(
            before,
            keepalive_answer(packet),
            Ok(frame),
            after,
        ),
        Route::Emm => r matches Ok(ConnectionAction::Nothing) && after == before,
        Route::Unexpected => {
            &&& r matches Err(err) && err@ == ErrorView::Protocol("unexpected packet from server"@)
            &&& after == before
        },
        Route::Answer => {
            &&& after == (ConnectionView { pending_ecm: None, ..before })
            &&& match (r, ecm_response_of(packet)) {
                (Ok(ConnectionAction::Deliver(response)), Ok(expected)) => response@ == expected,
                (Err(err), Err(expected)) => err@ == expected,
                _ => false,
            }
        },
    }
}

/// Reads the answer to an ECM request.
pub fn decode_ecm_response(packet: NewcamdPacket) -> (r: Result<EcmResponse, NewcamdError>)
    ensures
        agrees(r, ecm_response_of(packet@)),
        packet.data@.len() == 0 ==> (r matches Ok(response) && !response.found
            && response.packet@ == packet@ && forall|i: int|
            0 <= i < 16 ==> #[trigger] response.cw@[i] == 0),
        packet.data@.len() >= 16 ==> (r matches Ok(response) && response.found
            && response.packet@ == packet@ && forall|i: int|
            0 <= i < 16 ==> #[trigger] response.cw@[i] == packet.data@[i]),
        0 < packet.data@.len() < 16 ==> r is Err,
{
    let mut cw = [0u8; 16];
    assert(cw@ =~= Seq::new(16, |i: int| 0u8));
    if packet.data.len() == 0 {
        return Ok(EcmResponse { found: false, cw, packet });
    }
    if packet.data.len() < 16 {
        return Err(NewcamdError::Protocol("ECM response payload is shorter than 16-byte CW"));
    }
    for i in 0..16usize
        invariant
            packet.data@.len() >= 16,
            forall|j: int| 0 <= j < i ==> cw@[j] == packet.data@[j],
    {
        cw[i] = packet.data[i];
    }
    assert(cw@ =~= packet.data@.take(16));
    Ok(EcmResponse { found: true, cw, packet })
}

/// What contracts say of a command or of an answer, they say of its fields.
pub proof fn law_fields(ecm: EcmCommand, emm: EmmCommand, response: EcmResponse)
    ensures
        ecm@.sid == ecm.sid && ecm@.caid == ecm.caid && ecm@.provider == ecm.provider,
        ecm@.payload == ecm.payload@,
        emm@.sid == emm.sid && emm@.caid == emm.caid && emm@.provider == emm.provider,
        emm@.payload == emm.payload@,
        response@.found == response.found,
        response@.cw == response.cw@,
        response@.packet == response.packet@,
        response@.packet.header == response.packet.header,
        response@.packet.command == response.packet.command,
        response@.packet.data == response.packet.data@,
{
}

} // verus!
