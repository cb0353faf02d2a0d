//! What holds of the client as a whole: across functions, and across calls.

use vstd::prelude::*;

use crate::client::ConnectionAction;
use crate::error::NewcamdError;
use crate::protocol::{msg, Header525};

verus! {

use crate::client::{
    carries, command_for, ecm_response_of, ecm_sent, keepalive_answer, message_sent,
    packet_handled, ClientView, CommandView, ConnectionView,
};
use crate::error::ErrorView;
use crate::frame::{next_msg_id, packet_received, sendable};
use crate::handshake::{login_command, login_payload_of};
use crate::protocol::{
    announced_len, header_of, packet_of, payload_of, with_announced_len, PacketView,
};
use vstd::utf8::encode_utf8;

/// Setting the length field of a payload announces the number of bytes behind
/// it, in 12 bits, and changes nothing else. Setting it again changes nothing.
pub proof fn law_length_field(payload: Seq<u8>)
    requires
        payload.len() >= 3,
    ensures
        with_announced_len(payload).len() == payload.len(),
        announced_len(with_announced_len(payload)) == (payload.len() - 3) % 4096,
        with_announced_len(payload)[1] / 16 == payload[1] / 16,
        forall|i: int|
            0 <= i < payload.len() && i != 1 && i != 2 ==> #[trigger] with_announced_len(
                payload,
            )[i] == payload[i],
        with_announced_len(with_announced_len(payload)) == with_announced_len(payload),
{
    let body_len = payload.len() - 3;
    let patched = with_announced_len(payload);
    assert(patched[1] == payload[1] / 16 * 16 + body_len / 256 % 16);
    assert(patched[2] == body_len % 256);
    assert(with_announced_len(patched) =~= patched);
}

/// A payload is read back from a message: its command, and its data up to 4095
/// bytes, whatever the header in front of it, and whatever follows it.
pub proof fn law_payload_is_read_back(
    header: Seq<u8>,
    command: u8,
    data: Seq<u8>,
    rest: Seq<u8>,
)
    requires
        header.len() == 12,
        data.len() < 4096,
    ensures
        packet_of(header + payload_of(command, data) + rest) == Some(
            PacketView { header: header_of(header), command, data },
        ),
{
    let payload = payload_of(command, data);
    let message = header + payload + rest;
    let bare = seq![command, 0u8, 0u8] + data;
    law_length_field(bare);
    assert(message.skip(12) =~= payload + rest);
    assert(message.subrange(15, (15 + data.len()) as int) =~= data) by {
        assert forall|i: int| 0 <= i < data.len() implies #[trigger] message[15 + i]
            == data[i] by {
            assert(payload[3 + i] == bare[3 + i]);
        }
    }
    assert(message[12] == payload[0]);
    assert(payload[0] == bare[0]);
    assert(header_of(message) == header_of(header));
}

/// Payloads of 3 to 477 bytes can be sent, and no others.
pub proof fn law_sendable(payload: Seq<u8>)
    ensures
        sendable(payload) <==> 3 <= payload.len() <= 477,
{
}

/// The frame for a section arrives as that section: whoever has the key reads
/// its number, its fields, its first byte as the command and its data.
pub proof fn law_section_arrives(
    frame: Seq<u8>,
    key: Seq<u8>,
    msg_id: u16,
    command: CommandView,
    section: Seq<u8>,
)
    requires
        sendable(section),
        command.payload == with_announced_len(section),
        carries(frame, key, msg_id, command),
    ensures
        packet_received(frame, key) == Ok::<PacketView, ErrorView>(
            PacketView {
                header: Header525 {
                    msg_id,
                    sid: command.sid,
                    caid: command.caid,
                    provider: command.provider % 0x1000000,
                    flags: 0,
                },
                command: section[0],
                data: section.skip(3),
            },
        ),
{
    law_length_field(section);
    law_sendable(section);
    assert(command.payload.skip(3) =~= section.skip(3)) by {
        assert forall|i: int| 3 <= i < section.len() implies #[trigger] command.payload[i]
            == section[i] by {}
    }
}

/// The frame for a command and its data arrives as that command with that data.
pub proof fn law_command_arrives(
    frame: Seq<u8>,
    key: Seq<u8>,
    msg_id: u16,
    command: CommandView,
    tag: u8,
    data: Seq<u8>,
)
    requires
        data.len() <= 474,
        command.payload == payload_of(tag, data),
        carries(frame, key, msg_id, command),
    ensures
        packet_received(frame, key) == Ok::<PacketView, ErrorView>(
            PacketView {
                header: Header525 {
                    msg_id,
                    sid: command.sid,
                    caid: command.caid,
                    provider: command.provider % 0x1000000,
                    flags: 0,
                },
                command: tag,
                data,
            },
        ),
{
    let section = seq![tag, 0u8, 0u8] + data;
    assert(section.len() == 3 + data.len());
    assert(sendable(section)) by {
        law_sendable(section);
    }
    assert(command.payload == with_announced_len(section));
    law_section_arrives(frame, key, msg_id, command, section);
    assert(section.skip(3) =~= data);
}

/// What the client requests is what the server reads: the section that was
/// asked about, ECM or EMM, under the message's number, with the session's CAID
/// and provider where the request has none.
pub proof fn law_request_arrives(
    client: ClientView,
    sid: u16,
    caid: u16,
    provider: u32,
    section: Seq<u8>,
    before: ConnectionView,
    frame: Vec<u8>,
    after: ConnectionView,
)
    requires
        ({
            let command = command_for(client, sid, caid, provider, section);
            ecm_sent(before, command, Ok(frame), after) || message_sent(
                before,
                command,
                Ok(frame),
                after,
            )
        }),
    ensures
        packet_received(frame@, before.session_key) == Ok::<PacketView, ErrorView>(
            PacketView {
                header: Header525 {
                    msg_id: after.msg_id,
                    sid,
                    caid: if caid == 0 {
                        client.caid
                    } else {
                        caid
                    },
                    provider: (if provider == 0 {
                        client.default_provider
                    } else {
                        provider
                    }) % 0x1000000,
                    flags: 0,
                },
                command: section[0],
                data: section.skip(3),
            },
        ),
{
    let command = command_for(client, sid, caid, provider, section);
    assert(command.payload.len() == section.len());
    law_section_arrives(frame@, before.session_key, after.msg_id, command, section);
}

/// The login that a client sends is what the server reads: the name of the user
/// and the hashed password, each ended by a zero byte.
pub proof fn law_login_arrives(
    username: Seq<char>,
    password_crypt: Seq<char>,
    key: Seq<u8>,
    frame: Seq<u8>,
)
    requires
        sendable(login_payload_of(username, password_crypt)),
        carries(frame, key, 0, login_command(login_payload_of(username, password_crypt))),
    ensures
        packet_received(frame, key) == Ok::<PacketView, ErrorView>(
            PacketView {
                header: Header525 { msg_id: 0, sid: 0, caid: 0, provider: 0, flags: 0 },
                command: msg::MSG_CLIENT_2_SERVER_LOGIN,
                data: encode_utf8(username) + seq![0u8] + encode_utf8(password_crypt) + seq![0u8],
            },
        ),
{
    let data = encode_utf8(username) + seq![0u8] + encode_utf8(password_crypt) + seq![0u8];
    let payload = login_payload_of(username, password_crypt);
    law_length_field(seq![msg::MSG_CLIENT_2_SERVER_LOGIN, 0u8, 0u8] + data);
    assert(payload.len() == 3 + data.len());
    assert(data.len() <= 474) by {
        law_sendable(payload);
    }
    law_command_arrives(
        frame,
        key,
        0,
        login_command(payload),
        msg::MSG_CLIENT_2_SERVER_LOGIN,
        data,
    );
}

/// Whether two states of a connection belong to one session: key, card and time
/// limit are the same.
pub open spec fn same_session(before: ConnectionView, after: ConnectionView) -> bool {
    &&& after.session_key == before.session_key
    &&& after.card_data == before.card_data
    &&& after.read_timeout == before.read_timeout
}

/// A session keeps its key, its card and its time limit, whatever is sent.
pub proof fn law_session_survives_sending(
    before: ConnectionView,
    command: CommandView,
    r: Result<Vec<u8>, NewcamdError>,
    after: ConnectionView,
)
    requires
        ecm_sent(before, command, r, after) || message_sent(before, command, r, after),
    ensures
        same_session(before, after),
{
}

/// A session keeps its key, its card and its time limit, whatever arrives.
pub proof fn law_session_survives_packets(
    before: ConnectionView,
    packet: PacketView,
    r: Result<ConnectionAction, NewcamdError>,
    after: ConnectionView,
)
    requires
        packet_handled(before, packet, r, after),
    ensures
        same_session(before, after),
{
}

/// Message numbers count up and start over after 65535. No two messages in a
/// row have the same number.
pub proof fn law_message_numbers(counter: u16)
    ensures
        next_msg_id(counter) == (counter + 1) % 65536,
        next_msg_id(counter) != counter,
{
}

/// While one ECM request waits for its answer no other one is sent, and the
/// attempt changes nothing.
pub proof fn law_one_request_at_a_time(
    before: ConnectionView,
    first: CommandView,
    frame: Vec<u8>,
    between: ConnectionView,
    second: CommandView,
    r: Result<Vec<u8>, NewcamdError>,
    after: ConnectionView,
)
    requires
        ecm_sent(before, first, Ok(frame), between),
        ecm_sent(between, second, r, after),
    ensures
        r is Err,
        after == between,
{
}

/// The answer to an ECM request is found by its number, or by the table_id of
/// an ECM, and then handed on. After that the next request can be sent.
pub proof fn law_request_is_answered(
    before: ConnectionView,
    request: CommandView,
    frame: Vec<u8>,
    between: ConnectionView,
    packet: PacketView,
    r: Result<ConnectionAction, NewcamdError>,
    after: ConnectionView,
)
    requires
        ecm_sent(before, request, Ok(frame), between),
        packet_handled(between, packet, r, after),
        packet.header.msg_id == between.msg_id || packet.command == 0x80 || packet.command
            == 0x81,
        packet.command != msg::MSG_KEEPALIVE,
        !(msg::EMM_TABLE_ID_FIRST <= packet.command <= msg::EMM_TABLE_ID_LAST),
    ensures
        match ecm_response_of(packet) {
            Ok(expected) => r matches Ok(ConnectionAction::Deliver(response)) && response@
                == expected,
            Err(expected) => r matches Err(err) && err@ == expected,
        },
        after.pending_ecm is None,
        forall|next: CommandView, sent: Result<Vec<u8>, NewcamdError>, later: ConnectionView|
            #[trigger] ecm_sent(after, next, sent, later) ==> (sent is Ok <==> sendable(
                next.payload,
            )),
{
}

/// Keepalives and EMMs from the server leave a waiting ECM request alone, and
/// never end a session.
pub proof fn law_request_keeps_waiting(
    before: ConnectionView,
    packet: PacketView,
    r: Result<ConnectionAction, NewcamdError>,
    after: ConnectionView,
)
    requires
        packet_handled(before, packet, r, after),
        packet.command == msg::MSG_KEEPALIVE || msg::EMM_TABLE_ID_FIRST <= packet.command
            <= msg::EMM_TABLE_ID_LAST,
    ensures
        r is Ok,
        after.pending_ecm == before.pending_ecm,
{
}

/// Nothing is handed on while no ECM request waits.
pub proof fn law_no_answer_without_request(
    before: ConnectionView,
    packet: PacketView,
    r: Result<ConnectionAction, NewcamdError>,
    after: ConnectionView,
)
    requires
        packet_handled(before, packet, r, after),
        before.pending_ecm is None,
    ensures
        !(r matches Ok(ConnectionAction::Deliver(_))),
        after.pending_ecm is None,
{
}

/// A keepalive comes back to the server as a keepalive without data, with the
/// next number and with the fields that the server gave it.
pub proof fn law_keepalive_is_returned(
    before: ConnectionView,
    packet: PacketView,
    frame: Vec<u8>,
    after: ConnectionView,
)
    requires
        packet.command == msg::MSG_KEEPALIVE,
        packet_handled(before, packet, Ok(ConnectionAction::Send(frame)), after),
    ensures
        packet_received(frame@, before.session_key) == Ok::<PacketView, ErrorView>(
            PacketView {
                header: Header525 {
                    msg_id: next_msg_id(before.msg_id),
                    sid: packet.header.sid,
                    caid: packet.header.caid,
                    provider: packet.header.provider % 0x1000000,
                    flags: 0,
                },
                command: msg::MSG_KEEPALIVE,
                data: Seq::empty(),
            },
        ),
{
    let answer = keepalive_answer(packet);
    law_length_field(seq![msg::MSG_KEEPALIVE, 0u8, 0u8] + Seq::<u8>::empty());
    assert(answer.payload.len() == 3);
    law_command_arrives(
        frame@,
        before.session_key,
        next_msg_id(before.msg_id),
        answer,
        msg::MSG_KEEPALIVE,
        Seq::empty(),
    );
}

/// What the connection hands on for an answer to an ECM request holds the
/// sixteen bytes that the answer starts with, each as it is. An empty answer
/// means that nothing was found, and a shorter one ends the session.
pub proof fn law_control_words_are_delivered(
    before: ConnectionView,
    packet: PacketView,
    r: Result<ConnectionAction, NewcamdError>,
    after: ConnectionView,
)
    requires
        packet_handled(before, packet, r, after),
        before.pending_ecm is Some,
        before.pending_ecm == Some(packet.header.msg_id) || packet.command == 0x80
            || packet.command == 0x81,
        packet.command != 0xFD,
        packet.command < 0x82 || packet.command > 0x8F,
    ensures
        packet.data.len() >= 16 ==> (r matches Ok(ConnectionAction::Deliver(response))
            && response.found && response.cw@.len() == 16 && response.packet@ == packet
            && forall|i: int| 0 <= i < 16 ==> #[trigger] response.cw@[i] == packet.data[i]),
        packet.data.len() == 0 ==> (r matches Ok(ConnectionAction::Deliver(response))
            && !response.found && response.cw@.len() == 16 && response.packet@ == packet
            && forall|i: int| 0 <= i < 16 ==> #[trigger] response.cw@[i] == 0),
        0 < packet.data.len() < 16 ==> (r matches Err(err) && err@ == ErrorView::Protocol(
            "ECM response payload is shorter than 16-byte CW"@,
        )),
        after.pending_ecm is None,
        after.msg_id == before.msg_id,
        same_session(before, after),
{
}

/// Packets with the table_id of an EMM, 0x82 to 0x8F, are passed over, and
/// nothing changes.
pub proof fn law_emms_are_passed_over(
    before: ConnectionView,
    packet: PacketView,
    r: Result<ConnectionAction, NewcamdError>,
    after: ConnectionView,
)
    requires
        packet_handled(before, packet, r, after),
        0x82 <= packet.command <= 0x8F,
    ensures
        r matches Ok(ConnectionAction::Nothing),
        after == before,
{
}

/// A packet that is neither a keepalive nor an EMM ends the session if no ECM
/// request waits, or if it has neither the number of the one that waits nor the
/// table_id of an ECM.
pub proof fn law_unexpected_packets_are_refused(
    before: ConnectionView,
    packet: PacketView,
    r: Result<ConnectionAction, NewcamdError>,
    after: ConnectionView,
)
    requires
        packet_handled(before, packet, r, after),
        packet.command != 0xFD,
        packet.command < 0x82 || packet.command > 0x8F,
        before.pending_ecm is None || (before.pending_ecm != Some(packet.header.msg_id)
            && packet.command != 0x80 && packet.command != 0x81),
    ensures
        r matches Err(err) && err@ == ErrorView::Protocol("unexpected packet from server"@),
        after == before,
{
}

/// A keepalive is answered with a frame, and uses up one message number. A
/// waiting ECM request keeps waiting.
pub proof fn law_keepalive_is_answered(
    before: ConnectionView,
    packet: PacketView,
    r: Result<ConnectionAction, NewcamdError>,
    after: ConnectionView,
)
    requires
        packet_handled(before, packet, r, after),
        packet.command == 0xFD,
    ensures
        r matches Ok(ConnectionAction::Send(_)),
        after.msg_id == (before.msg_id + 1) % 65536,
        after.pending_ecm == before.pending_ecm,
        same_session(before, after),
{
    let answer = keepalive_answer(packet);
    law_length_field(seq![msg::MSG_KEEPALIVE, 0u8, 0u8] + Seq::<u8>::empty());
    assert(answer.payload.len() == 3);
}

/// The command for a request has the service of the request, its CAID and its
/// provider, or those of the session where they are zero, and its section with
/// the length field set right.
pub proof fn law_command_of_a_request(
    client: ClientView,
    sid: u16,
    caid: u16,
    provider: u32,
    section: Seq<u8>,
)
    requires
        section.len() >= 3,
    ensures
        ({
            let command = command_for(client, sid, caid, provider, section);
            &&& command.sid == sid
            &&& caid != 0 ==> command.caid == caid
            &&& caid == 0 ==> command.caid == client.caid
            &&& provider != 0 ==> command.provider == provider
            &&& provider == 0 ==> command.provider == client.default_provider
            &&& command.payload.len() == section.len()
            &&& command.payload[0] == section[0]
            &&& command.payload[1] / 16 == section[1] / 16
            &&& (command.payload[1] % 16) * 256 + command.payload[2] == (section.len() - 3) % 4096
            &&& forall|i: int|
                3 <= i < section.len() ==> #[trigger] command.payload[i] == section[i]
        }),
{
    law_length_field(section);
}

/// A message is sent exactly if its payload has 3 to 477 bytes. One that is too
/// large uses up a number, one without a length field does not.
pub proof fn law_what_is_sent(
    before: ConnectionView,
    command: CommandView,
    r: Result<Vec<u8>, NewcamdError>,
    after: ConnectionView,
)
    requires
        message_sent(before, command, r, after),
    ensures
        r is Ok <==> 3 <= command.payload.len() <= 477,
        command.payload.len() < 3 ==> (r matches Err(err) && err@ == ErrorView::Protocol(
            "payload must be at least 3 bytes"@,
        )) && after == before,
        command.payload.len() > 477 ==> (r matches Err(err) && err@ == ErrorView::Protocol(
            "packet too large"@,
        )),
        command.payload.len() >= 3 ==> after.msg_id == (before.msg_id + 1) % 65536,
        after.pending_ecm == before.pending_ecm,
        same_session(before, after),
{
    law_sendable(command.payload);
}

/// An ECM request is sent exactly if no other one waits and its payload has 3 to
/// 477 bytes. From then on it waits under its number.
pub proof fn law_what_ecm_is_sent(
    before: ConnectionView,
    command: CommandView,
    r: Result<Vec<u8>, NewcamdError>,
    after: ConnectionView,
)
    requires
        ecm_sent(before, command, r, after),
    ensures
        r is Ok <==> before.pending_ecm is None && 3 <= command.payload.len() <= 477,
        before.pending_ecm is Some ==> (r matches Err(err) && err@ == ErrorView::Protocol(
            "received a new ECM while another is pending"@,
        )) && after == before,
        r is Ok ==> after.msg_id == (before.msg_id + 1) % 65536 && after.pending_ecm == Some(
            after.msg_id,
        ),
        r is Err ==> after.pending_ecm == before.pending_ecm,
        same_session(before, after),
{
    law_sendable(command.payload);
}

/// The request for the data of the card is what the server reads: a message that
/// concerns no service and has no data.
pub proof fn law_card_request_arrives(key: Seq<u8>, frame: Seq<u8>, msg_id: u16)
    requires
        carries(
            frame,
            key,
            msg_id,
            login_command(payload_of(msg::MSG_CARD_DATA_REQ, Seq::empty())),
        ),
    ensures
        packet_received(frame, key) == Ok::<PacketView, ErrorView>(
            PacketView {
                header: Header525 { msg_id, sid: 0, caid: 0, provider: 0, flags: 0 },
                command: 0xE3,
                data: Seq::empty(),
            },
        ),
{
    law_command_arrives(
        frame,
        key,
        msg_id,
        login_command(payload_of(msg::MSG_CARD_DATA_REQ, Seq::empty())),
        msg::MSG_CARD_DATA_REQ,
        Seq::empty(),
    );
}

} // verus!
