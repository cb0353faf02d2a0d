//! Messages as they stand on the wire.

use vstd::prelude::*;
use vstd::slice::slice_subrange;

use crate::crypto::{decrypt_message, encrypt_message, encrypt_message_with};
use crate::error::NewcamdError;
use crate::protocol::{
    parse_decrypted_525, Header525, NewcamdPacket, CWS_NETMSGSIZE, HEADER_SIZE_525,
};

verus! {

use crate::crypto::{
    decrypted_body, decrypted_message, decrypts, decrypts_to, encrypted_len, encrypted_message,
    is_encrypted_len, padding_len, too_large, xor_all,
};
use crate::error::{agrees, ErrorView};
use crate::protocol::{announced_len, be16, header_of, law_packet, packet_of, PacketView};

/// The lower sixteen bits of a number as two bytes, the upper byte first.
pub open spec fn be_bytes(n: int) -> Seq<u8> {
    seq![(n / 256 % 256) as u8, (n % 256) as u8]
}

/// What stands between the length and the payload of a message. Of the provider
/// the lower 24 bits are sent. The last byte, the flags, is zero.
pub open spec fn header_bytes(msg_id: u16, sid: u16, caid: u16, provider: u32) -> Seq<u8> {
    be_bytes(msg_id as int) + be_bytes(sid as int) + be_bytes(caid as int) + seq![
        (provider / 65536 % 256) as u8,
    ] + be_bytes(provider as int) + seq![0u8]
}

/// A message before it is encrypted.
pub open spec fn plain_message(
    msg_id: u16,
    sid: u16,
    caid: u16,
    provider: u32,
    payload: Seq<u8>,
) -> Seq<u8> {
    be_bytes(HEADER_SIZE_525 - 2 + payload.len()) + header_bytes(msg_id, sid, caid, provider)
        + payload
}

/// `message` with its two length bytes set to the length of what follows them.
pub open spec fn with_wire_len(message: Seq<u8>) -> Seq<u8> {
    be_bytes(message.len() - 2) + message.skip(2)
}

/// Whether `frame` is the message with these fields and this payload, encrypted
/// under `key` with some padding and some initial vector.
pub open spec fn is_frame_of(
    frame: Seq<u8>,
    key: Seq<u8>,
    msg_id: u16,
    sid: u16,
    caid: u16,
    provider: u32,
    payload: Seq<u8>,
) -> bool {
    let plain = plain_message(msg_id, sid, caid, provider, payload);
    exists|padding: Seq<u8>, ivec: Seq<u8>|
        padding.len() == padding_len(plain.len() as int) && ivec.len() == 8 && frame
            == with_wire_len(#[trigger] encrypted_message(plain, key, padding, ivec))
}

/// The packet that a message with these fields and this payload arrives as.
pub open spec fn packet_sent(
    msg_id: u16,
    sid: u16,
    caid: u16,
    provider: u32,
    payload: Seq<u8>,
) -> PacketView {
    PacketView {
        header: Header525 { msg_id, sid, caid, provider: provider % 0x1000000, flags: 0 },
        command: payload[0],
        data: payload.skip(3),
    }
}

/// The packet in a message that was received under `key`, or why there is none.
pub open spec fn packet_received(message: Seq<u8>, key: Seq<u8>) -> Result<PacketView, ErrorView> {
    if !is_encrypted_len(message.len() as int) {
        Err(ErrorView::Protocol("invalid encrypted payload length"@))
    } else if xor_all(decrypted_body(message, key)) != 0 {
        Err(ErrorView::Crypto("checksum mismatch"@))
    } else {
        match packet_of(decrypted_message(message, key).take(message.len() - 8)) {
            Some(packet) => Ok(packet),
            None => Err(ErrorView::Protocol("failed to parse decrypted newcamd525 packet"@)),
        }
    }
}

/// What `frame` has to be: a message that announces its own length, is not
/// larger than a receiver takes, and decrypts to the header and the payload that
/// were sent. If the payload announces its own length, it arrives as the packet
/// that was sent.
pub open spec fn is_received_as_sent(
    frame: Seq<u8>,
    key: Seq<u8>,
    msg_id: u16,
    sid: u16,
    caid: u16,
    provider: u32,
    payload: Seq<u8>,
) -> bool {
    &&& 2 <= frame.len() <= CWS_NETMSGSIZE
    &&& be16(frame[0], frame[1]) == frame.len() - 2
    &&& frame.len() == encrypted_len((HEADER_SIZE_525 + payload.len()) as int)
    &&& decrypts(frame, key)
    &&& decrypted_message(frame, key).subrange(2, (HEADER_SIZE_525 + payload.len()) as int)
        == plain_message(msg_id, sid, caid, provider, payload).skip(2)
    &&& announced_len(payload) == payload.len() - 3 ==> packet_received(frame, key) == Ok::<
        PacketView,
        ErrorView,
    >(packet_sent(msg_id, sid, caid, provider, payload))
}

/// Whether a payload can be sent.
pub open spec fn sendable(payload: Seq<u8>) -> bool {
    payload.len() >= 3 && !too_large((HEADER_SIZE_525 + payload.len()) as int)
}

/// Why a payload cannot be sent.
pub open spec fn unsendable_error(payload: Seq<u8>) -> ErrorView {
    if payload.len() < 3 {
        ErrorView::Protocol("payload must be at least 3 bytes"@)
    } else {
        ErrorView::Protocol("packet too large"@)
    }
}

/// The message number that follows `counter`.
pub open spec fn next_msg_id(counter: u16) -> u16 {
    if counter == u16::MAX {
        0
    } else {
        (counter + 1) as u16
    }
}

proof fn lemma_plain_bytes(msg_id: u16, sid: u16, caid: u16, provider: u32, payload: Seq<u8>)
    ensures
        ({
            let plain = plain_message(msg_id, sid, caid, provider, payload);
            &&& plain.len() == 12 + payload.len()
            &&& plain[2] == msg_id / 256 && plain[3] == msg_id % 256
            &&& plain[4] == sid / 256 && plain[5] == sid % 256
            &&& plain[6] == caid / 256 && plain[7] == caid % 256
            &&& plain[8] == provider / 65536 % 256
            &&& plain[9] == provider / 256 % 256
            &&& plain[10] == provider % 256
            &&& plain[11] == 0
            &&& plain.skip(12) == payload
        }),
{
    let plain = plain_message(msg_id, sid, caid, provider, payload);
    let header = header_bytes(msg_id, sid, caid, provider);
    assert(header =~= seq![
        (msg_id / 256 % 256) as u8,
        (msg_id % 256) as u8,
        (sid / 256 % 256) as u8,
        (sid % 256) as u8,
        (caid / 256 % 256) as u8,
        (caid % 256) as u8,
        (provider / 65536 % 256) as u8,
        (provider / 256 % 256) as u8,
        (provider % 256) as u8,
        0u8,
    ]);
    assert(plain.subrange(2, 12) =~= header);
    assert(plain.skip(12) =~= payload);
}

proof fn lemma_be16(n: u16)
    ensures
        be16((n / 256) as u8, (n % 256) as u8) == n,
{
}

proof fn lemma_provider(n: u32)
    ensures
        (n / 65536 % 256) * 65536 + (n / 256 % 256) * 256 + n % 256 == n % 0x1000000,
{
    assert((n / 65536 % 256) * 65536 + (n / 256 % 256) * 256 + n % 256 == n % 0x1000000)
        by (bit_vector);
}

proof fn lemma_header_of_plain(
    opened: Seq<u8>,
    msg_id: u16,
    sid: u16,
    caid: u16,
    provider: u32,
    payload: Seq<u8>,
)
    requires
        opened.len() >= 12,
        forall|j: int|
            2 <= j < 12 ==> #[trigger] opened[j] == plain_message(
                msg_id,
                sid,
                caid,
                provider,
                payload,
            )[j],
    ensures
        header_of(opened) == packet_sent(msg_id, sid, caid, provider, payload).header,
{
    lemma_plain_bytes(msg_id, sid, caid, provider, payload);
    lemma_be16(msg_id);
    lemma_be16(sid);
    lemma_be16(caid);
    lemma_provider(provider);
    assert(opened[2] == msg_id / 256 && opened[3] == msg_id % 256);
    assert(opened[4] == sid / 256 && opened[5] == sid % 256);
    assert(opened[6] == caid / 256 && opened[7] == caid % 256);
    assert(opened[8] == provider / 65536 % 256);
    assert(opened[9] == provider / 256 % 256);
    assert(opened[10] == provider % 256);
}

proof fn lemma_packet_of_plain(
    opened: Seq<u8>,
    plain: Seq<u8>,
    payload: Seq<u8>,
)
    requires
        payload.len() >= 3,
        announced_len(payload) == payload.len() - 3,
        plain.len() == 12 + payload.len(),
        plain.skip(12) == payload,
        opened.len() >= plain.len(),
        forall|j: int| 2 <= j < plain.len() ==> #[trigger] opened[j] == plain[j],
    ensures
        packet_of(opened) == Some(
            PacketView {
                header: header_of(opened),
                command: payload[0],
                data: payload.skip(3),
            },
        ),
{
    assert forall|j: int| 0 <= j < payload.len() implies #[trigger] opened.skip(12)[j]
        == payload[j] by {
        assert(opened[12 + j] == plain[12 + j]);
        assert(plain.skip(12)[j] == payload[j]);
    }
    assert(opened[12] == opened.skip(12)[0]);
    let data = opened.subrange(15, (12 + payload.len()) as int);
    assert(data =~= payload.skip(3)) by {
        assert forall|j: int| 0 <= j < payload.len() - 3 implies #[trigger] data[j]
            == payload.skip(3)[j] by {
            assert(data[j] == opened.skip(12)[3 + j]);
        }
    }
}

proof fn lemma_sent_is_received(
    sealed: Seq<u8>,
    key: Seq<u8>,
    msg_id: u16,
    sid: u16,
    caid: u16,
    provider: u32,
    payload: Seq<u8>,
)
    requires
        payload.len() >= 3,
        sealed.len() <= CWS_NETMSGSIZE,
        sealed.len() == encrypted_len((HEADER_SIZE_525 + payload.len()) as int),
        decrypts_to(sealed, key, plain_message(msg_id, sid, caid, provider, payload)),
    ensures
        is_received_as_sent(with_wire_len(sealed), key, msg_id, sid, caid, provider, payload),
{
    let frame = with_wire_len(sealed);
    let plain = plain_message(msg_id, sid, caid, provider, payload);
    let data_len = sealed.len() - 8;
    lemma_plain_bytes(msg_id, sid, caid, provider, payload);
    assert(frame.skip(data_len) =~= sealed.skip(data_len));
    assert(frame.subrange(2, data_len) =~= sealed.subrange(2, data_len));
    let opened = decrypted_message(frame, key).take(data_len);
    assert forall|j: int| 2 <= j < plain.len() implies #[trigger] opened[j] == plain[j] by {
        assert(decrypted_message(sealed, key).take(plain.len() as int)[j] == plain[j]);
    }
    let read = decrypted_message(frame, key).subrange(2, plain.len() as int);
    assert(read =~= plain.skip(2)) by {
        assert forall|j: int| 0 <= j < plain.len() - 2 implies #[trigger] read[j] == plain.skip(
            2,
        )[j] by {
            assert(opened[j + 2] == plain[j + 2]);
        }
    }
    if announced_len(payload) == payload.len() - 3 {
        lemma_header_of_plain(opened, msg_id, sid, caid, provider, payload);
        lemma_packet_of_plain(opened, plain, payload);
    }
}

/// The two bytes of `n`.
fn bytes_of(n: u16) -> (r: [u8; 2])
    ensures
        r@ == be_bytes(n as int),
{
    let r = [(n / 256) as u8, (n % 256) as u8];
    assert(r@ =~= be_bytes(n as int));
    r
}

/// A message before it is encrypted.
pub fn encode_plain_message(
    payload: &[u8],
    msg_id: u16,
    sid: u16,
    caid: u16,
    provider: u32,
) -> (r: Vec<u8>)
    requires
        payload@.len() < CWS_NETMSGSIZE,
    ensures
        r@ == plain_message(msg_id, sid, caid, provider, payload@),
        r@.len() == HEADER_SIZE_525 + payload@.len(),
{
    let mut message: Vec<u8> = Vec::new();
    message.extend_from_slice(&bytes_of((HEADER_SIZE_525 - 2 + payload.len()) as u16));
    message.extend_from_slice(&bytes_of(msg_id));
    message.extend_from_slice(&bytes_of(sid));
    message.extend_from_slice(&bytes_of(caid));
    message.push((provider / 65536 % 256) as u8);
    message.push((provider / 256 % 256) as u8);
    message.push((provider % 256) as u8);
    message.push(0);
    message.extend_from_slice(payload);
    assert(message@ =~= plain_message(msg_id, sid, caid, provider, payload@));
    message
}

/// Sets the two length bytes of an encrypted message.
fn set_wire_len(message: &mut Vec<u8>)
    requires
        2 <= old(message)@.len() <= CWS_NETMSGSIZE,
    ensures
        final(message)@ == with_wire_len(old(message)@),
{
    let ghost before = message@;
    let bytes = bytes_of((message.len() - 2) as u16);
    message[0] = bytes[0];
    message[1] = bytes[1];
    assert(message@ =~= with_wire_len(before));
}

/// The frame of a message, encrypted with random padding and a random initial
/// vector.
pub fn encode_network_message(
    des_key: &[u8; 16],
    payload: &[u8],
    msg_id: u16,
    sid: u16,
    caid: u16,
    provider: u32,
) -> (r: Result<Vec<u8>, NewcamdError>)
    ensures
        r is Ok <==> sendable(payload@),
        r matches Err(err) ==> err@ == unsendable_error(payload@),
        r matches Ok(frame) ==> is_frame_of(
            frame@,
            des_key@,
            msg_id,
            sid,
            caid,
            provider,
            payload@,
        ) && is_received_as_sent(frame@, des_key@, msg_id, sid, caid, provider, payload@),
{
    if payload.len() < 3 {
        return Err(NewcamdError::Protocol("payload must be at least 3 bytes"));
    }
    if payload.len() >= CWS_NETMSGSIZE {
        return Err(NewcamdError::Protocol("packet too large"));
    }
    let mut message = encode_plain_message(payload, msg_id, sid, caid, provider);
    match encrypt_message(&mut message, des_key) {
        Err(err) => Err(err),
        Ok(()) => {
            proof {
                lemma_sent_is_received(message@, des_key@, msg_id, sid, caid, provider, payload@);
            }
            set_wire_len(&mut message);
            Ok(message)
        },
    }
}

/// The frame of a message, encrypted with this padding and this initial vector.
pub fn encode_network_message_with(
    des_key: &[u8; 16],
    payload: &[u8],
    msg_id: u16,
    sid: u16,
    caid: u16,
    provider: u32,
    padding: &[u8],
    ivec: &[u8; 8],
) -> (r: Result<Vec<u8>, NewcamdError>)
    requires
        padding@.len() == padding_len((HEADER_SIZE_525 + payload@.len()) as int),
    ensures
        r is Ok <==> sendable(payload@),
        r matches Err(err) ==> err@ == unsendable_error(payload@),
        r matches Ok(frame) ==> frame@ == with_wire_len(
            encrypted_message(
                plain_message(msg_id, sid, caid, provider, payload@),
                des_key@,
                padding@,
                ivec@,
            ),
        ) && is_received_as_sent(frame@, des_key@, msg_id, sid, caid, provider, payload@),
{
    if payload.len() < 3 {
        return Err(NewcamdError::Protocol("payload must be at least 3 bytes"));
    }
    if payload.len() >= CWS_NETMSGSIZE {
        return Err(NewcamdError::Protocol("packet too large"));
    }
    let mut message = encode_plain_message(payload, msg_id, sid, caid, provider);
    match encrypt_message_with(&mut message, des_key, padding, ivec) {
        Err(err) => Err(err),
        Ok(()) => {
            proof {
                lemma_sent_is_received(message@, des_key@, msg_id, sid, caid, provider, payload@);
            }
            set_wire_len(&mut message);
            Ok(message)
        },
    }
}

/// The frame of the message that follows the one numbered `msg_id`. The number
/// is used up even if the message turns out to be too large.
pub fn encode_next_message(
    msg_id: &mut u16,
    des_key: &[u8; 16],
    payload: &[u8],
    sid: u16,
    caid: u16,
    provider: u32,
) -> (r: Result<Vec<u8>, NewcamdError>)
    ensures
        r is Ok <==> sendable(payload@),
        r matches Err(err) ==> err@ == unsendable_error(payload@),
        *final(msg_id) == if payload@.len() < 3 {
            *old(msg_id)
        } else {
            next_msg_id(*old(msg_id))
        },
        r matches Ok(frame) ==> is_frame_of(
            frame@,
            des_key@,
            *final(msg_id),
            sid,
            caid,
            provider,
            payload@,
        ) && is_received_as_sent(
            frame@,
            des_key@,
            *final(msg_id),
            sid,
            caid,
            provider,
            payload@,
        ),
{
    if payload.len() < 3 {
        return Err(NewcamdError::Protocol("payload must be at least 3 bytes"));
    }
    *msg_id = msg_id.wrapping_add(1);
    encode_network_message(des_key, payload, *msg_id, sid, caid, provider)
}

/// How many bytes follow the two length bytes of a frame.
pub fn frame_body_len(len_bytes: &[u8; 2]) -> (r: Result<usize, NewcamdError>)
    ensures
        r is Ok <==> be16(len_bytes@[0], len_bytes@[1]) + 2 <= CWS_NETMSGSIZE,
        r matches Ok(len) ==> len == be16(len_bytes@[0], len_bytes@[1]),
        r matches Err(err) ==> err@ == ErrorView::Protocol(
            "received frame is larger than CWS_NETMSGSIZE"@,
        ),
{
    let len: usize = len_bytes[0] as usize * 256 + len_bytes[1] as usize;
    if len + 2 > CWS_NETMSGSIZE {
        return Err(NewcamdError::Protocol("received frame is larger than CWS_NETMSGSIZE"));
    }
    Ok(len)
}

/// The packet in a frame, of which the two length bytes and the rest were
/// received under `des_key`.
pub fn decode_network_message(
    len_bytes: &[u8; 2],
    body: &[u8],
    des_key: &[u8; 16],
) -> (r: Result<NewcamdPacket, NewcamdError>)
    ensures
        agrees(r, packet_received(len_bytes@ + body@, des_key@)),
{
    let mut message: Vec<u8> = Vec::new();
    message.extend_from_slice(len_bytes);
    message.extend_from_slice(body);
    assert(message@ =~= len_bytes@ + body@);
    match decrypt_message(&mut message, des_key) {
        Err(err) => Err(err),
        Ok(plain_len) => {
            let plain = slice_subrange(message.as_slice(), 0, plain_len);
            match parse_decrypted_525(plain) {
                Some(packet) => Ok(packet),
                None => Err(NewcamdError::Protocol("failed to parse decrypted newcamd525 packet")),
            }
        },
    }
}

/// Every frame is made of whole blocks behind its two length bytes and fits a
/// receiver. Decrypted, it holds the number, the service, the CAID and the lower
/// 24 bits of the provider, upper bytes first, flags of zero, and then the
/// payload as it is.
pub proof fn law_frame_holds_its_message(
    frame: Seq<u8>,
    key: Seq<u8>,
    msg_id: u16,
    sid: u16,
    caid: u16,
    provider: u32,
    payload: Seq<u8>,
)
    requires
        sendable(payload),
        is_received_as_sent(frame, key, msg_id, sid, caid, provider, payload),
    ensures
        ({
            let opened = decrypted_message(frame, key);
            &&& frame.len() % 8 == 2
            &&& 26 <= frame.len() <= 498
            &&& be16(frame[0], frame[1]) == frame.len() - 2
            &&& decrypts(frame, key)
            &&& opened[2] == msg_id / 256 && opened[3] == msg_id % 256
            &&& opened[4] == sid / 256 && opened[5] == sid % 256
            &&& opened[6] == caid / 256 && opened[7] == caid % 256
            &&& opened[8] == provider / 65536 % 256
            &&& opened[9] == provider / 256 % 256
            &&& opened[10] == provider % 256
            &&& opened[11] == 0
            &&& opened.subrange(12, (12 + payload.len()) as int) == payload
        }),
{
    let opened = decrypted_message(frame, key);
    let plain = plain_message(msg_id, sid, caid, provider, payload);
    let read = opened.subrange(2, (12 + payload.len()) as int);
    lemma_plain_bytes(msg_id, sid, caid, provider, payload);
    assert forall|j: int| 2 <= j < 12 + payload.len() implies #[trigger] opened[j]
        == plain[j] by {
        assert(read[j - 2] == plain.skip(2)[j - 2]);
    }
    assert(opened.subrange(12, (12 + payload.len()) as int) =~= payload) by {
        assert forall|j: int| 0 <= j < payload.len() implies #[trigger] opened[12 + j]
            == payload[j] by {
            assert(plain.skip(12)[j] == payload[j]);
        }
    }
}

/// What is received is refused exactly if it has no whole blocks, if the
/// exclusive or of what was encrypted is not zero, or if it ends before its
/// payload does. Else it is read from fixed places of the decrypted message.
pub proof fn law_what_is_received(message: Seq<u8>, key: Seq<u8>)
    ensures
        ({
            let r = packet_received(message, key);
            let opened = decrypted_message(message, key);
            let end = message.len() - 8;
            let data_len = (opened[13] % 16) * 256 + opened[14];
            if message.len() < 18 || message.len() % 8 != 2 {
                r == Err::<PacketView, ErrorView>(
                    ErrorView::Protocol("invalid encrypted payload length"@),
                )
            } else if xor_all(opened.subrange(2, end)) != 0 {
                r == Err::<PacketView, ErrorView>(ErrorView::Crypto("checksum mismatch"@))
            } else if end < 15 || end < 15 + data_len {
                r == Err::<PacketView, ErrorView>(
                    ErrorView::Protocol("failed to parse decrypted newcamd525 packet"@),
                )
            } else {
                r matches Ok(packet) && {
                    &&& packet.header.msg_id == opened[2] * 256 + opened[3]
                    &&& packet.header.sid == opened[4] * 256 + opened[5]
                    &&& packet.header.caid == opened[6] * 256 + opened[7]
                    &&& packet.header.provider == opened[8] * 65536 + opened[9] * 256 + opened[10]
                    &&& packet.header.flags == opened[11]
                    &&& packet.command == opened[12]
                    &&& packet.data.len() == data_len
                    &&& forall|i: int|
                        0 <= i < data_len ==> #[trigger] packet.data[i] == opened[15 + i]
                }
            }
        }),
{
    let opened = decrypted_message(message, key);
    let end = message.len() - 8;
    if message.len() >= 18 && message.len() % 8 == 2 {
        assert(opened.subrange(2, end) =~= decrypted_body(message, key));
        let read = opened.take(end);
        law_packet(read);
        if let Some(packet) = packet_of(read) {
            assert forall|i: int| 0 <= i < packet.data.len() implies #[trigger] packet.data[i]
                == opened[15 + i] by {
                assert(packet.data[i] == read[15 + i]);
            }
        }
    }
}

/// A message before it is encrypted starts with the length of what follows, then
/// its number, the service, the CAID, the lower 24 bits of the provider, all with
/// upper bytes first, and a zero. The payload follows as it is.
pub proof fn law_plain_message(
    msg_id: u16,
    sid: u16,
    caid: u16,
    provider: u32,
    payload: Seq<u8>,
)
    requires
        payload.len() < 65536 - 10,
    ensures
        ({
            let plain = plain_message(msg_id, sid, caid, provider, payload);
            &&& plain.len() == 12 + payload.len()
            &&& plain[0] * 256 + plain[1] == 10 + payload.len()
            &&& plain[2] * 256 + plain[3] == msg_id
            &&& plain[4] * 256 + plain[5] == sid
            &&& plain[6] * 256 + plain[7] == caid
            &&& plain[8] * 65536 + plain[9] * 256 + plain[10] == provider % 0x1000000
            &&& plain[11] == 0
            &&& plain.skip(12) == payload
        }),
{
    let plain = plain_message(msg_id, sid, caid, provider, payload);
    let len = 10 + payload.len() as int;
    lemma_plain_bytes(msg_id, sid, caid, provider, payload);
    lemma_provider(provider);
    assert(plain[0] == len / 256 % 256);
    assert(plain[1] == len % 256);
}

/// Setting the length of a message changes its first two bytes alone.
pub proof fn law_wire_len(message: Seq<u8>)
    requires
        2 <= message.len() < 65538,
    ensures
        ({
            let sent = with_wire_len(message);
            &&& sent.len() == message.len()
            &&& sent[0] * 256 + sent[1] == message.len() - 2
            &&& sent.skip(2) == message.skip(2)
        }),
{
    assert(with_wire_len(message).skip(2) =~= message.skip(2));
}

} // verus!
