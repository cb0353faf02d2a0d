//! The layout of decrypted newcamd 525 messages.

use vstd::prelude::*;
use vstd::slice::slice_subrange;
use vstd::slice::slice_to_vec;

pub mod msg;

verus! {

/// Size of the largest message on the wire, its two length bytes counted.
pub const CWS_NETMSGSIZE: usize = 500;

/// Number of random bytes that a server greets with.
pub const LOGIN_INIT_SEQ_LEN: usize = 14;

/// Size of the header in front of a payload, the two length bytes counted.
pub const HEADER_SIZE_525: usize = 12;

/// The fields of a message header.
#[derive(Debug, Clone, Copy)]
pub struct Header525 {
    pub msg_id: u16,
    pub sid: u16,
    pub caid: u16,
    pub provider: u32,
    pub flags: u8,
}

/// A message from the server: its header, its command and the data behind it.
#[derive(Debug, Clone)]
pub struct NewcamdPacket {
    pub header: Header525,
    pub command: u8,
    pub data: Vec<u8>,
}

/// A `NewcamdPacket` with its data as a sequence.
pub struct PacketView {
    pub header: Header525,
    pub command: u8,
    pub data: Seq<u8>,
}

impl View for NewcamdPacket {
    type V = PacketView;

    open spec fn view(&self) -> PacketView {
        PacketView { header: self.header, command: self.command, data: self.data@ }
    }
}

/// The length of the data that a payload announces: 12 bits in its second and
/// third byte.
pub open spec fn announced_len(payload: Seq<u8>) -> int {
    (payload[1] % 16) * 256 + payload[2]
}

/// `payload` with the 12 bits of its length field set to the length of what
/// follows them. The upper four bits of the second byte stay.
pub open spec fn with_announced_len(payload: Seq<u8>) -> Seq<u8> {
    if payload.len() < 3 {
        payload
    } else {
        let body_len = payload.len() - 3;
        payload.update(1, (payload[1] / 16 * 16 + body_len / 256 % 16) as u8).update(
            2,
            (body_len % 256) as u8,
        )
    }
}

/// A command, its length field and its data.
pub open spec fn payload_of(command: u8, data: Seq<u8>) -> Seq<u8> {
    with_announced_len(seq![command, 0u8, 0u8] + data)
}

/// The number that two bytes stand for, the first byte first.
pub open spec fn be16(hi: u8, lo: u8) -> u16 {
    (hi * 256 + lo) as u16
}

/// The header in the first bytes of a decrypted message.
pub open spec fn header_of(message: Seq<u8>) -> Header525 {
    Header525 {
        msg_id: be16(message[2], message[3]),
        sid: be16(message[4], message[5]),
        caid: be16(message[6], message[7]),
        provider: (message[8] * 65536 + message[9] * 256 + message[10]) as u32,
        flags: message[11],
    }
}

/// The packet in a decrypted message: none if the message ends before the
/// payload that its length field announces does.
pub open spec fn packet_of(message: Seq<u8>) -> Option<PacketView> {
    if message.len() < HEADER_SIZE_525 + 3 {
        None
    } else {
        let end = HEADER_SIZE_525 + 3 + announced_len(message.skip(HEADER_SIZE_525 as int));
        if end > message.len() {
            None
        } else {
            Some(
                PacketView {
                    header: header_of(message),
                    command: message[HEADER_SIZE_525 as int],
                    data: message.subrange(HEADER_SIZE_525 + 3, end),
                },
            )
        }
    }
}

/// The payload of a message with this command and this data.
pub fn encode_payload(command: u8, data: &[u8]) -> (payload: Vec<u8>)
    ensures
        payload@ == payload_of(command, data@),
{
    let mut payload: Vec<u8> = Vec::new();
    payload.push(command);
    payload.push(0);
    payload.push(0);
    payload.extend_from_slice(data);
    assert(payload@ == seq![command, 0u8, 0u8] + data@);
    patch_payload_len(&mut payload);
    payload
}

/// Writes the length of what follows the first three bytes into the length
/// field. A payload without such a field stays as it is.
pub fn patch_payload_len(payload: &mut [u8])
    ensures
        final(payload)@ == with_announced_len(old(payload)@),
{
    if payload.len() < 3 {
        return;
    }
    let body_len: usize = payload.len() - 3;
    payload[1] = payload[1] / 16 * 16 + (body_len / 256 % 16) as u8;
    payload[2] = (body_len % 256) as u8;
}

/// Reads the packet out of a decrypted message.
pub fn parse_decrypted_525(buffer: &[u8]) -> (r: Option<NewcamdPacket>)
    ensures
        r is Some <==> packet_of(buffer@) is Some,
        r matches Some(packet) ==> Some(packet@) == packet_of(buffer@),
{
    if buffer.len() < HEADER_SIZE_525 + 3 {
        return None;
    }
    let data_len: usize = (buffer[13] % 16) as usize * 256 + buffer[14] as usize;
    let end: usize = HEADER_SIZE_525 + 3 + data_len;
    if end > buffer.len() {
        return None;
    }
    let header = Header525 {
        msg_id: buffer[2] as u16 * 256 + buffer[3] as u16,
        sid: buffer[4] as u16 * 256 + buffer[5] as u16,
        caid: buffer[6] as u16 * 256 + buffer[7] as u16,
        provider: buffer[8] as u32 * 65536 + buffer[9] as u32 * 256 + buffer[10] as u32,
        flags: buffer[11],
    };
    let data = slice_to_vec(slice_subrange(buffer, HEADER_SIZE_525 + 3, end));
    Some(NewcamdPacket { header, command: buffer[HEADER_SIZE_525], data })
}

/// Two bytes stand for a number of sixteen bits, the first byte uppermost.
pub proof fn law_two_bytes(hi: u8, lo: u8)
    ensures
        be16(hi, lo) == 256 * hi + lo,
        be16(hi, lo) / 256 == hi,
        be16(hi, lo) % 256 == lo,
{
}

/// A payload is its command, the length of its data in 12 bits with zeros above
/// them, and the data as it is.
pub proof fn law_payload(command: u8, data: Seq<u8>)
    ensures
        ({
            let payload = payload_of(command, data);
            &&& payload.len() == 3 + data.len()
            &&& payload[0] == command
            &&& payload[1] / 16 == 0
            &&& (payload[1] % 16) * 256 + payload[2] == data.len() % 4096
            &&& forall|i: int| 0 <= i < data.len() ==> payload[3 + i] == #[trigger] data[i]
        }),
{
    let bare = seq![command, 0u8, 0u8] + data;
    assert(bare.len() == 3 + data.len());
    assert(bare[0] == command && bare[1] == 0 && bare[2] == 0);
    assert(payload_of(command, data)[1] == data.len() as int / 256 % 16);
    assert(payload_of(command, data)[2] == data.len() as int % 256);
}

/// A decrypted message holds a packet exactly if it has fifteen bytes and as many
/// more as the 12 bits of its length field say. Then its fields stand at fixed
/// places, upper bytes first.
pub proof fn law_packet(message: Seq<u8>)
    ensures
        ({
            let data_len = (message[13] % 16) * 256 + message[14];
            &&& packet_of(message) is Some <==> message.len() >= 15 && message.len() >= 15 + data_len
            &&& packet_of(message) matches Some(packet) ==> {
                &&& packet.header.msg_id == message[2] * 256 + message[3]
                &&& packet.header.sid == message[4] * 256 + message[5]
                &&& packet.header.caid == message[6] * 256 + message[7]
                &&& packet.header.provider == message[8] * 65536 + message[9] * 256 + message[10]
                &&& packet.header.flags == message[11]
                &&& packet.command == message[12]
                &&& packet.data.len() == data_len
                &&& forall|i: int| 0 <= i < data_len ==> #[trigger] packet.data[i] == message[15 + i]
            }
        }),
{
    if message.len() >= 15 {
        assert(message.skip(12)[1] == message[13] && message.skip(12)[2] == message[14]);
    }
}

} // verus!
