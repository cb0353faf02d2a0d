//! Encryption of messages: random padding, a checksum and an initial vector
//! around triple DES in cipher block chaining.

use rand::RngCore;
use vstd::prelude::*;
use vstd::slice::slice_subrange;

use crate::cipher::{block_at, cbc_decrypt, cbc_encrypt};
use crate::error::NewcamdError;
use crate::protocol::CWS_NETMSGSIZE;

verus! {

use crate::cipher::{
    cbc_decrypted, cbc_encrypted, des_decrypted, des_encrypted, law_cbc_decryption,
};
use crate::error::ErrorView;

/// A random number.
///
/// Trusted: `RngCore::next_u32` of `rand::thread_rng`. Nothing is claimed of
/// the number.
#[verifier::external_body]
fn random_u32() -> (r: u32) {
    rand::thread_rng().next_u32()
}

/// A block of random bytes.
///
/// Trusted: `RngCore::fill_bytes` of `rand::thread_rng`. Nothing is claimed of
/// the bytes.
#[verifier::external_body]
fn random_block() -> (r: [u8; 8]) {
    let mut block = [0u8; 8];
    rand::thread_rng().fill_bytes(&mut block);
    block
}

/// The bitwise exclusive or of all bytes.
pub open spec fn xor_all(bytes: Seq<u8>) -> u8
    decreases bytes.len(),
{
    if bytes.len() == 0 {
        0
    } else {
        xor_all(bytes.drop_last()) ^ bytes.last()
    }
}

/// How many bytes of padding a message of `len` bytes gets, so that what
/// follows the two length bytes fills whole blocks together with the checksum.
pub open spec fn padding_len(len: int) -> int {
    (8 - (len - 1) % 8) % 8
}

/// The length of a message of `len` bytes with its padding, its checksum and
/// its initial vector.
pub open spec fn encrypted_len(len: int) -> int {
    len + padding_len(len) + 1 + 8
}

/// Whether a message of `len` bytes is too large to be sent.
pub open spec fn too_large(len: int) -> bool {
    encrypted_len(len) >= CWS_NETMSGSIZE
}

/// What follows the two length bytes of a message before it is encrypted: the
/// rest of the message, the padding, and a checksum that makes the exclusive or
/// of all of it zero.
pub open spec fn checked_body(message: Seq<u8>, padding: Seq<u8>) -> Seq<u8> {
    let body = message.skip(2) + padding;
    body.push(xor_all(body))
}

/// An encrypted message: the two length bytes as they were, the encrypted body,
/// the initial vector.
pub open spec fn encrypted_message(
    message: Seq<u8>,
    key: Seq<u8>,
    padding: Seq<u8>,
    ivec: Seq<u8>,
) -> Seq<u8> {
    let body = checked_body(message, padding);
    message.take(2) + cbc_encrypted(key, ivec, body, (body.len() / 8) as nat) + ivec
}

/// Whether an encrypted message of `len` bytes is made of whole blocks, of
/// which there are two at least: one of data and the initial vector.
pub open spec fn is_encrypted_len(len: int) -> bool {
    (len - 2) % 8 == 0 && len - 2 >= 16
}

/// The body of an encrypted message, decrypted.
pub open spec fn decrypted_body(message: Seq<u8>, key: Seq<u8>) -> Seq<u8> {
    let data_len = message.len() - 8;
    cbc_decrypted(key, message.skip(data_len), message.subrange(2, data_len))
}

/// An encrypted message with its body decrypted in place.
pub open spec fn decrypted_message(message: Seq<u8>, key: Seq<u8>) -> Seq<u8> {
    message.take(2) + decrypted_body(message, key) + message.skip(message.len() - 8)
}

/// Whether decryption of a message succeeds.
pub open spec fn decrypts(message: Seq<u8>, key: Seq<u8>) -> bool {
    is_encrypted_len(message.len() as int) && xor_all(decrypted_body(message, key)) == 0
}

/// Whether decryption of `message` succeeds and gives a message that starts
/// with `plain`. Padding, checksum and initial vector may follow.
pub open spec fn decrypts_to(message: Seq<u8>, key: Seq<u8>, plain: Seq<u8>) -> bool {
    &&& decrypts(message, key)
    &&& plain.len() <= message.len() - 8
    &&& decrypted_message(message, key).take(plain.len() as int) == plain
}

/// The bitwise exclusive or of all bytes.
pub fn xor_bytes(bytes: &[u8]) -> (r: u8)
    ensures
        r == xor_all(bytes@),
{
    let mut checksum: u8 = 0;
    for i in 0..bytes.len()
        invariant
            checksum == xor_all(bytes@.take(i as int)),
    {
        assert(bytes@.take(i + 1).drop_last() =~= bytes@.take(i as int));
        checksum = checksum ^ bytes[i];
    }
    assert(bytes@.take(bytes@.len() as int) =~= bytes@);
    checksum
}

/// The number of bytes of padding that a message of `len` bytes gets.
pub fn padding_for(len: usize) -> (r: usize)
    requires
        len >= 1,
    ensures
        r == padding_len(len as int),
        r < 8,
{
    (8 - (len - 1) % 8) % 8
}

/// What follows the two length bytes of a message before it is encrypted.
pub fn check_body(message: &[u8], padding: &[u8]) -> (r: Vec<u8>)
    requires
        message@.len() >= 2,
    ensures
        r@ == checked_body(message@, padding@),
{
    let mut body: Vec<u8> = Vec::new();
    body.extend_from_slice(slice_subrange(message, 2, message.len()));
    body.extend_from_slice(padding);
    assert(body@ =~= message@.skip(2) + padding@);
    let checksum = xor_bytes(body.as_slice());
    body.push(checksum);
    body
}

/// Encrypts a message in place with random padding and a random initial
/// vector.
pub fn encrypt_message(buffer: &mut Vec<u8>, des_key: &[u8; 16]) -> (r: Result<(), NewcamdError>)
    requires
        old(buffer)@.len() >= 2,
    ensures
        r is Err <==> too_large(old(buffer)@.len() as int),
        r matches Err(err) ==> err@ == ErrorView::Protocol("packet too large"@) && final(buffer)@
            == old(buffer)@,
        r is Ok ==> exists|padding: Seq<u8>, ivec: Seq<u8>|
            padding.len() == padding_len(old(buffer)@.len() as int) && ivec.len() == 8
                && final(buffer)@ == #[trigger] encrypted_message(
                old(buffer)@,
                des_key@,
                padding,
                ivec,
            ),
        r is Ok ==> final(buffer)@.len() == encrypted_len(old(buffer)@.len() as int),
        r is Ok ==> decrypts_to(final(buffer)@, des_key@, old(buffer)@),
{
    let pad: usize = padding_for(buffer.len());
    let mut padding: Vec<u8> = Vec::new();
    for i in 0..pad
        invariant
            padding@.len() == i,
    {
        padding.push((random_u32() % 256) as u8);
    }
    let ivec = random_block();
    encrypt_message_with(buffer, des_key, padding.as_slice(), &ivec)
}

/// Encrypts a message in place with this padding and this initial vector.
pub fn encrypt_message_with(
    buffer: &mut Vec<u8>,
    des_key: &[u8; 16],
    padding: &[u8],
    ivec: &[u8; 8],
) -> (r: Result<(), NewcamdError>)
    requires
        old(buffer)@.len() >= 2,
        padding@.len() == padding_len(old(buffer)@.len() as int),
    ensures
        r is Err <==> too_large(old(buffer)@.len() as int),
        r matches Err(err) ==> err@ == ErrorView::Protocol("packet too large"@) && final(buffer)@
            == old(buffer)@,
        r is Ok ==> final(buffer)@ == encrypted_message(
            old(buffer)@,
            des_key@,
            padding@,
            ivec@,
        ),
        r is Ok ==> final(buffer)@.len() == encrypted_len(old(buffer)@.len() as int),
        r is Ok ==> decrypts_to(final(buffer)@, des_key@, old(buffer)@),
{
    let ghost message = buffer@;
    if buffer.len() >= CWS_NETMSGSIZE || buffer.len() + padding.len() + 1 + 8 >= CWS_NETMSGSIZE {
        return Err(NewcamdError::Protocol("packet too large"));
    }
    let body = check_body(buffer.as_slice(), padding);
    let cipher = cbc_encrypt(body.as_slice(), des_key, ivec);
    buffer.truncate(2);
    buffer.extend_from_slice(cipher.as_slice());
    buffer.extend_from_slice(ivec);
    proof {
        let sealed = buffer@;
        assert(sealed =~= encrypted_message(message, des_key@, padding@, ivec@));
        assert(sealed.skip(sealed.len() - 8) =~= ivec@);
        assert(sealed.subrange(2, sealed.len() - 8) =~= cipher@);
        assert(decrypted_body(sealed, des_key@) == body@);
        law_checksum(message, padding@);
        assert(decrypted_message(sealed, des_key@).take(message.len() as int) =~= message);
    }
    Ok(())
}

/// Decrypts a message in place and returns the length of what precedes the
/// initial vector.
pub fn decrypt_message(buffer: &mut [u8], des_key: &[u8; 16]) -> (r: Result<usize, NewcamdError>)
    requires
        old(buffer)@.len() >= 2,
    ensures
        match r {
            Ok(len) => decrypts(old(buffer)@, des_key@) && len == old(buffer)@.len() - 8,
            Err(err) => if is_encrypted_len(old(buffer)@.len() as int) {
                &&& err@ == ErrorView::Crypto("checksum mismatch"@)
                &&& xor_all(decrypted_body(old(buffer)@, des_key@)) != 0
            } else {
                err@ == ErrorView::Protocol("invalid encrypted payload length"@)
            },
        },
        is_encrypted_len(old(buffer)@.len() as int) ==> final(buffer)@ == decrypted_message(
            old(buffer)@,
            des_key@,
        ),
        !is_encrypted_len(old(buffer)@.len() as int) ==> final(buffer)@ == old(buffer)@,
{
    let ghost message = buffer@;
    let len: usize = buffer.len();
    if (len - 2) % 8 != 0 || len - 2 < 16 {
        return Err(NewcamdError::Protocol("invalid encrypted payload length"));
    }
    let data_len: usize = len - 8;
    let ivec = block_at(buffer, data_len);
    assert(ivec@ =~= message.skip(data_len as int));
    let body = cbc_decrypt(slice_subrange(buffer, 2, data_len), des_key, &ivec);
    let checksum = xor_bytes(body.as_slice());
    for i in 0..body.len()
        invariant
            body@.len() == data_len - 2,
            len == data_len + 8,
            message.len() == len,
            buffer@.len() == len,
            forall|j: int|
                0 <= j < len ==> buffer@[j] == (if 2 <= j < i + 2 {
                    body@[j - 2]
                } else {
                    message[j]
                }),
    {
        buffer[i + 2] = body[i];
    }
    assert(buffer@ =~= decrypted_message(message, des_key@));
    if checksum != 0 {
        return Err(NewcamdError::Crypto("checksum mismatch"));
    }
    Ok(data_len)
}

/// The checksum makes the exclusive or of everything behind the two length bytes
/// zero, whatever the message and the padding are.
pub proof fn law_checksum(message: Seq<u8>, padding: Seq<u8>)
    ensures
        xor_all(checked_body(message, padding)) == 0,
{
    let body = message.skip(2) + padding;
    let checksum = xor_all(body);
    assert(checked_body(message, padding).drop_last() =~= body);
    assert(checksum ^ checksum == 0) by (bit_vector);
}

/// The padding is less than a block, and with it what follows the two length
/// bytes fills whole blocks together with the checksum.
pub proof fn law_padding(len: int)
    ensures
        0 <= padding_len(len) < 8,
        (len - 1 + padding_len(len)) % 8 == 0,
        encrypted_len(len) % 8 == 2,
{
}

/// The exclusive or of one byte is that byte, that of none is zero, and that of
/// two sequences in a row is the exclusive or of both.
pub proof fn law_exclusive_or(byte: u8, first: Seq<u8>, second: Seq<u8>)
    ensures
        xor_all(Seq::empty()) == 0,
        xor_all(seq![byte]) == byte,
        xor_all(first + second) == xor_all(first) ^ xor_all(second),
    decreases second.len(),
{
    assert(seq![byte].drop_last() =~= Seq::<u8>::empty());
    assert(xor_all(seq![byte].drop_last()) == 0);
    assert(0 ^ byte == byte) by (bit_vector);
    let a = xor_all(first);
    if second.len() == 0 {
        assert(first + second =~= first);
        assert(a ^ 0 == a) by (bit_vector);
    } else {
        law_exclusive_or(byte, first, second.drop_last());
        assert((first + second).drop_last() =~= first + second.drop_last());
        let b = xor_all(second.drop_last());
        let c = second.last();
        assert((a ^ b) ^ c == a ^ (b ^ c)) by (bit_vector);
    }
}

/// What is encrypted is the message behind its two length bytes, the padding,
/// and one byte: the exclusive or of all of these.
pub proof fn law_checked_body(message: Seq<u8>, padding: Seq<u8>)
    requires
        message.len() >= 2,
    ensures
        ({
            let body = checked_body(message, padding);
            &&& body.len() == message.len() - 2 + padding.len() + 1
            &&& forall|i: int| 2 <= i < message.len() ==> body[i - 2] == #[trigger] message[i]
            &&& forall|i: int|
                0 <= i < padding.len() ==> body[message.len() - 2 + i] == #[trigger] padding[i]
            &&& body.last() == xor_all(message.skip(2)) ^ xor_all(padding)
        }),
{
    law_exclusive_or(0, message.skip(2), padding);
}

/// A message keeps its two length bytes when it is encrypted, and ends with the
/// initial vector. What stands between is the body, encrypted in cipher block
/// chaining from that vector on.
pub proof fn law_encrypted_message(
    message: Seq<u8>,
    key: Seq<u8>,
    padding: Seq<u8>,
    ivec: Seq<u8>,
)
    requires
        message.len() >= 2,
        ivec.len() == 8,
        padding.len() == padding_len(message.len() as int),
    ensures
        ({
            let sealed = encrypted_message(message, key, padding, ivec);
            let body = checked_body(message, padding);
            &&& body.len() % 8 == 0
            &&& sealed.len() >= 10
            &&& sealed[0] == message[0] && sealed[1] == message[1]
            &&& sealed.skip(sealed.len() - 8) == ivec
            &&& sealed.subrange(2, sealed.len() - 8) == cbc_encrypted(
                key,
                ivec,
                body,
                (body.len() / 8) as nat,
            )
        }),
{
    let sealed = encrypted_message(message, key, padding, ivec);
    let body = checked_body(message, padding);
    law_padding(message.len() as int);
    assert(sealed.skip(sealed.len() - 8) =~= ivec);
    assert(sealed.subrange(2, sealed.len() - 8) =~= cbc_encrypted(
        key,
        ivec,
        body,
        (body.len() / 8) as nat,
    ));
}

/// Decryption leaves the two length bytes and the initial vector at the end as
/// they are. Every other byte is that of its decrypted block, exclusive or the
/// byte eight before it in the message. For the first block the bytes of the
/// initial vector stand in.
pub proof fn law_decrypted_message(message: Seq<u8>, key: Seq<u8>)
    requires
        key.len() == 16,
        message.len() >= 18,
        message.len() % 8 == 2,
    ensures
        ({
            let k1 = key.take(8);
            let k2 = key.skip(8);
            let opened = decrypted_message(message, key);
            let end = message.len() - 8;
            &&& opened.len() == message.len()
            &&& opened[0] == message[0] && opened[1] == message[1]
            &&& opened.skip(end) == message.skip(end)
            &&& forall|j: int|
                2 <= j < 10 ==> #[trigger] opened[j] == des_decrypted(
                    k1,
                    des_encrypted(k2, des_decrypted(k1, message.subrange(2, 10))),
                )[j - 2] ^ message[end + j - 2]
            &&& forall|j: int|
                10 <= j < end ==> #[trigger] opened[j] == des_decrypted(
                    k1,
                    des_encrypted(
                        k2,
                        des_decrypted(
                            k1,
                            message.subrange(j - (j - 2) % 8, j - (j - 2) % 8 + 8),
                        ),
                    ),
                )[(j - 2) % 8] ^ message[j - 8]
        }),
{
    let k1 = key.take(8);
    let k2 = key.skip(8);
    let opened = decrypted_message(message, key);
    let end = message.len() - 8;
    let ivec = message.skip(end);
    let cipher = message.subrange(2, end);
    let body = cbc_decrypted(key, ivec, cipher);
    law_cbc_decryption(key, ivec, cipher);
    assert(opened.skip(end) =~= message.skip(end));
    assert forall|j: int| 2 <= j < 10 implies #[trigger] opened[j] == des_decrypted(
        k1,
        des_encrypted(k2, des_decrypted(k1, message.subrange(2, 10))),
    )[j - 2] ^ message[end + j - 2] by {
        assert(opened[j] == body[j - 2]);
        assert(cipher.take(8) =~= message.subrange(2, 10));
        assert(ivec[j - 2] == message[end + j - 2]);
    }
    assert forall|j: int| 10 <= j < end implies #[trigger] opened[j] == des_decrypted(
        k1,
        des_encrypted(
            k2,
            des_decrypted(k1, message.subrange(j - (j - 2) % 8, j - (j - 2) % 8 + 8)),
        ),
    )[(j - 2) % 8] ^ message[j - 8] by {
        let i = j - 2;
        assert(opened[j] == body[i]);
        assert(i - i % 8 + 8 <= cipher.len()) by {
            assert(cipher.len() == end - 2 && (end - 2) % 8 == 0);
            assert(i - i % 8 == i / 8 * 8);
        }
        assert(cipher.subrange(i - i % 8, i - i % 8 + 8) =~= message.subrange(
            j - (j - 2) % 8,
            j - (j - 2) % 8 + 8,
        ));
        assert(cipher[i - 8] == message[j - 8]);
    }
}

/// Messages of whole blocks behind their two length bytes, two blocks at least,
/// are decrypted if the exclusive or of what was encrypted is zero, and no
/// others. Messages of up to 489 bytes can be encrypted, and no others.
pub proof fn law_message_sizes(message: Seq<u8>, key: Seq<u8>, len: int)
    requires
        len >= 2,
    ensures
        is_encrypted_len(message.len() as int) <==> message.len() >= 18 && message.len() % 8 == 2,
        decrypts(message, key) <==> message.len() >= 18 && message.len() % 8 == 2 && xor_all(
            decrypted_message(message, key).subrange(2, message.len() - 8),
        ) == 0,
        too_large(len) <==> len > 489,
        encrypted_len(len) == len + padding_len(len) + 9,
{
    law_padding(len);
    if message.len() >= 18 && message.len() % 8 == 2 {
        assert(decrypted_message(message, key).subrange(2, message.len() - 8) =~= decrypted_body(
            message,
            key,
        ));
    }
}

} // verus!
